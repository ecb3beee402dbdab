//! Cutting text into lines, separated fields and words.

use vstd::prelude::*;

use crate::text;

verus! {

/// How many characters of `s` stand before its first `c`: all of them if there is none.
pub open spec fn until(s: Seq<char>, c: char) -> nat
    decreases s.len(),
{
    if s.len() == 0 || s[0] == c {
        0
    } else {
        1 + until(s.drop_first(), c)
    }
}

proof fn lemma_until(s: Seq<char>, c: char)
    ensures
        until(s, c) <= s.len(),
        until(s, c) < s.len() ==> s[until(s, c) as int] == c,
        forall|i: int| 0 <= i < until(s, c) ==> s[i] != c,
    decreases s.len(),
{
    if s.len() > 0 && s[0] != c {
        lemma_until(s.drop_first(), c);
        assert forall|i: int| 0 <= i < until(s, c) implies s[i] != c by {
            if i > 0 {
                assert(s[i] == s.drop_first()[i - 1]);
            }
        }
    }
}

/// The pieces of `s` between the separators `c`: one more than there are separators.
pub open spec fn split(s: Seq<char>, c: char) -> Seq<Seq<char>>
    decreases s.len(),
    via split_decreases
{
    let n = until(s, c) as int;
    if n == s.len() {
        seq![s]
    } else {
        seq![s.take(n)] + split(s.skip(n + 1), c)
    }
}

#[via_fn]
proof fn split_decreases(s: Seq<char>, c: char) {
    lemma_until(s, c);
}

/// There is always at least one piece.
pub proof fn lemma_split_len(s: Seq<char>, c: char)
    ensures
        split(s, c).len() > 0,
{
    lemma_until(s, c);
}

/// `s` without one trailing carriage return.
pub open spec fn without_cr(s: Seq<char>) -> Seq<char> {
    if s.len() > 0 && s.last() == '\r' {
        s.drop_last()
    } else {
        s
    }
}

/// The lines of `s`. Each ends with a line feed or a carriage return and a line feed, which
/// are not part of it; the last one may lack them.
pub open spec fn lines(s: Seq<char>) -> Seq<Seq<char>>
    decreases s.len(),
    via lines_decreases
{
    let n = until(s, '\n') as int;
    if s.len() == 0 {
        Seq::empty()
    } else if n == s.len() {
        seq![s]
    } else {
        seq![without_cr(s.take(n))] + lines(s.skip(n + 1))
    }
}

#[via_fn]
proof fn lines_decreases(s: Seq<char>) {
    lemma_until(s, '\n');
}

/// The characters of `s` before its first white space.
pub open spec fn leading_word(s: Seq<char>) -> Seq<char>
    decreases s.len(),
{
    if s.len() == 0 || text::is_white(s[0]) {
        Seq::empty()
    } else {
        seq![s[0]] + leading_word(s.drop_first())
    }
}

/// The first word of `s`: empty when `s` holds white space only.
pub open spec fn first_word(s: Seq<char>) -> Seq<char> {
    leading_word(text::trim_start(s))
}

/// The views of a vector of character vectors.
pub open spec fn views(v: Seq<Vec<char>>) -> Seq<Seq<char>> {
    v.map_values(|x: Vec<char>| x@)
}

/// The views of a vector of strings.
pub open spec fn texts(v: Seq<String>) -> Seq<Seq<char>> {
    v.map_values(|x: String| x@)
}

fn scan_until(s: &[char], from: usize, c: char) -> (end: usize)
    requires
        from <= s@.len(),
    ensures
        from <= end <= s@.len(),
        end == from + until(s@.skip(from as int), c),
{
    let mut i: usize = from;
    while i < s.len() && s[i] != c
        invariant
            from <= i <= s@.len(),
            i - from + until(s@.skip(i as int), c) == until(s@.skip(from as int), c),
        decreases s@.len() - i,
    {
        assert(s@.skip(i as int).drop_first() =~= s@.skip(i + 1));
        i = i + 1;
    }
    i
}

/// Cuts `s` at every `c`.
pub fn split_chars(s: &[char], c: char) -> (r: Vec<Vec<char>>)
    ensures
        views(r@) == split(s@, c),
{
    let mut r: Vec<Vec<char>> = Vec::new();
    let mut at: usize = 0;
    assert(s@.skip(0) =~= s@);
    assert(views(r@) + split(s@, c) =~= split(s@, c));
    loop
        invariant
            at <= s@.len(),
            views(r@) + split(s@.skip(at as int), c) == split(s@, c),
        decreases s@.len() - at,
    {
        let end = scan_until(s, at, c);
        let ghost rest = s@.skip(at as int);
        let ghost before = views(r@);
        proof {
            lemma_until(rest, c);
            assert(rest.take(end - at) =~= s@.subrange(at as int, end as int));
        }
        r.push(text::copy_range(s, at, end));
        assert(views(r@) =~= before.push(rest.take(end - at)));
        if end == s.len() {
            proof {
                assert(rest.take(end - at) =~= rest);
                assert(views(r@) =~= before + split(rest, c));
            }
            return r;
        }
        proof {
            assert(rest.skip(end - at + 1) =~= s@.skip(end + 1));
            assert(views(r@) + split(s@.skip(end + 1), c) =~= before + split(rest, c));
        }
        at = end + 1;
    }
}

/// Cuts `s` into its lines.
pub fn lines_of(s: &[char]) -> (r: Vec<Vec<char>>)
    ensures
        views(r@) == lines(s@),
{
    let mut r: Vec<Vec<char>> = Vec::new();
    let mut at: usize = 0;
    assert(s@.skip(0) =~= s@);
    assert(views(r@) + lines(s@) =~= lines(s@));
    while at < s.len()
        invariant
            at <= s@.len(),
            views(r@) + lines(s@.skip(at as int)) == lines(s@),
        decreases s@.len() - at,
    {
        let end = scan_until(s, at, '\n');
        let ghost rest = s@.skip(at as int);
        let ghost before = views(r@);
        proof {
            lemma_until(rest, '\n');
            assert(rest.take(end - at) =~= s@.subrange(at as int, end as int));
        }
        if end == s.len() {
            r.push(text::copy_range(s, at, end));
            proof {
                assert(rest.take(end - at) =~= rest);
                assert(views(r@) =~= before.push(rest));
                assert(views(r@) =~= before + lines(rest));
            }
            return r;
        }
        let cut: usize = if end > at && s[end - 1] == '\r' {
            end - 1
        } else {
            end
        };
        r.push(text::copy_range(s, at, cut));
        proof {
            assert(s@.subrange(at as int, cut as int) =~= without_cr(rest.take(end - at)));
            assert(views(r@) =~= before.push(without_cr(rest.take(end - at))));
            assert(rest.skip(end - at + 1) =~= s@.skip(end + 1));
            assert(views(r@) + lines(s@.skip(end + 1)) =~= before + lines(rest));
        }
        at = end + 1;
    }
    assert(s@.skip(at as int) =~= Seq::empty());
    assert(views(r@) + lines(s@.skip(at as int)) =~= views(r@));
    r
}

/// The first word of `s`.
pub fn first_word_of(s: &[char]) -> (r: Vec<char>)
    ensures
        r@ == first_word(s@),
{
    let t = text::trim_start_chars(s);
    let mut r: Vec<char> = Vec::new();
    let mut i: usize = 0;
    assert(t@.skip(0) =~= t@);
    assert(r@ + leading_word(t@) =~= leading_word(t@));
    while i < t.len() && !text::char_is_white(t[i])
        invariant
            i <= t@.len(),
            r@ + leading_word(t@.skip(i as int)) == leading_word(t@),
        decreases t@.len() - i,
    {
        let ghost before = r@;
        r.push(t[i]);
        assert(t@.skip(i as int).drop_first() =~= t@.skip(i + 1));
        assert(r@ + leading_word(t@.skip(i + 1)) =~= before + leading_word(t@.skip(i as int)));
        i = i + 1;
    }
    assert(r@ + Seq::<char>::empty() =~= r@);
    r
}

} // verus!
