//! What holds of the primitives for text, numbers and bytes, whatever they are applied to: the
//! facts by which everything built from them can be read.

use vstd::prelude::*;

use crate::bytes;
use crate::fields;
use crate::numbers;
use crate::text;

verus! {

// ---------------------------------------------------------------------------------------
// Characters
// ---------------------------------------------------------------------------------------

/// White space are the control characters from tab to carriage return, the next line, and the
/// spaces and separators of Unicode, and nothing else.
pub proof fn white_space_is_that_of_unicode(c: char)
    ensures
        text::is_white(c) <==> {
            ||| c == '\t' || c == '\n' || c == '\u{b}' || c == '\u{c}' || c == '\r'
            ||| c == ' ' || c == '\u{85}' || c == '\u{a0}' || c == '\u{1680}'
            ||| '\u{2000}' <= c <= '\u{200a}'
            ||| c == '\u{2028}' || c == '\u{2029}' || c == '\u{202f}' || c == '\u{205f}'
            ||| c == '\u{3000}'
        },
{
}

/// Digits and letters are those of ASCII.
pub proof fn digits_and_letters_are_ascii(c: char)
    ensures
        text::is_digit(c) <==> 48 <= c as u32 <= 57,
        text::is_alnum(c) <==> 48 <= c as u32 <= 57 || 65 <= c as u32 <= 90 || 97 <= c as u32
            <= 122,
{
}

/// Lowering a text keeps its length and turns each capital letter of ASCII, and nothing else,
/// into the small one.
pub proof fn lowering_changes_capital_letters_only(s: Seq<char>, i: int)
    requires
        0 <= i < s.len(),
    ensures
        text::lower(s).len() == s.len(),
        'A' <= s[i] <= 'Z' ==> text::lower(s)[i] as u32 == s[i] as u32 + 32,
        !('A' <= s[i] <= 'Z') ==> text::lower(s)[i] == s[i],
{
}

// ---------------------------------------------------------------------------------------
// Trimming
// ---------------------------------------------------------------------------------------

pub open spec fn all_white(s: Seq<char>) -> bool {
    forall|i: int| 0 <= i < s.len() ==> text::is_white(#[trigger] s[i])
}

/// A text that neither starts nor ends with white space.
pub open spec fn is_trimmed(s: Seq<char>) -> bool {
    s.len() > 0 ==> !text::is_white(s[0]) && !text::is_white(s.last())
}

/// White space before a text is no part of what trimming its start gives.
pub proof fn leading_white_space_goes(left: Seq<char>, rest: Seq<char>)
    requires
        all_white(left),
        rest.len() > 0 ==> !text::is_white(rest[0]),
    ensures
        text::trim_start(left + rest) == rest,
    decreases left.len(),
{
    if left.len() > 0 {
        assert(text::is_white(left[0]));
        assert((left + rest).drop_first() =~= left.drop_first() + rest);
        assert forall|i: int| 0 <= i < left.drop_first().len() implies text::is_white(
            #[trigger] left.drop_first()[i],
        ) by {
            assert(text::is_white(left[i + 1]));
        }
        leading_white_space_goes(left.drop_first(), rest);
    } else {
        assert(left + rest =~= rest);
    }
}

/// White space behind a text is no part of what trimming its end gives.
pub proof fn trailing_white_space_goes(rest: Seq<char>, right: Seq<char>)
    requires
        all_white(right),
        rest.len() > 0 ==> !text::is_white(rest.last()),
    ensures
        text::trim_end(rest + right) == rest,
    decreases right.len(),
{
    if right.len() > 0 {
        assert(text::is_white(right[right.len() - 1]));
        assert((rest + right).drop_last() =~= rest + right.drop_last());
        assert forall|i: int| 0 <= i < right.drop_last().len() implies text::is_white(
            #[trigger] right.drop_last()[i],
        ) by {
            assert(text::is_white(right[i]));
        }
        trailing_white_space_goes(rest, right.drop_last());
    } else {
        assert(rest + right =~= rest);
    }
}

/// Trimming takes the white space at both ends and leaves everything between them.
pub proof fn trimming_leaves_the_middle(left: Seq<char>, mid: Seq<char>, right: Seq<char>)
    requires
        all_white(left),
        all_white(right),
        is_trimmed(mid),
    ensures
        text::trim(left + mid + right) == mid,
{
    if mid.len() > 0 {
        assert(left + mid + right =~= left + (mid + right));
        leading_white_space_goes(left, mid + right);
        trailing_white_space_goes(mid, right);
    } else {
        let all = left + right;
        assert(left + mid + right =~= all + mid);
        assert forall|i: int| 0 <= i < all.len() implies text::is_white(#[trigger] all[i]) by {
            if i < left.len() {
                assert(text::is_white(left[i]));
            } else {
                assert(text::is_white(right[i - left.len()]));
            }
        }
        leading_white_space_goes(all, mid);
        assert(text::trim_end(mid) == mid);
    }
}

/// A text without white space at its ends stays as it is.
pub proof fn trimmed_text_stays(s: Seq<char>)
    requires
        is_trimmed(s),
    ensures
        text::trim(s) == s,
        text::trim_start(s) == s,
        text::trim_end(s) == s,
{
}

// ---------------------------------------------------------------------------------------
// Searching
// ---------------------------------------------------------------------------------------

/// A text starts with another just where it is that one and something behind it, and ends with
/// it just where it is something and that one behind it.
pub proof fn starts_and_ends_are_parts(s: Seq<char>, p: Seq<char>, rest: Seq<char>)
    ensures
        text::starts_with(p + rest, p),
        text::ends_with(rest + p, p),
        text::starts_with(s, p) ==> s == p + s.skip(p.len() as int) && p.len() <= s.len(),
        text::ends_with(s, p) ==> s == s.take(s.len() - p.len()) + p && p.len() <= s.len(),
{
    assert((p + rest).take(p.len() as int) =~= p);
    assert((rest + p).skip(rest.len() as int) =~= p);
    if text::starts_with(s, p) {
        assert(s =~= s.take(p.len() as int) + s.skip(p.len() as int));
    }
    if text::ends_with(s, p) {
        assert(s =~= s.take(s.len() - p.len()) + s.skip(s.len() - p.len()));
    }
}

/// `p` stands at no position of `s` before `end`.
pub open spec fn not_before(s: Seq<char>, p: Seq<char>, end: int) -> bool {
    forall|k: int|
        #![trigger s.subrange(k, k + p.len())]
        0 <= k < end && k + p.len() <= s.len() ==> s.subrange(k, k + p.len()) != p
}

/// What follows and what precedes the first place of `p` in a text are what stands behind and
/// before it there; a text in which `p` stands nowhere has neither.
pub proof fn first_place_cuts_a_text(a: Seq<char>, p: Seq<char>, b: Seq<char>, s: Seq<char>)
    ensures
        not_before(a + p + b, p, a.len() as int) ==> {
            &&& text::after_first(a + p + b, p) == Some(b)
            &&& text::before_first(a + p + b, p) == Some(a)
        },
        not_before(s, p, s.len() as int + 1) ==> {
            &&& text::after_first(s, p) is None
            &&& text::before_first(s, p) is None
        },
{
    let t = a + p + b;
    let n = a.len() as int;
    if not_before(t, p, n) {
        assert(t.subrange(n, n + p.len()) =~= p);
        assert(text::occurs_at(t, p, n));
        assert forall|k: int| 0 <= k < n implies !#[trigger] text::occurs_at(t, p, k) by {
            if k + p.len() <= t.len() {
                assert(t.subrange(k, k + p.len()) != p);
            }
        }
        assert(text::first_at(t, p, n));
        let w = choose|w: int| text::first_at(t, p, w);
        assert(w == n) by {
            if w < n {
                assert(text::occurs_at(t, p, w));
            } else if n < w {
                assert(text::occurs_at(t, p, n));
            }
        }
        assert(t.skip(n + p.len()) =~= b);
        assert(t.take(n) =~= a);
    }
    if not_before(s, p, s.len() as int + 1) {
        assert forall|at: int| !text::first_at(s, p, at) by {
            if text::occurs_at(s, p, at) {
                assert(s.subrange(at, at + p.len()) == p);
            }
        }
    }
}

// ---------------------------------------------------------------------------------------
// Fields, lines and words
// ---------------------------------------------------------------------------------------

proof fn lemma_until_first(a: Seq<char>, c: char, b: Seq<char>)
    requires
        !a.contains(c),
    ensures
        fields::until(a + seq![c] + b, c) == a.len(),
        fields::until(a, c) == a.len(),
    decreases a.len(),
{
    let s = a + seq![c] + b;
    if a.len() > 0 {
        assert(s.drop_first() =~= a.drop_first() + seq![c] + b);
        assert(a.contains(a[0]));
        assert forall|i: int| 0 <= i < a.drop_first().len() implies a.drop_first()[i] != c by {
            assert(a.contains(a[i + 1]));
        }
        lemma_until_first(a.drop_first(), c, b);
    } else {
        assert(s[0] == c);
    }
}

/// Splitting cuts at each separator: what stands before the first one is the first piece, and
/// the rest is split the same way.
pub proof fn splitting_cuts_at_each_separator(a: Seq<char>, c: char, b: Seq<char>)
    requires
        !a.contains(c),
    ensures
        fields::split(a, c) == seq![a],
        fields::split(a + seq![c] + b, c) == seq![a] + fields::split(b, c),
{
    let s = a + seq![c] + b;
    lemma_until_first(a, c, b);
    assert(s.take(a.len() as int) =~= a);
    assert(s.skip(a.len() as int + 1) =~= b);
}

/// A line ends before its line feed, and before a carriage return in front of that; what follows
/// are further lines. The last one needs no line feed, and an empty text has no lines.
pub proof fn lines_end_at_line_feeds(a: Seq<char>, b: Seq<char>)
    requires
        !a.contains('\n'),
    ensures
        fields::lines(Seq::empty()) == Seq::<Seq<char>>::empty(),
        a.len() > 0 ==> fields::lines(a) == seq![a],
        fields::lines(a + seq!['\n'] + b) == seq![
            if a.len() > 0 && a.last() == '\r' {
                a.drop_last()
            } else {
                a
            },
        ] + fields::lines(b),
{
    let s = a + seq!['\n'] + b;
    lemma_until_first(a, '\n', b);
    assert(s.take(a.len() as int) =~= a);
    assert(s.skip(a.len() as int + 1) =~= b);
}

/// The first word of a text is what stands between the white space at its start and the next.
pub proof fn first_words_stand_between_white_space(
    left: Seq<char>,
    word: Seq<char>,
    rest: Seq<char>,
)
    requires
        all_white(left),
        forall|i: int| 0 <= i < word.len() ==> !text::is_white(#[trigger] word[i]),
        rest.len() > 0 ==> text::is_white(rest[0]),
        word.len() == 0 ==> rest.len() == 0,
    ensures
        fields::first_word(left + word + rest) == word,
{
    assert(left + word + rest =~= left + (word + rest));
    if word.len() > 0 {
        assert(!text::is_white(word[0]));
    }
    leading_white_space_goes(left, word + rest);
    lemma_leading_word(word, rest);
}

proof fn lemma_leading_word(word: Seq<char>, rest: Seq<char>)
    requires
        forall|i: int| 0 <= i < word.len() ==> !text::is_white(#[trigger] word[i]),
        rest.len() > 0 ==> text::is_white(rest[0]),
    ensures
        fields::leading_word(word + rest) == word,
    decreases word.len(),
{
    let s = word + rest;
    if word.len() > 0 {
        assert(!text::is_white(word[0]));
        assert(s.drop_first() =~= word.drop_first() + rest);
        assert forall|i: int| 0 <= i < word.drop_first().len() implies !text::is_white(
            #[trigger] word.drop_first()[i],
        ) by {
            assert(!text::is_white(word[i + 1]));
        }
        lemma_leading_word(word.drop_first(), rest);
        assert(seq![word[0]] + word.drop_first() =~= word);
    } else {
        assert(fields::leading_word(s) =~= word);
    }
}

// ---------------------------------------------------------------------------------------
// Numbers
// ---------------------------------------------------------------------------------------

/// The value of digits is the one of decimal notation: a further digit adds itself to ten times
/// what stood before it.
pub proof fn digits_count_in_tens(s: Seq<char>, c: char)
    requires
        '0' <= c <= '9',
    ensures
        numbers::digits_value(Seq::empty()) == 0,
        numbers::digits_value(s.push(c)) == 10 * numbers::digits_value(s) + (c as u32 - 48),
{
    assert(s.push(c).drop_last() =~= s);
}

/// A number is written in digits of that value, without a zero in front.
pub proof fn numbers_are_written_in_decimal(n: nat)
    ensures
        numbers::digits_value(numbers::decimal(n)) == n,
        numbers::decimal(n).len() > 0,
        forall|i: int|
            0 <= i < numbers::decimal(n).len() ==> '0' <= #[trigger] numbers::decimal(n)[i] <= '9',
        numbers::decimal(n)[0] == '0' <==> n == 0,
    decreases n,
{
    numbers::lemma_decimal(n);
    assert forall|i: int| 0 <= i < numbers::decimal(n).len() implies '0'
        <= #[trigger] numbers::decimal(n)[i] <= '9' by {
        assert(text::is_digit(numbers::decimal(n)[i]));
    }
    if n >= 10 {
        numbers_are_written_in_decimal(n / 10);
        assert(numbers::decimal(n)[0] == numbers::decimal(n / 10)[0]);
    }
}

/// Two digits are those of the number's last two places, and filling up with zeros changes the
/// length of a number and not its value.
pub proof fn filled_numbers_keep_their_value(n: nat, width: nat)
    ensures
        numbers::two_digits(n).len() == 2,
        numbers::digits_value(numbers::two_digits(n)) == n % 100,
        numbers::digits_value(numbers::zero_filled(n, width)) == n,
        numbers::zero_filled(n, width).len() == if numbers::decimal(n).len() < width {
            width
        } else {
            numbers::decimal(n).len()
        },
        forall|i: int|
            0 <= i < numbers::zero_filled(n, width).len() ==> '0' <= #[trigger] numbers::zero_filled(
                n,
                width,
            )[i] <= '9',
        forall|i: int| 0 <= i < 2 ==> '0' <= #[trigger] numbers::two_digits(n)[i] <= '9',
{
    lemma_two_digits(n);
    numbers_are_written_in_decimal(n);
    let d = numbers::decimal(n);
    if d.len() < width {
        let z = Seq::new((width - d.len()) as nat, |i: int| '0');
        lemma_leading_zeros(z, d);
    }
}

proof fn lemma_two_digits(n: nat)
    ensures
        numbers::two_digits(n).len() == 2,
        numbers::digits_value(numbers::two_digits(n)) == n % 100,
        forall|i: int| 0 <= i < 2 ==> '0' <= #[trigger] numbers::two_digits(n)[i] <= '9',
{
    let t = numbers::two_digits(n);
    reveal_with_fuel(numbers::digits_value, 3);
    assert(t.drop_last().drop_last() =~= Seq::<char>::empty());
}

proof fn lemma_leading_zeros(z: Seq<char>, d: Seq<char>)
    requires
        forall|i: int| 0 <= i < z.len() ==> z[i] == '0',
    ensures
        numbers::digits_value(z + d) == numbers::digits_value(d),
    decreases z.len() + d.len(),
{
    if d.len() > 0 {
        assert((z + d).drop_last() =~= z + d.drop_last());
        lemma_leading_zeros(z, d.drop_last());
    } else {
        assert(z + d =~= z);
        if z.len() > 0 {
            lemma_leading_zeros(z.drop_last(), d);
            assert(z.drop_last() + d =~= z.drop_last());
        }
    }
}

/// Digits within the bound read as their value, with a plus sign in front or without.
pub proof fn digits_read_as_their_value(d: Seq<char>, max: nat)
    requires
        d.len() > 0,
        forall|i: int| 0 <= i < d.len() ==> '0' <= #[trigger] d[i] <= '9',
    ensures
        numbers::parse_unsigned(d, max) == if numbers::digits_value(d) <= max {
            Some(numbers::digits_value(d))
        } else {
            None
        },
        numbers::parse_unsigned(seq!['+'] + d, max) == numbers::parse_unsigned(d, max),
{
    assert forall|i: int| 0 <= i < d.len() implies text::is_digit(#[trigger] d[i]) by {}
    assert('0' <= d[0] <= '9');
    assert((seq!['+'] + d).drop_first() =~= d);
}

/// What is no row of digits behind at most one plus sign reads as no number.
pub proof fn other_text_reads_as_no_number(s: Seq<char>, i: int, max: nat)
    requires
        s.len() == 0 || (0 <= i < s.len() && !('0' <= s[i] <= '9') && (i > 0 || s[0] != '+'
            || s.len() == 1)),
    ensures
        numbers::parse_unsigned(s, max) is None,
{
    if s.len() > 0 {
        let d = numbers::unsigned_part(s);
        if s[0] == '+' {
            if s.len() > 1 {
                assert(d[i - 1] == s[i]);
                assert(!text::is_digit(d[i - 1]));
            }
        } else {
            assert(!text::is_digit(d[i]));
        }
    }
}

// ---------------------------------------------------------------------------------------
// Bytes
// ---------------------------------------------------------------------------------------

/// Numbers on a device stand lowest byte first.
pub proof fn numbers_stand_lowest_byte_first(s: Seq<u8>)
    ensures
        s.len() == 2 ==> bytes::le_value(s) == s[0] + 0x100 * s[1],
        s.len() == 4 ==> bytes::le_value(s) == s[0] + 0x100 * s[1] + 0x1_0000 * s[2]
            + 0x100_0000 * s[3],
        s.len() == 8 ==> bytes::le_value(s) == s[0] + 0x100 * s[1] + 0x1_0000 * s[2]
            + 0x100_0000 * s[3] + 0x1_0000_0000 * s[4] + 0x100_0000_0000 * s[5]
            + 0x1_0000_0000_0000 * s[6] + 0x100_0000_0000_0000 * s[7],
{
    reveal_with_fuel(bytes::le_value, 9);
}

/// A run of zeros is as long as was asked for, and zero throughout.
pub proof fn zeros_are_zero(n: nat, i: int)
    requires
        0 <= i < n,
    ensures
        bytes::zeros(n).len() == n,
        bytes::zeros(n)[i] == 0,
{
}

/// Bytes stand at a position just where each of them does, all within the text.
pub proof fn bytes_stand_where_each_does(s: Seq<u8>, at: int, p: Seq<u8>)
    requires
        0 <= at,
    ensures
        bytes::bytes_at(s, at, p) <==> at + p.len() <= s.len() && forall|k: int|
            0 <= k < p.len() ==> s[at + k] == #[trigger] p[k],
{
    if at + p.len() <= s.len() {
        let part = s.subrange(at, at + p.len());
        if bytes::bytes_at(s, at, p) {
            assert forall|k: int| 0 <= k < p.len() implies s[at + k] == #[trigger] p[k] by {
                assert(part[k] == p[k]);
            }
        } else if forall|k: int| 0 <= k < p.len() ==> s[at + k] == #[trigger] p[k] {
            assert(part =~= p);
        }
    }
}

/// An ASCII text is stored as the code of each of its characters.
pub proof fn ascii_text_is_stored_by_its_codes(s: Seq<char>, i: int)
    requires
        0 <= i < s.len(),
        s[i] as u32 <= 127,
    ensures
        bytes::ascii(s).len() == s.len(),
        bytes::ascii(s)[i] == s[i] as u32,
{
    lemma_code(s[i]);
}

proof fn lemma_code(c: char)
    requires
        c as u32 <= 127,
    ensures
        c as u8 == c as u32,
{
}

/// A write within a device does not change how long it is.
pub proof fn writes_inside_keep_the_length(disk: Seq<u8>, w: (nat, Seq<u8>))
    requires
        w.0 + w.1.len() <= disk.len(),
    ensures
        bytes::after_write(disk, w).len() == disk.len(),
{
}

} // verus!
