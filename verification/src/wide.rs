//! UTF-16 text as Windows hands it out.

use vstd::prelude::*;

use crate::bytes;
use crate::gpt;
use crate::text;

verus! {

/// `char::from_u32`: the character of a Unicode scalar value, and nothing for a number that is
/// none.
pub assume_specification[ char::from_u32 ](i: u32) -> (r: Option<char>)
    ensures
        r == if i < 0xD800 || 0xE000 <= i <= 0x10FFFF {
            Some::<char>(i as char)
        } else {
            None::<char>
        },
;

pub open spec fn is_high(u: u16) -> bool {
    0xD800 <= u <= 0xDBFF
}

pub open spec fn is_low(u: u16) -> bool {
    0xDC00 <= u <= 0xDFFF
}

/// The character that stands for a surrogate without its partner.
pub open spec fn replacement() -> char {
    0xFFFDu32 as char
}

/// The text that UTF-16 code units spell; a surrogate without its partner counts as the
/// replacement character.
pub open spec fn wide_text(u: Seq<u16>) -> Seq<char>
    decreases u.len(),
{
    if u.len() == 0 {
        Seq::empty()
    } else if u.len() > 1 && is_high(u[0]) && is_low(u[1]) {
        seq![(0x1_0000 + (u[0] - 0xD800) * 0x400 + (u[1] - 0xDC00)) as char] + wide_text(u.skip(2))
    } else if is_high(u[0]) || is_low(u[0]) {
        seq![replacement()] + wide_text(u.skip(1))
    } else {
        seq![u[0] as char] + wide_text(u.skip(1))
    }
}

fn scalar(n: u32) -> (c: char)
    requires
        n < 0xD800 || 0xE000 <= n <= 0x10FFFF,
    ensures
        c == n as char,
{
    match char::from_u32(n) {
        Some(c) => c,
        None => ' ',
    }
}

/// The text of UTF-16 code units.
pub fn text_of_units(u: &[u16]) -> (r: String)
    ensures
        r@ == wide_text(u@),
{
    let n: usize = u.len();
    let mut out: Vec<char> = Vec::new();
    let mut i: usize = 0;
    assert(u@.skip(0) =~= u@);
    assert(out@ + wide_text(u@) =~= wide_text(u@));
    while i < n
        invariant
            n == u@.len(),
            i <= n,
            out@ + wide_text(u@.skip(i as int)) == wide_text(u@),
        decreases n - i,
    {
        let ghost rest = u@.skip(i as int);
        let ghost before = out@;
        assert(rest[0] == u@[i as int]);
        let a: u32 = u[i] as u32;
        if n - i > 1 && 0xD800 <= a && a <= 0xDBFF && 0xDC00 <= u[i + 1] && u[i + 1] <= 0xDFFF {
            assert(rest[1] == u@[i + 1]);
            let b: u32 = u[i + 1] as u32;
            out.push(scalar(0x1_0000 + (a - 0xD800) * 0x400 + (b - 0xDC00)));
            i = i + 2;
            assert(rest.skip(2) =~= u@.skip(i as int));
        } else {
            if 0xD800 <= a && a <= 0xDFFF {
                out.push(scalar(0xFFFD));
            } else {
                out.push(scalar(a));
            }
            i = i + 1;
            assert(rest.skip(1) =~= u@.skip(i as int));
        }
        assert(out@ + wide_text(u@.skip(i as int)) =~= before + wide_text(rest));
    }
    assert(out@ =~= out@ + wide_text(u@.skip(i as int)));
    text::string_of(&out)
}

/// The code units in a buffer, lowest byte first, up to the first zero; an odd byte at the end
/// is no unit.
pub open spec fn units_in(b: Seq<u8>) -> Seq<u16>
    decreases b.len(),
{
    if b.len() < 2 {
        Seq::empty()
    } else {
        let u = bytes::le_value(b.take(2)) as u16;
        if u == 0 {
            Seq::empty()
        } else {
            seq![u] + units_in(b.skip(2))
        }
    }
}

fn read_units(b: &[u8]) -> (r: Vec<u16>)
    ensures
        r@ == units_in(b@),
{
    let n: usize = b.len();
    let mut out: Vec<u16> = Vec::new();
    let mut i: usize = 0;
    assert(b@.skip(0) =~= b@);
    assert(out@ + units_in(b@) =~= units_in(b@));
    while n - i >= 2
        invariant
            n == b@.len(),
            i <= n,
            out@ + units_in(b@.skip(i as int)) == units_in(b@),
        decreases n - i,
    {
        let ghost rest = b@.skip(i as int);
        let ghost before = out@;
        let u = bytes::le_at(b, i, 2);
        proof {
            bytes::lemma_byte_ranges();
            assert(rest.take(2) =~= b@.subrange(i as int, i + 2));
        }
        if u == 0 {
            assert(out@ + units_in(rest) =~= out@);
            return out;
        }
        out.push(u as u16);
        i = i + 2;
        assert(rest.skip(2) =~= b@.skip(i as int));
        assert(out@ + units_in(b@.skip(i as int)) =~= before + units_in(rest));
    }
    assert(out@ =~= out@ + units_in(b@.skip(i as int)));
    out
}

/// The text of a registry value: its code units up to the first zero, trimmed.
pub fn registry_text(buf: &[u8]) -> (r: String)
    ensures
        r@ == text::trim(wide_text(units_in(buf@))),
{
    let units = read_units(buf);
    let s = text_of_units(&units);
    text::trim_str(s.as_str())
}

proof fn lemma_utf16_front(s: Seq<char>)
    requires
        s.len() > 0,
    ensures
        gpt::utf16(s) == gpt::utf16_units(s[0]) + gpt::utf16(s.drop_first()),
    decreases s.len(),
{
    if s.len() == 1 {
        assert(s.drop_last() =~= Seq::<char>::empty());
        assert(s.drop_first() =~= Seq::<char>::empty());
        assert(gpt::utf16(s.drop_last()) =~= Seq::<u16>::empty());
        assert(gpt::utf16(s) =~= gpt::utf16_units(s[0]));
        assert(gpt::utf16_units(s[0]) + gpt::utf16(s.drop_first()) =~= gpt::utf16_units(s[0]));
    } else {
        lemma_utf16_front(s.drop_last());
        assert(s.drop_last().drop_first() =~= s.drop_first().drop_last());
        assert(gpt::utf16(s) =~= gpt::utf16_units(s[0]) + gpt::utf16(s.drop_first()));
    }
}

/// The code units of one character decode to it, whatever follows.
proof fn lemma_first_character(c: char, rest: Seq<u16>)
    ensures
        wide_text(gpt::utf16_units(c) + rest) == seq![c] + wide_text(rest),
{
    let u = gpt::utf16_units(c) + rest;
    let n = c as u32;
    if n < 0x1_0000 {
        assert(u.skip(1) =~= rest);
    } else {
        assert(u.skip(2) =~= rest);
    }
}

/// Decoding the UTF-16 form of a text gives the text back.
pub proof fn utf16_round_trip(s: Seq<char>)
    ensures
        wide_text(gpt::utf16(s)) == s,
    decreases s.len(),
{
    if s.len() > 0 {
        lemma_utf16_front(s);
        utf16_round_trip(s.drop_first());
        lemma_first_character(s[0], gpt::utf16(s.drop_first()));
        assert(seq![s[0]] + s.drop_first() =~= s);
    }
}

} // verus!
