//! Volume labels: where they come from, which characters they may hold, and how FAT stores them.

use vstd::prelude::*;

use crate::bytes;
use crate::text;

verus! {

/// The characters that a label may hold. A label ends up in a command line and in a quoted
/// script, so nothing that means something there is among them.
pub open spec fn allowed(c: char) -> bool {
    text::is_alnum(c) || c == '_' || c == '-' || c == ' '
}

/// `c`, or an underscore where `c` is not allowed.
pub open spec fn cleaned_char(c: char) -> char {
    if allowed(c) {
        c
    } else {
        '_'
    }
}

pub open spec fn cleaned(s: Seq<char>) -> Seq<char> {
    Seq::new(s.len(), |i: int| cleaned_char(s[i]))
}

pub open spec fn sanitized(s: Seq<char>) -> Seq<char> {
    text::trim(cleaned(s))
}

pub open spec fn all_allowed(s: Seq<char>) -> bool {
    forall|i: int| 0 <= i < s.len() ==> allowed(#[trigger] s[i])
}

/// Replaces what a label may not hold, and trims it.
pub fn sanitize_label(s: &str) -> (r: String)
    ensures
        r@ == sanitized(s@),
{
    let chars = text::chars_of(s);
    let mut out: Vec<char> = Vec::new();
    for i in 0..chars.len()
        invariant
            chars@ == s@,
            out@ == cleaned(s@).take(i as int),
    {
        let c = chars[i];
        if text::char_is_alnum(c) || c == '_' || c == '-' || c == ' ' {
            out.push(c);
        } else {
            out.push('_');
        }
        assert(out@ =~= cleaned(s@).take(i + 1));
    }
    assert(cleaned(s@).take(s@.len() as int) =~= cleaned(s@));
    text::string_of(&text::trim_chars(&out))
}

// ---------------------------------------------------------------------------------------
// FAT
// ---------------------------------------------------------------------------------------

pub open spec fn upper_byte(b: u8) -> u8 {
    if 97 <= b <= 122 {
        (b - 32) as u8
    } else {
        b
    }
}

/// The label field of a FAT volume: the first 11 bytes in upper case, filled up with spaces.
pub open spec fn fat_field(label: Seq<char>) -> Seq<u8> {
    let b = vstd::utf8::encode_utf8(label);
    Seq::new(
        11,
        |i: int|
            if i < b.len() {
                upper_byte(b[i])
            } else {
                0x20
            },
    )
}

pub fn fat_label(label: &str) -> (r: [u8; 11])
    ensures
        r@ == fat_field(label@),
{
    let b = label.as_bytes();
    let mut out: [u8; 11] = [0x20; 11];
    let n: usize = if b.len() < 11 {
        b.len()
    } else {
        11
    };
    for i in 0..n
        invariant
            n <= b@.len(),
            n <= 11,
            b@ == vstd::utf8::encode_utf8(label@),
            forall|k: int| 0 <= k < i ==> out@[k] == upper_byte(b@[k]),
            forall|k: int| i <= k < 11 ==> out@[k] == 0x20,
    {
        let c: u8 = b[i];
        out[i] = if 97 <= c && c <= 122 {
            c - 32
        } else {
            c
        };
    }
    assert(out@ =~= fat_field(label@));
    out
}

/// The label that a FAT volume shows: the field as text, without the spaces at its end.
pub open spec fn short_label(label: Seq<char>) -> Seq<char> {
    let f = fat_field(label);
    text::trim_end(Seq::new(11, |i: int| f[i] as char))
}

pub fn shorten(label: &str) -> (r: String)
    requires
        all_allowed(label@),
    ensures
        r@ == short_label(label@),
{
    let f = fat_label(label);
    let ghost full = Seq::new(11, |i: int| fat_field(label@)[i] as char);
    let mut out: Vec<char> = Vec::new();
    for i in 0..11usize
        invariant
            f@ == fat_field(label@),
            full == Seq::new(11, |i: int| fat_field(label@)[i] as char),
            out@ == full.take(i as int),
    {
        out.push(f[i] as char);
        assert(out@ =~= full.take(i + 1));
    }
    assert(full.take(11) =~= full);
    text::string_of(&text::trim_end_chars(&out))
}

// ---------------------------------------------------------------------------------------
// Choosing a label
// ---------------------------------------------------------------------------------------

/// Where the primary volume descriptor of an ISO9660 image starts.
pub const DESCRIPTOR_AT: usize = 32_768;

/// A byte of a volume identifier: printable ASCII stays, everything else is an underscore.
pub open spec fn identifier_char(b: u8) -> char {
    if 0x20 <= b <= 0x7E {
        b as char
    } else {
        '_'
    }
}

/// The 32 characters of the volume identifier, trimmed.
pub open spec fn identifier(head: Seq<u8>) -> Seq<char> {
    text::trim(Seq::new(32, |i: int| identifier_char(head[DESCRIPTOR_AT + 0x28 + i])))
}

/// Whether an image starts with enough for a primary volume descriptor, and holds one.
pub open spec fn has_descriptor(head: Seq<u8>) -> bool {
    &&& DESCRIPTOR_AT + 0x48 <= head.len()
    &&& head[DESCRIPTOR_AT as int] == 1
    &&& bytes::bytes_at(head, DESCRIPTOR_AT + 1, bytes::ascii("CD001"@))
}

pub open spec fn volume_label(head: Seq<u8>) -> Option<Seq<char>> {
    if has_descriptor(head) && identifier(head).len() > 0 {
        Some(identifier(head))
    } else {
        None
    }
}

/// The volume identifier of an ISO9660 image, told from the image's first bytes.
pub fn iso_volume_label(head: &[u8]) -> (r: Option<String>)
    ensures
        match r {
            Some(s) => volume_label(head@) == Some(s@),
            None => volume_label(head@) is None,
        },
{
    if head.len() < DESCRIPTOR_AT + 0x48 || head[DESCRIPTOR_AT] != 1 || !bytes::has_text_at(
        head,
        DESCRIPTOR_AT + 1,
        "CD001",
    ) {
        return None;
    }
    let ghost raw = Seq::new(32, |i: int| identifier_char(head@[DESCRIPTOR_AT + 0x28 + i]));
    let mut out: Vec<char> = Vec::new();
    for i in 0..32usize
        invariant
            DESCRIPTOR_AT + 0x48 <= head@.len(),
            raw == Seq::new(32, |i: int| identifier_char(head@[DESCRIPTOR_AT + 0x28 + i])),
            out@ == raw.take(i as int),
    {
        let b: u8 = head[DESCRIPTOR_AT + 0x28 + i];
        if 0x20 <= b && b <= 0x7E {
            out.push(b as char);
        } else {
            out.push('_');
        }
        assert(out@ =~= raw.take(i + 1));
    }
    assert(raw.take(32) =~= raw);
    let trimmed = text::trim_chars(&out);
    if trimmed.len() == 0 {
        None
    } else {
        Some(text::string_of(&trimmed))
    }
}

/// The label before it is sanitized: the one asked for, else the image's own, else none.
pub open spec fn wanted(explicit: Option<Seq<char>>, head: Seq<u8>) -> Seq<char> {
    match (explicit, volume_label(head)) {
        (Some(s), _) => s,
        (None, Some(s)) => s,
        (None, None) => Seq::empty(),
    }
}

pub open spec fn resolved(explicit: Option<Seq<char>>, head: Seq<u8>) -> Seq<char> {
    let s = sanitized(wanted(explicit, head));
    if s.len() == 0 {
        "BUF"@
    } else {
        s
    }
}

pub open spec fn explicit_view(explicit: Option<&str>) -> Option<Seq<char>> {
    match explicit {
        Some(s) => Some(s@),
        None => None,
    }
}

/// The label for a drive, and whether it was asked for.
pub fn resolve_label(explicit: Option<&str>, head: &[u8]) -> (r: (String, bool))
    ensures
        r.0@ == resolved(explicit_view(explicit), head@),
        r.1 == explicit is Some,
{
    let label = match explicit {
        Some(s) => sanitize_label(s),
        None => match iso_volume_label(head) {
            Some(s) => sanitize_label(s.as_str()),
            None => sanitize_label(String::new().as_str()),
        },
    };
    let asked: bool = match explicit {
        Some(_) => true,
        None => false,
    };
    if label.as_str().is_empty() {
        ("BUF".to_owned(), asked)
    } else {
        (label, asked)
    }
}

// ---------------------------------------------------------------------------------------
// Laws
// ---------------------------------------------------------------------------------------

proof fn lemma_trim_start_allowed(s: Seq<char>)
    requires
        all_allowed(s),
    ensures
        all_allowed(text::trim_start(s)),
    decreases s.len(),
{
    if s.len() > 0 && text::is_white(s[0]) {
        lemma_trim_start_allowed(s.drop_first());
    }
}

proof fn lemma_trim_end_allowed(s: Seq<char>)
    requires
        all_allowed(s),
    ensures
        all_allowed(text::trim_end(s)),
    decreases s.len(),
{
    if s.len() > 0 && text::is_white(s.last()) {
        lemma_trim_end_allowed(s.drop_last());
    }
}

/// A sanitized label holds allowed characters only, whatever it was made from.
pub proof fn sanitized_labels_are_allowed(s: Seq<char>)
    ensures
        all_allowed(sanitized(s)),
{
    assert(all_allowed(cleaned(s)));
    lemma_trim_start_allowed(cleaned(s));
    lemma_trim_end_allowed(text::trim_start(cleaned(s)));
}

/// Sanitizing a label twice changes nothing more.
pub proof fn sanitizing_is_idempotent(s: Seq<char>)
    ensures
        sanitized(sanitized(s)) == sanitized(s),
{
    sanitized_labels_are_allowed(s);
    assert(cleaned(sanitized(s)) =~= sanitized(s));
    text::trim_is_idempotent(cleaned(s));
}

/// The label of a drive is never empty and holds allowed characters only.
pub proof fn resolved_labels_are_allowed(explicit: Option<Seq<char>>, head: Seq<u8>)
    ensures
        resolved(explicit, head).len() > 0,
        all_allowed(resolved(explicit, head)),
{
    reveal_strlit("BUF");
    sanitized_labels_are_allowed(wanted(explicit, head));
}

/// Allowed characters have no meaning in a quoted script: none is a quote, a dollar sign, a
/// backquote, a semicolon or a line break.
pub proof fn allowed_characters_are_plain(s: Seq<char>, i: int)
    requires
        all_allowed(s),
        0 <= i < s.len(),
    ensures
        s[i] != '\'',
        s[i] != '"',
        s[i] != '$',
        s[i] != '`',
        s[i] != ';',
        s[i] != '\n',
        s[i] != '\\',
{
    assert(allowed(s[i]));
}

proof fn lemma_trim_end_cuts_white(s: Seq<char>)
    ensures
        text::trim_end(s).len() <= s.len(),
        text::trim_end(s) == s.take(text::trim_end(s).len() as int),
        forall|i: int|
            text::trim_end(s).len() <= i < s.len() ==> text::is_white(#[trigger] s[i]),
    decreases s.len(),
{
    if s.len() > 0 && text::is_white(s.last()) {
        lemma_trim_end_cuts_white(s.drop_last());
        let t = text::trim_end(s);
        assert(s.drop_last().take(t.len() as int) =~= s.take(t.len() as int));
        assert forall|i: int| t.len() <= i < s.len() implies text::is_white(#[trigger] s[i]) by {
            if i < s.len() - 1 {
                assert(s.drop_last()[i] == s[i]);
            }
        }
    } else {
        assert(s.take(s.len() as int) =~= s);
    }
}

proof fn lemma_allowed_char(c: char)
    requires
        allowed(c),
    ensures
        0x20 <= c as u32 <= 0x7A,
        text::is_white(c) ==> c == ' ',
        allowed(upper_byte(c as u8) as char),
        upper_byte(upper_byte(c as u8)) == upper_byte(c as u8),
        (upper_byte(c as u8) as char) as u8 == upper_byte(c as u8),
{
}

pub proof fn lemma_allowed_bytes(s: Seq<char>)
    requires
        all_allowed(s),
    ensures
        vstd::utf8::encode_utf8(s) == bytes::ascii(s),
{
    assert forall|i: int| 0 <= i < s.len() implies 0 <= #[trigger] s[i] as u32 <= 127 by {
        lemma_allowed_char(s[i]);
    }
    vstd::utf8::is_ascii_chars_encode_utf8(s);
    assert(vstd::utf8::encode_utf8(s) =~= bytes::ascii(s));
}

/// Shortening a label keeps what FAT stores of it, and keeps it among the allowed characters.
pub proof fn shortened_labels_store_the_same(label: Seq<char>)
    requires
        all_allowed(label),
    ensures
        short_label(label).len() <= 11,
        all_allowed(short_label(label)),
        fat_field(short_label(label)) == fat_field(label),
{
    let f = fat_field(label);
    let full = Seq::new(11, |i: int| f[i] as char);
    let short = short_label(label);
    lemma_allowed_bytes(label);
    assert forall|i: int| 0 <= i < 11 implies allowed(#[trigger] full[i]) && upper_byte(f[i])
        == f[i] && full[i] as u8 == f[i] by {
        if i < label.len() {
            assert(allowed(label[i]));
            lemma_allowed_char(label[i]);
        }
    }
    lemma_trim_end_cuts_white(full);
    assert(all_allowed(short));
    lemma_allowed_bytes(short);
    assert forall|i: int| 0 <= i < 11 implies fat_field(short)[i] == f[i] by {
        assert(allowed(full[i]));
        lemma_allowed_char(full[i]);
    }
    assert(fat_field(short) =~= f);
}

/// What is left of a label of which FAT keeps the first 11 characters.
pub proof fn lemma_short_label(label: Seq<char>, i: int)
    requires
        all_allowed(label),
        label.len() > 11,
        0 <= i < 11,
    ensures
        short_label(label).len() <= 11,
        i < short_label(label).len() ==> short_label(label)[i] == if 'a' <= label[i] <= 'z' {
            ((label[i] as u32 - 32) as u32) as char
        } else {
            label[i]
        },
        i >= short_label(label).len() ==> label[i] == ' ',
        short_label(label).len() > 0 ==> short_label(label).last() != ' ',
{
    let f = fat_field(label);
    let full = Seq::new(11, |i: int| f[i] as char);
    lemma_allowed_bytes(label);
    lemma_trim_end_cuts_white(full);
    assert(allowed(label[i]));
    lemma_upper_char(label[i]);
    assert(full[i] == upper_byte(label[i] as u8) as char);
    let short = short_label(label);
    if short.len() > 0 {
        lemma_trim_end_plain(full);
    }
}

proof fn lemma_upper_char(c: char)
    requires
        allowed(c),
    ensures
        upper_byte(c as u8) as char == if 'a' <= c <= 'z' {
            ((c as u32 - 32) as u32) as char
        } else {
            c
        },
        text::is_white(upper_byte(c as u8) as char) ==> c == ' ',
{
}

proof fn lemma_trim_end_plain(s: Seq<char>)
    ensures
        text::trim_end(s).len() > 0 ==> !text::is_white(text::trim_end(s).last()),
    decreases s.len(),
{
    if s.len() > 0 && text::is_white(s.last()) {
        lemma_trim_end_plain(s.drop_last());
    }
}

} // verus!
