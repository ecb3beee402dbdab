//! Byte-string primitives: little-endian numbers, runs of zeros, and writes to a disk image.

use vstd::prelude::*;

use crate::text;

verus! {

/// The `width` lowest bytes of `n`, lowest first.
pub open spec fn le_bytes(n: nat, width: nat) -> Seq<u8>
    decreases width,
{
    if width == 0 {
        Seq::empty()
    } else {
        seq![(n % 256) as u8] + le_bytes(n / 256, (width - 1) as nat)
    }
}

/// The number whose bytes, lowest first, are `s`.
pub open spec fn le_value(s: Seq<u8>) -> nat
    decreases s.len(),
{
    if s.len() == 0 {
        0
    } else {
        s[0] as nat + 256 * le_value(s.drop_first())
    }
}

/// 256 to the power `width`.
pub open spec fn byte_range(width: nat) -> nat
    decreases width,
{
    if width == 0 {
        1
    } else {
        256 * byte_range((width - 1) as nat)
    }
}

pub open spec fn zeros(n: nat) -> Seq<u8> {
    Seq::new(n, |i: int| 0u8)
}

pub proof fn lemma_le_bytes_len(n: nat, width: nat)
    ensures
        le_bytes(n, width).len() == width,
    decreases width,
{
    if width > 0 {
        lemma_le_bytes_len(n / 256, (width - 1) as nat);
    }
}

/// Reading little-endian bytes back gives the number that was written, if it fits.
pub proof fn le_round_trip(n: nat, width: nat)
    requires
        n < byte_range(width),
    ensures
        le_bytes(n, width).len() == width,
        le_value(le_bytes(n, width)) == n,
    decreases width,
{
    if width > 0 {
        le_round_trip(n / 256, (width - 1) as nat);
        assert(le_bytes(n, width).drop_first() =~= le_bytes(n / 256, (width - 1) as nat));
    }
}

/// The ranges of the number widths in use.
pub proof fn lemma_byte_ranges()
    ensures
        byte_range(2) == 0x1_0000,
        byte_range(4) == 0x1_0000_0000,
        byte_range(8) == 0x1_0000_0000_0000_0000,
{
    reveal_with_fuel(byte_range, 9);
}

pub proof fn lemma_le_value_bound(s: Seq<u8>)
    ensures
        le_value(s) < byte_range(s.len()),
    decreases s.len(),
{
    if s.len() > 0 {
        lemma_le_value_bound(s.drop_first());
    }
}

/// Appends the bytes of `s`.
pub fn push_all(out: &mut Vec<u8>, s: &[u8])
    ensures
        final(out)@ == old(out)@ + s@,
{
    let ghost before = out@;
    for i in 0..s.len()
        invariant
            out@ == before + s@.take(i as int),
    {
        out.push(s[i]);
        assert(out@ =~= before + s@.take(i + 1));
    }
    assert(s@.take(s@.len() as int) =~= s@);
}

pub fn bytes_eq(a: &[u8], b: &[u8]) -> (r: bool)
    ensures
        r == (a@ == b@),
{
    if a.len() != b.len() {
        return false;
    }
    for i in 0..a.len()
        invariant
            a@.len() == b@.len(),
            forall|k: int| 0 <= k < i ==> a@[k] == b@[k],
    {
        if a[i] != b[i] {
            return false;
        }
    }
    assert(a@ =~= b@);
    true
}

/// Appends `n` zero bytes.
pub fn push_zeros(out: &mut Vec<u8>, n: usize)
    ensures
        final(out)@ == old(out)@ + zeros(n as nat),
{
    let ghost before = out@;
    for i in 0..n
        invariant
            out@ == before + zeros(i as nat),
    {
        out.push(0);
        assert(out@ =~= before + zeros((i + 1) as nat));
    }
}

/// Appends the `width` lowest bytes of `n`, lowest first.
pub fn push_le(out: &mut Vec<u8>, n: u64, width: usize)
    ensures
        final(out)@ == old(out)@ + le_bytes(n as nat, width as nat),
    decreases width,
{
    if width > 0 {
        let ghost before = out@;
        out.push((n % 256) as u8);
        push_le(out, n / 256, width - 1);
        assert(out@ =~= before + le_bytes(n as nat, width as nat));
    } else {
        assert(out@ =~= out@ + Seq::<u8>::empty());
    }
}

/// The little-endian number in the `width` bytes of `s` from `from` on.
pub fn le_at(s: &[u8], from: usize, width: usize) -> (n: u64)
    requires
        width <= 8,
        from + width <= s@.len(),
    ensures
        n == le_value(s@.subrange(from as int, from + width)),
        n < byte_range(width as nat),
    decreases width,
{
    let ghost part = s@.subrange(from as int, from + width);
    if width == 0 {
        return 0;
    }
    assert(s.len() == s@.len());
    let high = le_at(s, from + 1, width - 1);
    proof {
        assert(part.drop_first() =~= s@.subrange(from + 1, from + width));
        lemma_byte_ranges();
        reveal_with_fuel(byte_range, 9);
        assert(byte_range((width - 1) as nat) <= byte_range(7)) by {
            lemma_byte_range_grows((width - 1) as nat, 7);
        }
    }
    s[from] as u64 + 256 * high
}

proof fn lemma_byte_range_grows(a: nat, b: nat)
    requires
        a <= b,
    ensures
        byte_range(a) <= byte_range(b),
    decreases b,
{
    if a < b {
        lemma_byte_range_grows(a, (b - 1) as nat);
    }
}

/// Whether the bytes `p` stand at position `at` of `s`.
pub open spec fn bytes_at(s: Seq<u8>, at: int, p: Seq<u8>) -> bool {
    0 <= at && at + p.len() <= s.len() && s.subrange(at, at + p.len()) == p
}

pub fn has_bytes_at(s: &[u8], at: usize, p: &[u8]) -> (r: bool)
    ensures
        r == bytes_at(s@, at as int, p@),
{
    if s.len() < at || s.len() - at < p.len() {
        return false;
    }
    for i in 0..p.len()
        invariant
            at + p@.len() <= s@.len() == s.len(),
            forall|k: int| 0 <= k < i ==> s@[at + k] == p@[k],
    {
        if s[at + i] != p[i] {
            assert(s@.subrange(at as int, at + p@.len())[i as int] != p@[i as int]);
            return false;
        }
    }
    assert(s@.subrange(at as int, at + p@.len()) =~= p@);
    true
}

/// The bytes of a text of ASCII characters.
pub open spec fn ascii(s: Seq<char>) -> Seq<u8> {
    Seq::new(s.len(), |i: int| s[i] as u8)
}

/// Whether the ASCII text `p` stands at position `at` of `s`.
pub fn has_text_at(s: &[u8], at: usize, p: &str) -> (r: bool)
    ensures
        r == bytes_at(s@, at as int, ascii(p@)),
{
    let chars = text::chars_of(p);
    let mut b: Vec<u8> = Vec::new();
    for i in 0..chars.len()
        invariant
            chars@ == p@,
            b@ == ascii(p@).take(i as int),
    {
        b.push(chars[i] as u8);
        assert(b@ =~= ascii(p@).take(i + 1));
    }
    assert(ascii(p@).take(p@.len() as int) =~= ascii(p@));
    has_bytes_at(s, at, &b)
}

// ---------------------------------------------------------------------------------------
// Writes to a device
// ---------------------------------------------------------------------------------------

/// One write to a device: these bytes, from this byte offset on.
pub struct DiskWrite {
    pub offset: u64,
    pub bytes: Vec<u8>,
}

impl View for DiskWrite {
    type V = (nat, Seq<u8>);

    open spec fn view(&self) -> (nat, Seq<u8>) {
        (self.offset as nat, self.bytes@)
    }
}

pub open spec fn write_views(w: Seq<DiskWrite>) -> Seq<(nat, Seq<u8>)> {
    w.map_values(|x: DiskWrite| x@)
}

/// The byte at position `i` of a device that holds `disk`; past its end a device reads as
/// zeros.
pub open spec fn byte_on(disk: Seq<u8>, i: int) -> u8 {
    if 0 <= i < disk.len() {
        disk[i]
    } else {
        0
    }
}

/// The device after `w` was written to it. A write past the end extends it with zeros up to
/// where the write starts.
pub open spec fn after_write(disk: Seq<u8>, w: (nat, Seq<u8>)) -> Seq<u8> {
    let end = w.0 + w.1.len();
    Seq::new(
        if w.1.len() > 0 && end > disk.len() {
            end
        } else {
            disk.len()
        },
        |i: int|
            if w.0 <= i < end {
                w.1[i - w.0]
            } else {
                byte_on(disk, i)
            },
    )
}

/// The device after the writes `ws`, in order.
pub open spec fn after_writes(disk: Seq<u8>, ws: Seq<(nat, Seq<u8>)>) -> Seq<u8>
    decreases ws.len(),
{
    if ws.len() == 0 {
        disk
    } else {
        after_write(after_writes(disk, ws.drop_last()), ws.last())
    }
}

/// A write is what a read of the same range gives back, and every other byte is unchanged.
pub proof fn read_after_write(disk: Seq<u8>, w: (nat, Seq<u8>), i: int)
    requires
        0 <= i,
    ensures
        w.0 <= i < w.0 + w.1.len() ==> byte_on(after_write(disk, w), i) == w.1[i - w.0],
        !(w.0 <= i < w.0 + w.1.len()) ==> byte_on(after_write(disk, w), i) == byte_on(disk, i),
{
}

/// Performing a write and then others is the same as performing them all in order.
pub proof fn first_write_first(disk: Seq<u8>, w: (nat, Seq<u8>), rest: Seq<(nat, Seq<u8>)>)
    ensures
        after_writes(disk, seq![w] + rest) == after_writes(
            after_write(disk, w),
            rest,
        ),
    decreases rest.len(),
{
    let all = seq![w] + rest;
    if rest.len() == 0 {
        assert(all.drop_last() =~= Seq::<(nat, Seq<u8>)>::empty());
        assert(all.last() == w);
        assert(after_writes(disk, all.drop_last()) == disk);
    } else {
        first_write_first(disk, w, rest.drop_last());
        assert(all.drop_last() =~= seq![w] + rest.drop_last());
    }
}

} // verus!
