//! CRC-32 as used by GPT: reflected polynomial `0xEDB88320`, all-ones preset, inverted result.

use vstd::prelude::*;

verus! {

/// The register after one bit was shifted out.
pub open spec fn crc_shift(c: u32) -> u32 {
    if c & 1 == 1 {
        (c >> 1) ^ 0xEDB8_8320
    } else {
        c >> 1
    }
}

/// The register after `n` bits were shifted out.
pub open spec fn crc_shifts(c: u32, n: nat) -> u32
    decreases n,
{
    if n == 0 {
        c
    } else {
        crc_shift(crc_shifts(c, (n - 1) as nat))
    }
}

/// The register after the bytes `data`.
pub open spec fn crc_register(data: Seq<u8>) -> u32
    decreases data.len(),
{
    if data.len() == 0 {
        0xFFFF_FFFF
    } else {
        crc_shifts(crc_register(data.drop_last()) ^ data.last() as u32, 8)
    }
}

pub open spec fn crc_value(data: Seq<u8>) -> u32 {
    !crc_register(data)
}

/// The CRC-32 of `data`.
pub fn crc32(data: &[u8]) -> (r: u32)
    ensures
        r == crc_value(data@),
{
    let mut crc: u32 = 0xFFFF_FFFF;
    for i in 0..data.len()
        invariant
            crc == crc_register(data@.take(i as int)),
    {
        crc = crc ^ data[i] as u32;
        let ghost start = crc;
        for k in 0..8
            invariant
                crc == crc_shifts(start, k as nat),
        {
            crc = if crc & 1 == 1 {
                (crc >> 1) ^ 0xEDB8_8320
            } else {
                crc >> 1
            };
        }
        assert(data@.take(i + 1).drop_last() =~= data@.take(i as int));
    }
    assert(data@.take(data@.len() as int) =~= data@);
    !crc
}

// ---------------------------------------------------------------------------------------
// What the checksum promises
// ---------------------------------------------------------------------------------------

/// Bits that do not reach the end of the register yet only move on.
proof fn lemma_shift_apart(x: u32, z: u32)
    by (bit_vector)
    requires
        z & 1 == 0,
    ensures
        crc_shift(x ^ z) == crc_shift(x) ^ (z >> 1u32),
{
}

proof fn lemma_shifts_apart(x: u32, z: u32, n: u32)
    requires
        z & 0xFF == 0,
        n <= 8,
    ensures
        crc_shifts(x ^ z, n as nat) == crc_shifts(x, n as nat) ^ (z >> n),
    decreases n,
{
    if n == 0 {
        assert(z >> 0u32 == z) by (bit_vector);
    } else {
        let m = (n - 1) as u32;
        lemma_shifts_apart(x, z, m);
        assert((z >> m) & 1 == 0 && (z >> m) >> 1u32 == z >> n) by (bit_vector)
            requires
                z & 0xFF == 0,
                n <= 8,
                n >= 1,
                m == n - 1,
        ;
        lemma_shift_apart(crc_shifts(x, m as nat), z >> m);
    }
}

/// Taking in the lowest byte of `w` is taking in all of `w`, less what is still to come.
proof fn lemma_byte_of_word(r: u32, w: u32, b: u8)
    requires
        b == w & 0xFF,
    ensures
        crc_shifts(r ^ b as u32, 8) == crc_shifts(r ^ w, 8) ^ (w >> 8u32),
{
    let z = w & 0xFFFF_FF00;
    assert(z & 0xFF == 0 && r ^ b as u32 == (r ^ w) ^ z && z >> 8u32 == w >> 8u32)
        by (bit_vector)
        requires
            b == w & 0xFF,
            z == w & 0xFFFF_FF00,
    ;
    lemma_shifts_apart(r ^ w, z, 8);
}

/// The registers that follow each other when all ones are shifted out, eight bits at a time.
proof fn lemma_ones(
    c0: u32,
    c1: u32,
    c2: u32,
    c3: u32,
    c4: u32,
    c5: u32,
    c6: u32,
    c7: u32,
    c8: u32,
)
    by (bit_vector)
    requires
        c1 == crc_shift(c0),
        c2 == crc_shift(c1),
        c3 == crc_shift(c2),
        c4 == crc_shift(c3),
        c5 == crc_shift(c4),
        c6 == crc_shift(c5),
        c7 == crc_shift(c6),
        c8 == crc_shift(c7),
    ensures
        c0 == 0xFFFF_FFFF ==> c8 == 0x2DFD_1072,
        c0 == 0x2DFD_1072 ==> c8 == 0xBE26_ED00,
        c0 == 0xBE26_ED00 ==> c8 == 0x00BE_26ED,
        c0 == 0x00BE_26ED ==> c8 == 0xDEBB_20E3,
{
}

proof fn lemma_ones_shifted(c: u32)
    ensures
        c == 0xFFFF_FFFF ==> crc_shifts(c, 8) == 0x2DFD_1072,
        c == 0x2DFD_1072 ==> crc_shifts(c, 8) == 0xBE26_ED00,
        c == 0xBE26_ED00 ==> crc_shifts(c, 8) == 0x00BE_26ED,
        c == 0x00BE_26ED ==> crc_shifts(c, 8) == 0xDEBB_20E3,
{
    reveal_with_fuel(crc_shifts, 9);
    lemma_ones(
        c,
        crc_shifts(c, 1),
        crc_shifts(c, 2),
        crc_shifts(c, 3),
        crc_shifts(c, 4),
        crc_shifts(c, 5),
        crc_shifts(c, 6),
        crc_shifts(c, 7),
        crc_shifts(c, 8),
    );
}

/// The checksum of no data at all is 0. Data with their own checksum behind them, lowest byte first,
/// always have the checksum by which receivers of CRC-32 tell that nothing was damaged.
pub proof fn checksummed_data_have_the_residue(data: Seq<u8>, check: Seq<u8>)
    requires
        check.len() == 4,
        check[0] + 0x100 * check[1] + 0x1_0000 * check[2] + 0x100_0000 * check[3] == crc_value(
            data,
        ),
    ensures
        crc_value(Seq::empty()) == 0,
        crc_value(data + check) == 0x2144_DF1C,
{
    assert(!0xFFFF_FFFFu32 == 0) by (bit_vector);
    let r = crc_register(data);
    let w = crc_value(data);
    let (b0, b1, b2, b3) = (check[0], check[1], check[2], check[3]);
    let (w1, w2, w3) = (w >> 8u32, w >> 16u32, w >> 24u32);
    assert(b0 == w & 0xFF && b1 == (w >> 8u32) & 0xFF && b2 == (w >> 16u32) & 0xFF && b3 == (w
        >> 24u32) & 0xFF && (w >> 8u32) >> 8u32 == w >> 16u32 && (w >> 16u32) >> 8u32 == w
        >> 24u32 && (w >> 24u32) >> 8u32 == 0 && r ^ w == 0xFFFF_FFFF) by (bit_vector)
        requires
            b0 + 0x100 * b1 + 0x1_0000 * b2 + 0x100_0000 * b3 == w,
            w == !r,
    ;
    // After each byte the register is that of all ones, and what is left of the checksum.
    let d1 = data.push(b0);
    let d2 = d1.push(b1);
    let d3 = d2.push(b2);
    let d4 = d3.push(b3);
    assert(d1.drop_last() =~= data);
    assert(d2.drop_last() =~= d1);
    assert(d3.drop_last() =~= d2);
    assert(d4.drop_last() =~= d3);
    assert(data + check =~= d4);
    lemma_ones_shifted(0xFFFF_FFFF);
    lemma_ones_shifted(0x2DFD_1072);
    lemma_ones_shifted(0xBE26_ED00);
    lemma_ones_shifted(0x00BE_26ED);
    lemma_byte_of_word(r, w, b0);
    lemma_xor_back(0x2DFD_1072, w1);
    lemma_byte_of_word(crc_register(d1), w1, b1);
    lemma_xor_back(0xBE26_ED00, w2);
    lemma_byte_of_word(crc_register(d2), w2, b2);
    lemma_xor_back(0x00BE_26ED, w3);
    lemma_byte_of_word(crc_register(d3), w3, b3);
    assert(0xDEBB_20E3u32 ^ 0u32 == 0xDEBB_20E3u32 && !0xDEBB_20E3u32 == 0x2144_DF1C) by (bit_vector);
}

proof fn lemma_xor_back(a: u32, b: u32)
    by (bit_vector)
    ensures
        (a ^ b) ^ b == a,
{
}

} // verus!
