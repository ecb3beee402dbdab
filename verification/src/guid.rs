//! Partition GUIDs: the mixed-endian order in which GPT stores them, and fresh random ones.

use vstd::prelude::*;

use std::collections::hash_map::{DefaultHasher, RandomState};
use std::hash::{BuildHasher, Hasher};

use crate::bytes;

verus! {

/// `RandomState::new`: a hasher factory with keys of the process' choosing. Nothing is
/// claimed of it.
pub assume_specification[ RandomState::new ]() -> (s: RandomState)
;

/// `RandomState::build_hasher`: a hasher with the factory's keys. Nothing is claimed of it.
#[verifier::external_body]
fn seeded_hasher(s: &RandomState) -> (h: DefaultHasher) {
    s.build_hasher()
}

/// A GUID given in the order in which it is printed, as GPT stores it: the first three
/// fields lowest byte first, the rest as printed.
pub open spec fn guid_on_disk(b: Seq<u8>) -> Seq<u8> {
    seq![
        b[3], b[2], b[1], b[0],
        b[5], b[4],
        b[7], b[6],
        b[8], b[9], b[10], b[11], b[12], b[13], b[14], b[15],
    ]
}

pub fn guid_le(bytes: [u8; 16]) -> (r: [u8; 16])
    ensures
        r@ == guid_on_disk(bytes@),
{
    let r: [u8; 16] = [
        bytes[3], bytes[2], bytes[1], bytes[0],
        bytes[5], bytes[4],
        bytes[7], bytes[6],
        bytes[8], bytes[9], bytes[10], bytes[11], bytes[12], bytes[13], bytes[14], bytes[15],
    ];
    assert(r@ =~= guid_on_disk(bytes@));
    r
}

/// Putting a GUID into disk order twice gives it back as printed.
pub proof fn guid_order_is_involutive(b: Seq<u8>)
    requires
        b.len() == 16,
    ensures
        guid_on_disk(guid_on_disk(b)) == b,
{
    assert(guid_on_disk(guid_on_disk(b)) =~= b);
}

/// `C12A7328-F81F-11D2-BA4B-00A0C93EC93B`, the type of an EFI system partition.
pub open spec fn esp_guid() -> Seq<u8> {
    guid_on_disk(
        seq![
            0xC1u8, 0x2A, 0x73, 0x28, 0xF8, 0x1F, 0x11, 0xD2,
            0xBA, 0x4B, 0x00, 0xA0, 0xC9, 0x3E, 0xC9, 0x3B,
        ],
    )
}

/// `EBD0A0A2-B9E5-4433-87C0-68B6B72699C7`, the type of a basic data partition.
pub open spec fn basic_data_guid() -> Seq<u8> {
    guid_on_disk(
        seq![
            0xEBu8, 0xD0, 0xA0, 0xA2, 0xB9, 0xE5, 0x44, 0x33,
            0x87, 0xC0, 0x68, 0xB6, 0xB7, 0x26, 0x99, 0xC7,
        ],
    )
}

/// The type of an EFI system partition, in disk order.
pub fn esp_type() -> (r: [u8; 16])
    ensures
        r@ == esp_guid(),
{
    guid_le(
        [
            0xC1, 0x2A, 0x73, 0x28, 0xF8, 0x1F, 0x11, 0xD2,
            0xBA, 0x4B, 0x00, 0xA0, 0xC9, 0x3E, 0xC9, 0x3B,
        ],
    )
}

/// The type of a basic data partition, in disk order. Desktops do not hide such a partition,
/// and firmware boots a FAT file system in it just as well.
pub fn basic_data_type() -> (r: [u8; 16])
    ensures
        r@ == basic_data_guid(),
{
    guid_le(
        [
            0xEB, 0xD0, 0xA0, 0xA2, 0xB9, 0xE5, 0x44, 0x33,
            0x87, 0xC0, 0x68, 0xB6, 0xB7, 0x26, 0x99, 0xC7,
        ],
    )
}

/// Whether `g`, in disk order, carries the marks of a random GUID: version 4 in the high
/// half of byte 7, the standard variant in the two highest bits of byte 8.
pub open spec fn is_random_guid(g: Seq<u8>) -> bool {
    g.len() == 16 && g[7] & 0xF0 == 0x40 && g[8] & 0xC0 == 0x80
}

/// The GUID made of the random numbers `a` and `b`, with the marks set.
pub open spec fn stamped(a: u64, b: u64) -> Seq<u8> {
    let raw = bytes::le_bytes(a as nat, 8) + bytes::le_bytes(b as nat, 8);
    raw.update(7, (raw[7] & 0x0F) | 0x40).update(8, (raw[8] & 0x3F) | 0x80)
}

/// The marks hold whatever the random numbers are.
pub proof fn stamped_is_random_guid(a: u64, b: u64)
    ensures
        is_random_guid(stamped(a, b)),
{
    bytes::lemma_le_bytes_len(a as nat, 8);
    bytes::lemma_le_bytes_len(b as nat, 8);
    let raw = bytes::le_bytes(a as nat, 8) + bytes::le_bytes(b as nat, 8);
    let x = raw[7];
    let y = raw[8];
    assert(((x & 0x0F) | 0x40) & 0xF0 == 0x40) by (bit_vector);
    assert(((y & 0x3F) | 0x80) & 0xC0 == 0x80) by (bit_vector);
}

/// A GUID from two random numbers.
pub fn stamp_guid(a: u64, b: u64) -> (g: [u8; 16])
    ensures
        g@ == stamped(a, b),
        is_random_guid(g@),
{
    let mut raw: Vec<u8> = Vec::new();
    bytes::push_le(&mut raw, a, 8);
    bytes::push_le(&mut raw, b, 8);
    proof {
        bytes::lemma_le_bytes_len(a as nat, 8);
        bytes::lemma_le_bytes_len(b as nat, 8);
        assert(raw@ =~= bytes::le_bytes(a as nat, 8) + bytes::le_bytes(b as nat, 8));
        stamped_is_random_guid(a, b);
    }
    let g: [u8; 16] = [
        raw[0], raw[1], raw[2], raw[3], raw[4], raw[5], raw[6],
        (raw[7] & 0x0F) | 0x40,
        (raw[8] & 0x3F) | 0x80,
        raw[9], raw[10], raw[11], raw[12], raw[13], raw[14], raw[15],
    ];
    assert(g@ =~= stamped(a, b));
    g
}

/// A fresh random GUID, from the seeds that the operating system gives to hash tables.
pub fn random_guid() -> (g: [u8; 16])
    ensures
        is_random_guid(g@),
        exists|a: u64, b: u64| g@ == #[trigger] stamped(a, b),
{
    let a = seeded_hasher(&RandomState::new()).finish();
    let b = seeded_hasher(&RandomState::new()).finish();
    stamp_guid(a, b)
}

/// On a device the first three fields of a GUID stand with their bytes turned round, the others
/// as they are printed.
pub proof fn guids_turn_their_first_three_fields(b: Seq<u8>, i: int)
    requires
        b.len() == 16,
        0 <= i < 16,
    ensures
        guid_on_disk(b).len() == 16,
        guid_on_disk(b)[i] == if i < 4 {
            b[3 - i]
        } else if i < 6 {
            b[9 - i]
        } else if i < 8 {
            b[13 - i]
        } else {
            b[i]
        },
{
}

/// The partition types that firmware and desktops know, byte by byte as they stand on a device.
pub proof fn partition_types_are_the_registered_ones()
    ensures
        esp_guid() == seq![
            0x28u8, 0x73, 0x2A, 0xC1, 0x1F, 0xF8, 0xD2, 0x11,
            0xBA, 0x4B, 0x00, 0xA0, 0xC9, 0x3E, 0xC9, 0x3B,
        ],
        basic_data_guid() == seq![
            0xA2u8, 0xA0, 0xD0, 0xEB, 0xE5, 0xB9, 0x33, 0x44,
            0x87, 0xC0, 0x68, 0xB6, 0xB7, 0x26, 0x99, 0xC7,
        ],
{
    assert(esp_guid() =~= seq![
        0x28u8, 0x73, 0x2A, 0xC1, 0x1F, 0xF8, 0xD2, 0x11,
        0xBA, 0x4B, 0x00, 0xA0, 0xC9, 0x3E, 0xC9, 0x3B,
    ]);
    assert(basic_data_guid() =~= seq![
        0xA2u8, 0xA0, 0xD0, 0xEB, 0xE5, 0xB9, 0x33, 0x44,
        0x87, 0xC0, 0x68, 0xB6, 0xB7, 0x26, 0x99, 0xC7,
    ]);
}

/// Apart from its six marked bits a GUID holds both random numbers whole, so that two GUIDs from
/// numbers that differ elsewhere differ.
pub proof fn guids_keep_their_random_numbers(a: u64, b: u64)
    ensures
        stamped(a, b).len() == 16,
        exists|x: u8| #[trigger]
            bytes::le_value(stamped(a, b).take(7).push(x)) == a && x & 0x0F == stamped(a, b)[7]
                & 0x0F,
        exists|y: u8| #[trigger]
            bytes::le_value(seq![y] + stamped(a, b).skip(9)) == b && y & 0x3F == stamped(a, b)[8]
                & 0x3F,
        stamped(a, b)[7] & 0xF0 == 0x40,
        stamped(a, b)[8] & 0xC0 == 0x80,
{
    bytes::lemma_byte_ranges();
    bytes::le_round_trip(a as nat, 8);
    bytes::le_round_trip(b as nat, 8);
    stamped_is_random_guid(a, b);
    let (low, high) = (bytes::le_bytes(a as nat, 8), bytes::le_bytes(b as nat, 8));
    let g = stamped(a, b);
    let (x, y) = (low[7], high[0]);
    assert(((x & 0x0F) | 0x40) & 0x0F == x & 0x0F) by (bit_vector);
    assert(((y & 0x3F) | 0x80) & 0x3F == y & 0x3F) by (bit_vector);
    assert(g.take(7).push(x) =~= low);
    assert(seq![y] + g.skip(9) =~= high);
    assert(bytes::le_value(g.take(7).push(x)) == a);
    assert(bytes::le_value(seq![y] + g.skip(9)) == b);
}

} // verus!
