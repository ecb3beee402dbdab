//! What holds of every partition table: what a reader finds on the device after the writes,
//! that the checksums are right, and that the two copies agree.

use vstd::prelude::*;

use crate::bytes;
use crate::crc;
use crate::gpt;
use crate::gpt::HeaderFields;
use crate::gpt::{GptError, GptPlan, PartSpec};

verus! {

/// The fields of a header can be read back from its bytes, and its checksum is the checksum
/// of the header with the checksum field zeroed.
#[verifier::rlimit(40)]
pub proof fn header_reads_back(f: HeaderFields)
    requires
        f.disk_guid.len() == 16,
        f.my_lba <= u64::MAX,
        f.other_lba <= u64::MAX,
        f.first_usable <= u64::MAX,
        f.last_usable <= u64::MAX,
        f.array_lba <= u64::MAX,
    ensures
        ({
            let h = gpt::header(f);
            let zeroed = h.take(16) + bytes::zeros(4) + h.skip(20);
            &&& h.len() == 92
            &&& h.take(8) == gpt::signature()
            &&& bytes::le_value(h.subrange(12, 16)) == 92
            &&& bytes::le_value(h.subrange(16, 20)) == crc::crc_value(zeroed)
            &&& bytes::le_value(h.subrange(24, 32)) == f.my_lba
            &&& bytes::le_value(h.subrange(32, 40)) == f.other_lba
            &&& bytes::le_value(h.subrange(40, 48)) == f.first_usable
            &&& bytes::le_value(h.subrange(48, 56)) == f.last_usable
            &&& h.subrange(56, 72) == f.disk_guid
            &&& bytes::le_value(h.subrange(72, 80)) == f.array_lba
            &&& bytes::le_value(h.subrange(80, 84)) == 128
            &&& bytes::le_value(h.subrange(84, 88)) == 128
            &&& bytes::le_value(h.subrange(88, 92)) == f.array_crc
        }),
{
    bytes::lemma_byte_ranges();
    let draft = gpt::header_with(f, 0);
    let check = crc::crc_value(draft);
    let h = gpt::header(f);
    bytes::le_round_trip(0x1_0000, 4);
    bytes::le_round_trip(92, 4);
    bytes::le_round_trip(check as nat, 4);
    bytes::le_round_trip(0, 4);
    bytes::le_round_trip(f.my_lba, 8);
    bytes::le_round_trip(f.other_lba, 8);
    bytes::le_round_trip(f.first_usable, 8);
    bytes::le_round_trip(f.last_usable, 8);
    bytes::le_round_trip(f.array_lba, 8);
    bytes::le_round_trip(128, 4);
    bytes::le_round_trip(f.array_crc as nat, 4);
    lemma_zero_bytes(4);
    assert(h.take(8) =~= gpt::signature());
    assert(h.subrange(12, 16) =~= bytes::le_bytes(92, 4));
    assert(h.subrange(16, 20) =~= bytes::le_bytes(check as nat, 4));
    assert(h.subrange(24, 32) =~= bytes::le_bytes(f.my_lba, 8));
    assert(h.subrange(32, 40) =~= bytes::le_bytes(f.other_lba, 8));
    assert(h.subrange(40, 48) =~= bytes::le_bytes(f.first_usable, 8));
    assert(h.subrange(48, 56) =~= bytes::le_bytes(f.last_usable, 8));
    assert(h.subrange(56, 72) =~= f.disk_guid);
    assert(h.subrange(72, 80) =~= bytes::le_bytes(f.array_lba, 8));
    assert(h.subrange(80, 84) =~= bytes::le_bytes(128, 4));
    assert(h.subrange(84, 88) =~= bytes::le_bytes(128, 4));
    assert(h.subrange(88, 92) =~= bytes::le_bytes(f.array_crc as nat, 4));
    assert(h.take(16) + bytes::zeros(4) + h.skip(20) =~= draft);
}

proof fn lemma_zero_bytes(width: nat)
    ensures
        bytes::le_bytes(0, width) =~= bytes::zeros(width),
    decreases width,
{
    if width > 0 {
        lemma_zero_bytes((width - 1) as nat);
    }
}

/// The partitions lie back to back, in order, between the two arrays, and each has the
/// number of sectors that was asked for.
pub proof fn partitions_are_contiguous(sectors: nat, first: nat, sector: nat, s: Seq<u64>, i: int)
    requires
        gpt::computable(sectors, first, sector, s),
        gpt::count_ok(s.len()),
        gpt::fits(sectors, first, sector, s),
        0 <= i < s.len(),
    ensures
        gpt::placements(first, s)[0].0 == first,
        ({
            let p = gpt::placements(first, s);
            &&& p[i].0 + s[i] == p[i].1 + 1
            &&& i + 1 < s.len() ==> p[i + 1].0 == p[i].1 + 1
            &&& gpt::first_usable(sector) <= p[i].0
            &&& p[i].1 <= gpt::last_usable(sectors, sector)
        }),
{
    gpt::lemma_total_step(s, i);
    gpt::lemma_total_prefix(s, i);
    gpt::lemma_total_prefix(s, i + 1);
    gpt::lemma_total_first(s, i + 1);
    assert(s.take(0) =~= Seq::empty());
}

proof fn lemma_entry_len(t: Seq<u8>, u: Seq<u8>, place: (u64, u64), name: Seq<char>)
    requires
        t.len() == 16,
        u.len() == 16,
    ensures
        gpt::entry(t, u, place, name).len() == 128,
{
    bytes::lemma_le_bytes_len(place.0 as nat, 8);
    bytes::lemma_le_bytes_len(place.1 as nat, 8);
    gpt::lemma_le_units_len(gpt::stored_units(name));
}

proof fn lemma_entries(
    first: nat,
    parts: Seq<PartSpec<'_>>,
    unique: Seq<[u8; 16]>,
    n: int,
    i: int,
)
    requires
        0 <= i < n <= parts.len(),
        unique.len() == parts.len(),
    ensures
        gpt::entries(first, parts, unique, n).len() == 128 * n,
        gpt::entries(first, parts, unique, n).subrange(128 * i, 128 * i + 128) == gpt::entry(
            parts[i].type_guid@,
            unique[i]@,
            gpt::placement(first, gpt::sizes(parts), i),
            parts[i].name@,
        ),
    decreases n,
{
    let before = gpt::entries(first, parts, unique, n - 1);
    let all = gpt::entries(first, parts, unique, n);
    lemma_entry_len(
        parts[n - 1].type_guid@,
        unique[n - 1]@,
        gpt::placement(first, gpt::sizes(parts), n - 1),
        parts[n - 1].name@,
    );
    if n - 1 > 0 {
        lemma_entries(first, parts, unique, n - 1, if i < n - 1 { i } else { 0 });
    }
    if i < n - 1 {
        assert(all.subrange(128 * i, 128 * i + 128) =~= before.subrange(128 * i, 128 * i + 128));
    } else {
        assert(all.subrange(128 * i, 128 * i + 128) =~= gpt::entry(
            parts[i].type_guid@,
            unique[i]@,
            gpt::placement(first, gpt::sizes(parts), i),
            parts[i].name@,
        ));
    }
}

/// The array has 128 entries of 128 bytes. The entry of each partition gives back its type,
/// its GUID, its first and last sector and its name.
pub proof fn array_reads_back(
    first: nat,
    parts: Seq<PartSpec<'_>>,
    unique: Seq<[u8; 16]>,
    i: int,
)
    requires
        0 <= i < parts.len() <= 128,
        unique.len() == parts.len(),
    ensures
        ({
            let a = gpt::array(first, parts, unique);
            let e = a.subrange(128 * i, 128 * i + 128);
            let place = gpt::placements(first, gpt::sizes(parts))[i];
            &&& a.len() == 16384
            &&& e.take(16) == parts[i].type_guid@
            &&& e.subrange(16, 32) == unique[i]@
            &&& bytes::le_value(e.subrange(32, 40)) == place.0
            &&& bytes::le_value(e.subrange(40, 48)) == place.1
            &&& e.subrange(48, 56) == bytes::zeros(8)
            &&& e.skip(56) == gpt::name_field(parts[i].name@)
        }),
{
    let a = gpt::array(first, parts, unique);
    let e = a.subrange(128 * i, 128 * i + 128);
    let place = gpt::placement(first, gpt::sizes(parts), i);
    lemma_entries(first, parts, unique, parts.len() as int, i);
    let whole = gpt::entries(first, parts, unique, parts.len() as int);
    assert(e =~= whole.subrange(128 * i, 128 * i + 128));
    bytes::lemma_byte_ranges();
    bytes::le_round_trip(place.0 as nat, 8);
    bytes::le_round_trip(place.1 as nat, 8);
    gpt::lemma_le_units_len(gpt::stored_units(parts[i].name@));
    assert(e.take(16) =~= parts[i].type_guid@);
    assert(e.subrange(16, 32) =~= unique[i]@);
    assert(e.subrange(32, 40) =~= bytes::le_bytes(place.0 as nat, 8));
    assert(e.subrange(40, 48) =~= bytes::le_bytes(place.1 as nat, 8));
    assert(e.subrange(48, 56) =~= bytes::zeros(8));
    assert(e.skip(56) =~= gpt::name_field(parts[i].name@));
}

/// After the writes, a device of the stated size holds the protective MBR in its first
/// sector, the primary header and array behind it and the backup array and header at its
/// end. Every other byte, those of the partitions among them, is as it was.
#[verifier::rlimit(60)]
pub proof fn table_reads_back(
    disk: Seq<u8>,
    sectors: nat,
    first: nat,
    sector: nat,
    parts: Seq<PartSpec<'_>>,
    unique: Seq<[u8; 16]>,
    disk_guid: [u8; 16],
)
    requires
        disk.len() == sectors * sector,
        gpt::computable(sectors, first, sector, gpt::sizes(parts)),
        gpt::count_ok(parts.len()),
        gpt::fits(sectors, first, sector, gpt::sizes(parts)),
        unique.len() == parts.len(),
    ensures
        ({
            let ws = gpt::gpt_writes(sectors, first, sector, parts, unique, disk_guid@);
            let d = bytes::after_writes(disk, ws);
            let arr = gpt::array(first, parts, unique);
            let check = crc::crc_value(arr);
            let sec = sector as int;
            let backup_arr = gpt::backup_array(sectors, sector) * sec;
            let backup_hdr = (sectors - 1) * sec;
            &&& d.len() == disk.len()
            &&& d.take(sec) == gpt::protective_mbr(sectors, sector)
            &&& d.subrange(sec, 2 * sec) == gpt::padded(
                gpt::header(gpt::primary_fields(sectors, sector, disk_guid@, check)),
                sector,
            )
            &&& d.subrange(2 * sec, 2 * sec + 16384) == arr
            &&& d.subrange(backup_arr, backup_arr + 16384) == arr
            &&& d.skip(backup_hdr) == gpt::padded(
                gpt::header(gpt::backup_fields(sectors, sector, disk_guid@, check)),
                sector,
            )
            &&& 2 * sec + 16384 <= first * sec
            &&& (first + gpt::total(gpt::sizes(parts))) * sec <= backup_arr
            &&& forall|i: int|
                2 * sec + 16384 <= i < backup_arr || backup_arr + 16384 <= i < backup_hdr
                    ==> #[trigger] d[i] == disk[i]
        }),
{
    let s = gpt::sizes(parts);
    let a = gpt::array_sectors(sector) as int;
    let sec = sector as int;
    let arr = gpt::array(first, parts, unique);
    let check = crc::crc_value(arr);
    let b = gpt::backup_array(sectors, sector);
    let backup_arr = b * sec;
    let backup_hdr = (sectors - 1) * sec;
    let mbr = gpt::protective_mbr(sectors, sector);
    let prim = gpt::header(gpt::primary_fields(sectors, sector, disk_guid@, check));
    let back = gpt::header(gpt::backup_fields(sectors, sector, disk_guid@, check));
    array_reads_back(first, parts, unique, 0);
    gpt::lemma_header_len(
        gpt::primary_fields(sectors, sector, disk_guid@, check),
        crc::crc_value(
            gpt::header_with(gpt::primary_fields(sectors, sector, disk_guid@, check), 0),
        ),
    );
    gpt::lemma_header_len(
        gpt::backup_fields(sectors, sector, disk_guid@, check),
        crc::crc_value(
            gpt::header_with(gpt::backup_fields(sectors, sector, disk_guid@, check), 0),
        ),
    );
    bytes::lemma_le_bytes_len(1, 4);
    bytes::lemma_le_bytes_len(gpt::mbr_span(sectors), 4);
    assert(mbr.len() == sector);
    let n = sectors as int;
    let f = first as int;
    let t = gpt::total(s) as int;
    assert(a * sec >= 16384) by (nonlinear_arith)
        requires
            sec >= 1,
            a == (16384 + sec - 1) / sec,
    ;
    assert(2 * sec + 16384 <= f * sec && (f + t) * sec <= b * sec && b * sec + 16384 <= (n - 1)
        * sec && (n - 1) * sec + sec == n * sec) by (nonlinear_arith)
        requires
            a * sec >= 16384,
            sec >= 1,
            2 + a <= f,
            f + t <= b,
            b + a == n - 1,
    ;
    assert(f * sec <= (f + t) * sec) by (nonlinear_arith)
        requires
            t >= 0,
            sec >= 1,
    ;
    let ws = gpt::gpt_writes(sectors, first, sector, parts, unique, disk_guid@);
    let d0 = bytes::after_write(disk, ws[0]);
    let d1 = bytes::after_write(d0, ws[1]);
    let d2 = bytes::after_write(d1, ws[2]);
    let d3 = bytes::after_write(d2, ws[3]);
    let d4 = bytes::after_write(d3, ws[4]);
    assert(bytes::after_writes(disk, ws) == d4) by {
        reveal_with_fuel(bytes::after_writes, 6);
        assert(ws.drop_last().drop_last().drop_last().drop_last().drop_last() =~= Seq::empty());
    }
    assert(d4.len() == disk.len());
    assert(d4.take(sec) =~= mbr);
    assert(d4.subrange(sec, 2 * sec) =~= gpt::padded(prim, sector));
    assert(d4.subrange(2 * sec, 2 * sec + 16384) =~= arr);
    assert(d4.subrange(backup_arr, backup_arr + 16384) =~= arr);
    assert(d4.skip(backup_hdr) =~= gpt::padded(back, sector));
}

// ---------------------------------------------------------------------------------------
// The table by position
// ---------------------------------------------------------------------------------------

/// `a` sectors are just enough for the entries of 128 partitions.
pub open spec fn holds_the_entries(a: int, sector: nat) -> bool {
    (a - 1) * sector < 16384 <= a * sector
}

/// The sector behind the first `i` partitions, which lie one behind the other from `first` on.
pub open spec fn start_of(first: nat, parts: Seq<PartSpec<'_>>, i: int) -> int
    decreases i,
{
    if i <= 0 {
        first as int
    } else {
        start_of(first, parts, i - 1) + parts[i - 1].sectors
    }
}

proof fn lemma_array_sectors(a: int, sector: nat)
    requires
        sector > 0,
        holds_the_entries(a, sector),
    ensures
        gpt::array_sectors(sector) == a,
{
    let s = sector as int;
    let r = 16384 + s - 1 - a * s;
    assert((a - 1) * s == a * s - s) by (nonlinear_arith);
    vstd::arithmetic::div_mod::lemma_fundamental_div_mod_converse(16384 + s - 1, s, a, r);
    assert(a > 0) by (nonlinear_arith)
        requires
            a * s >= 16384,
            s > 0,
    ;
}

proof fn lemma_start_of(first: nat, parts: Seq<PartSpec<'_>>, i: int)
    requires
        0 <= i <= parts.len(),
    ensures
        start_of(first, parts, i) == gpt::part_start(first, gpt::sizes(parts), i),
        i == parts.len() ==> start_of(first, parts, i) == first + gpt::total(gpt::sizes(parts)),
    decreases i,
{
    let s = gpt::sizes(parts);
    if i > 0 {
        lemma_start_of(first, parts, i - 1);
        gpt::lemma_total_step(s, i - 1);
    } else {
        assert(s.take(0) =~= Seq::<u64>::empty());
    }
    assert(s.take(s.len() as int) =~= s);
}

/// What a reader finds in the first sector: one partition of type `0xEE` that is not bootable,
/// starts at sector 1 and covers the device as far as 32 bits can say, and the boot signature at
/// the end of the first 512 bytes. Everything else is zero.
pub proof fn protective_mbr_reads_back(
    disk: Seq<u8>,
    sectors: nat,
    first: nat,
    sector: nat,
    parts: Seq<PartSpec<'_>>,
    unique: Seq<[u8; 16]>,
    disk_guid: [u8; 16],
)
    requires
        disk.len() == sectors * sector,
        gpt::computable(sectors, first, sector, gpt::sizes(parts)),
        gpt::count_ok(parts.len()),
        gpt::fits(sectors, first, sector, gpt::sizes(parts)),
        unique.len() == parts.len(),
    ensures
        ({
            let ws = gpt::gpt_writes(sectors, first, sector, parts, unique, disk_guid@);
            let d = bytes::after_writes(disk, ws);
            &&& forall|i: int| 0 <= i < 446 ==> #[trigger] d[i] == 0
            &&& d[446] == 0
            &&& d[447] == 0 && d[448] == 2 && d[449] == 0
            &&& d[450] == 0xEE
            &&& d[451] == 0xFF && d[452] == 0xFF && d[453] == 0xFF
            &&& bytes::le_value(d.subrange(454, 458)) == 1
            &&& bytes::le_value(d.subrange(458, 462)) == if sectors - 1 <= 0xFFFF_FFFF {
                sectors - 1
            } else {
                0xFFFF_FFFF
            }
            &&& forall|i: int| 462 <= i < 510 ==> #[trigger] d[i] == 0
            &&& d[510] == 0x55 && d[511] == 0xAA
            &&& forall|i: int| 512 <= i < sector ==> #[trigger] d[i] == 0
        }),
{
    table_reads_back(disk, sectors, first, sector, parts, unique, disk_guid);
    let ws = gpt::gpt_writes(sectors, first, sector, parts, unique, disk_guid@);
    let d = bytes::after_writes(disk, ws);
    let m = gpt::protective_mbr(sectors, sector);
    let sec = sector as int;
    bytes::lemma_byte_ranges();
    bytes::le_round_trip(1, 4);
    bytes::le_round_trip(gpt::mbr_span(sectors), 4);
    assert(m.len() == sector);
    assert(d.len() >= sec) by (nonlinear_arith)
        requires
            d.len() == sectors * sec,
            sectors >= 1,
            sec > 0,
    ;
    assert forall|i: int| 0 <= i < sec implies d[i] == m[i] by {
        assert(d.take(sec)[i] == m[i]);
    }
    assert(d.subrange(454, 458) =~= bytes::le_bytes(1, 4));
    assert(d.subrange(458, 462) =~= bytes::le_bytes(gpt::mbr_span(sectors), 4));
}

/// Whether a sector holds a header that stands at sector `my`, names the other one at `other`,
/// leaves the sectors from `low` to `high` for partitions, and describes the given array of
/// entries at sector `at`.
pub open spec fn is_header(
    h: Seq<u8>,
    my: int,
    other: int,
    low: int,
    high: int,
    disk_guid: Seq<u8>,
    at: int,
    entries: Seq<u8>,
) -> bool {
    let zeroed = Seq::new(
        92,
        |i: int|
            if 16 <= i < 20 {
                0u8
            } else {
                h[i]
            },
    );
    &&& h[0] == 'E' as u8 && h[1] == 'F' as u8 && h[2] == 'I' as u8 && h[3] == ' ' as u8
    &&& h[4] == 'P' as u8 && h[5] == 'A' as u8 && h[6] == 'R' as u8 && h[7] == 'T' as u8
    &&& bytes::le_value(h.subrange(8, 12)) == 0x1_0000
    &&& bytes::le_value(h.subrange(12, 16)) == 92
    &&& bytes::le_value(h.subrange(16, 20)) == crc::crc_value(zeroed)
    &&& bytes::le_value(h.subrange(20, 24)) == 0
    &&& bytes::le_value(h.subrange(24, 32)) == my
    &&& bytes::le_value(h.subrange(32, 40)) == other
    &&& bytes::le_value(h.subrange(40, 48)) == low
    &&& bytes::le_value(h.subrange(48, 56)) == high
    &&& h.subrange(56, 72) == disk_guid
    &&& bytes::le_value(h.subrange(72, 80)) == at
    &&& bytes::le_value(h.subrange(80, 84)) == 128
    &&& bytes::le_value(h.subrange(84, 88)) == 128
    &&& bytes::le_value(h.subrange(88, 92)) == crc::crc_value(entries)
    &&& forall|i: int| 92 <= i < h.len() ==> #[trigger] h[i] == 0
}

#[verifier::rlimit(40)]
proof fn lemma_is_header(f: HeaderFields, sector: nat, entries: Seq<u8>)
    requires
        sector >= 512,
        f.disk_guid.len() == 16,
        f.my_lba <= u64::MAX,
        f.other_lba <= u64::MAX,
        f.first_usable <= u64::MAX,
        f.last_usable <= u64::MAX,
        f.array_lba <= u64::MAX,
        f.array_crc == crc::crc_value(entries),
    ensures
        is_header(
            gpt::padded(gpt::header(f), sector),
            f.my_lba as int,
            f.other_lba as int,
            f.first_usable as int,
            f.last_usable as int,
            f.disk_guid,
            f.array_lba as int,
            entries,
        ),
{
    header_reads_back(f);
    let c = gpt::header(f);
    let h = gpt::padded(c, sector);
    let check = crc::crc_value(gpt::header_with(f, 0));
    bytes::lemma_byte_ranges();
    bytes::le_round_trip(0x1_0000, 4);
    bytes::le_round_trip(0, 4);
    lemma_zero_bytes(4);
    let zeroed = Seq::new(
        92,
        |i: int|
            if 16 <= i < 20 {
                0u8
            } else {
                h[i]
            },
    );
    assert(zeroed =~= c.take(16) + bytes::zeros(4) + c.skip(20));
    assert forall|i: int| 0 <= i < 8 implies h[i] == gpt::signature()[i] by {
        assert(c.take(8)[i] == gpt::signature()[i]);
    }
    gpt::lemma_header_len(f, check);
    bytes::lemma_le_bytes_len(92, 4);
    bytes::lemma_le_bytes_len(check as nat, 4);
    assert(c.subrange(8, 12) =~= bytes::le_bytes(0x1_0000, 4));
    assert(c.subrange(20, 24) =~= bytes::zeros(4));
    assert(h.subrange(8, 12) =~= c.subrange(8, 12));
    assert(h.subrange(12, 16) =~= c.subrange(12, 16));
    assert(h.subrange(16, 20) =~= c.subrange(16, 20));
    assert(h.subrange(20, 24) =~= c.subrange(20, 24));
    assert(h.subrange(24, 32) =~= c.subrange(24, 32));
    assert(h.subrange(32, 40) =~= c.subrange(32, 40));
    assert(h.subrange(40, 48) =~= c.subrange(40, 48));
    assert(h.subrange(48, 56) =~= c.subrange(48, 56));
    assert(h.subrange(56, 72) =~= c.subrange(56, 72));
    assert(h.subrange(72, 80) =~= c.subrange(72, 80));
    assert(h.subrange(80, 84) =~= c.subrange(80, 84));
    assert(h.subrange(84, 88) =~= c.subrange(84, 88));
    assert(h.subrange(88, 92) =~= c.subrange(88, 92));
}

/// What a reader finds in the second sector and in the last one: headers that name each other,
/// with the checksums of themselves and of the entries, which stand from sector 2 on and once
/// more right before the last sector. Partitions may lie anywhere between the two.
pub proof fn headers_read_back_by_position(
    disk: Seq<u8>,
    sectors: nat,
    first: nat,
    sector: nat,
    parts: Seq<PartSpec<'_>>,
    unique: Seq<[u8; 16]>,
    disk_guid: [u8; 16],
    a: int,
)
    requires
        disk.len() == sectors * sector,
        gpt::computable(sectors, first, sector, gpt::sizes(parts)),
        gpt::count_ok(parts.len()),
        gpt::fits(sectors, first, sector, gpt::sizes(parts)),
        unique.len() == parts.len(),
        holds_the_entries(a, sector),
    ensures
        ({
            let ws = gpt::gpt_writes(sectors, first, sector, parts, unique, disk_guid@);
            let d = bytes::after_writes(disk, ws);
            let sec = sector as int;
            let backup = (sectors - 1 - a) * sec;
            let (low, high) = (2 + a, sectors - 2 - a);
            let entries = d.subrange(2 * sec, 2 * sec + 16384);
            &&& is_header(
                d.subrange(sec, 2 * sec),
                1,
                sectors - 1,
                low,
                high,
                disk_guid@,
                2,
                entries,
            )
            &&& is_header(
                d.skip((sectors - 1) * sec),
                sectors - 1,
                1,
                low,
                high,
                disk_guid@,
                sectors - 1 - a,
                entries,
            )
            &&& d.subrange(backup, backup + 16384) == entries
            &&& d.len() == disk.len()
            &&& low <= first
            &&& start_of(first, parts, parts.len() as int) - 1 <= high
        }),
{
    table_reads_back(disk, sectors, first, sector, parts, unique, disk_guid);
    lemma_array_sectors(a, sector);
    lemma_start_of(first, parts, parts.len() as int);
    let arr = gpt::array(first, parts, unique);
    let check = crc::crc_value(arr);
    assert(sectors - 1 <= (sectors - 1) * sector) by (nonlinear_arith)
        requires
            sectors >= 1,
            sector >= 1,
    ;
    lemma_is_header(gpt::primary_fields(sectors, sector, disk_guid@, check), sector, arr);
    lemma_is_header(gpt::backup_fields(sectors, sector, disk_guid@, check), sector, arr);
}

/// What a reader finds among the entries: for each partition its type, its GUID, its first and
/// last sector and its name, and nothing but zeros behind the last one. The partitions lie one
/// behind the other, each as long as was asked for.
#[verifier::rlimit(40)]
pub proof fn entries_read_back_by_position(
    disk: Seq<u8>,
    sectors: nat,
    first: nat,
    sector: nat,
    parts: Seq<PartSpec<'_>>,
    unique: Seq<[u8; 16]>,
    disk_guid: [u8; 16],
    i: int,
    j: int,
)
    requires
        disk.len() == sectors * sector,
        gpt::computable(sectors, first, sector, gpt::sizes(parts)),
        gpt::count_ok(parts.len()),
        gpt::fits(sectors, first, sector, gpt::sizes(parts)),
        unique.len() == parts.len(),
        0 <= i < 128,
        0 <= j < 36,
    ensures
        ({
            let ws = gpt::gpt_writes(sectors, first, sector, parts, unique, disk_guid@);
            let d = bytes::after_writes(disk, ws);
            let at = 2 * sector + 128 * i;
            let e = d.subrange(at, at + 128);
            if i < parts.len() {
                let units = gpt::utf16(parts[i].name@);
                &&& e.subrange(0, 16) == parts[i].type_guid@
                &&& e.subrange(16, 32) == unique[i]@
                &&& bytes::le_value(e.subrange(32, 40)) == start_of(first, parts, i)
                &&& bytes::le_value(e.subrange(40, 48)) == start_of(first, parts, i)
                    + parts[i].sectors - 1
                &&& bytes::le_value(e.subrange(48, 56)) == 0
                &&& bytes::le_value(e.subrange(56 + 2 * j, 58 + 2 * j)) == if j < units.len() {
                    units[j] as nat
                } else {
                    0
                }
            } else {
                forall|k: int| 0 <= k < 128 ==> #[trigger] e[k] == 0
            }
        }),
{
    table_reads_back(disk, sectors, first, sector, parts, unique, disk_guid);
    let ws = gpt::gpt_writes(sectors, first, sector, parts, unique, disk_guid@);
    let d = bytes::after_writes(disk, ws);
    let s = gpt::sizes(parts);
    let arr = gpt::array(first, parts, unique);
    let sec = sector as int;
    let at = 2 * sec + 128 * i;
    let e = d.subrange(at, at + 128);
    assert(d.subrange(2 * sec, 2 * sec + 16384) == arr);
    assert(arr.len() == 16384) by {
        array_reads_back(first, parts, unique, 0);
    }
    let backup_hdr = (sectors - 1) * sec;
    assert(2 * sec + 16384 <= d.len()) by {
        assert((sectors - 1) * sec <= sectors * sec) by (nonlinear_arith)
            requires
                sec >= 0,
        ;
        lemma_room(sectors, first, sector, s);
    }
    assert(e =~= arr.subrange(128 * i, 128 * i + 128));
    if i < parts.len() {
        array_reads_back(first, parts, unique, i);
        partitions_are_contiguous(sectors, first, sector, s, i);
        lemma_start_of(first, parts, i);
        lemma_start_of(first, parts, i + 1);
        lemma_placed(sectors, first, sector, s, i);
        assert(e.subrange(0, 16) =~= e.take(16));
        assert(e.subrange(48, 56) =~= bytes::zeros(8));
        lemma_zero_bytes(8);
        bytes::lemma_byte_ranges();
        bytes::le_round_trip(0, 8);
        let f = gpt::name_field(parts[i].name@);
        lemma_name_unit(parts[i].name@, j);
        assert(e.subrange(56 + 2 * j, 58 + 2 * j) =~= f.subrange(2 * j, 2 * j + 2));
    } else {
        lemma_entries(first, parts, unique, parts.len() as int, 0);
        assert forall|k: int| 0 <= k < 128 implies #[trigger] e[k] == 0 by {
            assert(arr[128 * i + k] == 0);
        }
    }
}

/// A table that fits leaves room for the entries at the start of the device.
proof fn lemma_room(sectors: nat, first: nat, sector: nat, s: Seq<u64>)
    requires
        gpt::computable(sectors, first, sector, s),
        gpt::count_ok(s.len()),
        gpt::fits(sectors, first, sector, s),
    ensures
        2 * sector + 16384 <= sectors * sector,
{
    let (sec, n, a) = (sector as int, sectors as int, gpt::array_sectors(sector) as int);
    assert(a * sec >= 16384) by (nonlinear_arith)
        requires
            sec >= 1,
            a == (16384 + sec - 1) / sec,
    ;
    assert(2 * sec + 16384 <= n * sec) by (nonlinear_arith)
        requires
            a * sec >= 16384,
            2 + a <= n,
            sec >= 1,
    ;
}

/// The numbers of a placement lose nothing in 64 bits.
proof fn lemma_placed(sectors: nat, first: nat, sector: nat, s: Seq<u64>, i: int)
    requires
        gpt::computable(sectors, first, sector, s),
        gpt::count_ok(s.len()),
        0 <= i < s.len(),
    ensures
        gpt::placement(first, s, i).0 == gpt::part_start(first, s, i),
        gpt::placement(first, s, i).1 == gpt::part_start(first, s, i + 1) - 1,
{
    gpt::lemma_total_step(s, i);
    gpt::lemma_total_prefix(s, i);
    gpt::lemma_total_prefix(s, i + 1);
    gpt::lemma_total_first(s, i + 1);
}

proof fn lemma_unit(u: Seq<u16>, j: int)
    requires
        0 <= j < u.len(),
    ensures
        gpt::le_units(u).len() == 2 * u.len(),
        gpt::le_units(u).subrange(2 * j, 2 * j + 2) == bytes::le_bytes(u[j] as nat, 2),
    decreases u.len(),
{
    gpt::lemma_le_units_len(u);
    gpt::lemma_le_units_len(u.drop_last());
    bytes::lemma_le_bytes_len(u.last() as nat, 2);
    let all = gpt::le_units(u);
    let front = gpt::le_units(u.drop_last());
    if j < u.len() - 1 {
        lemma_unit(u.drop_last(), j);
        assert(all.subrange(2 * j, 2 * j + 2) =~= front.subrange(2 * j, 2 * j + 2));
    } else {
        assert(all.subrange(2 * j, 2 * j + 2) =~= bytes::le_bytes(u.last() as nat, 2));
    }
}

proof fn lemma_name_unit(name: Seq<char>, j: int)
    requires
        0 <= j < 36,
    ensures
        gpt::name_field(name).len() == 72,
        bytes::le_value(gpt::name_field(name).subrange(2 * j, 2 * j + 2)) == if j < gpt::utf16(
            name,
        ).len() {
            gpt::utf16(name)[j] as nat
        } else {
            0
        },
{
    let u = gpt::stored_units(name);
    let f = gpt::name_field(name);
    gpt::lemma_le_units_len(u);
    bytes::lemma_byte_ranges();
    if j < u.len() {
        lemma_unit(u, j);
        bytes::le_round_trip(u[j] as nat, 2);
        assert(f.subrange(2 * j, 2 * j + 2) =~= gpt::le_units(u).subrange(2 * j, 2 * j + 2));
    } else {
        lemma_zero_bytes(2);
        bytes::le_round_trip(0, 2);
        assert(f.subrange(2 * j, 2 * j + 2) =~= bytes::zeros(2));
    }
}

/// A name is stored character by character: one unit of that number for each character of the
/// basic plane, two surrogates that make up its number for every other one.
pub proof fn names_are_stored_in_utf16(s: Seq<char>, c: char)
    ensures
        gpt::utf16(Seq::empty()) == Seq::<u16>::empty(),
        ({
            let (before, now) = (gpt::utf16(s), gpt::utf16(s.push(c)));
            let n = before.len() as int;
            &&& now.take(n) == before
            &&& if c as u32 <= 0xFFFF {
                now.len() == n + 1 && now[n] == c as u32
            } else {
                &&& now.len() == n + 2
                &&& 0xD800 <= now[n] <= 0xDBFF
                &&& 0xDC00 <= now[n + 1] <= 0xDFFF
                &&& c as u32 == 0x1_0000 + (now[n] - 0xD800) * 0x400 + (now[n + 1] - 0xDC00)
            }
        }),
{
    assert(s.push(c).drop_last() =~= s);
    let (before, now) = (gpt::utf16(s), gpt::utf16(s.push(c)));
    assert(now.take(before.len() as int) =~= before);
}

/// A table is refused exactly where there is no partition or more than 128 of them, or where
/// they do not lie between the two arrays; where they do, each partition starts where the one
/// before it ends.
pub proof fn tables_are_refused_where_they_do_not_fit(
    r: Result<GptPlan, GptError>,
    sectors: nat,
    first: nat,
    sector: nat,
    parts: Seq<PartSpec<'_>>,
    unique: Seq<[u8; 16]>,
    disk_guid: Seq<u8>,
    a: int,
)
    requires
        gpt::computable(sectors, first, sector, gpt::sizes(parts)),
        gpt::gpt_result(r, sectors, first, sector, parts, unique, disk_guid),
        parts.len() <= usize::MAX,
        first <= u64::MAX,
        sectors <= u64::MAX,
        holds_the_entries(a, sector),
    ensures
        ({
            let n = parts.len() as int;
            let end = start_of(first, parts, n) - 1;
            match r {
                Ok(plan) => {
                    &&& 1 <= n <= 128
                    &&& 2 + a <= first
                    &&& end <= sectors - 2 - a
                    &&& plan.placements@.len() == n
                    &&& forall|i: int|
                        0 <= i < n ==> (#[trigger] plan.placements@[i]).0 == start_of(
                            first,
                            parts,
                            i,
                        ) && plan.placements@[i].1 == start_of(first, parts, i)
                            + parts[i].sectors - 1
                    &&& plan.writes@.len() == 5
                },
                Err(GptError::PartitionCount { requested }) => requested == n && (n < 1 || n
                    > 128),
                Err(GptError::DoesNotFit { first_start, last_end, first_usable, last_usable }) => {
                    &&& 1 <= n <= 128
                    &&& 2 + a > first || end > sectors - 2 - a
                    &&& first_start == first
                    &&& last_end == end
                    &&& first_usable == 2 + a
                    &&& last_usable == sectors - 2 - a
                },
            }
        }),
{
    let s = gpt::sizes(parts);
    let n = parts.len() as int;
    lemma_array_sectors(a, sector);
    lemma_start_of(first, parts, n);
    if 1 <= n <= 128 {
        gpt::lemma_total_first(s, n);
        assert(s.take(n) =~= s);
    }
    if let Ok(plan) = r {
        assert forall|i: int| 0 <= i < n implies (#[trigger] plan.placements@[i]).0 == start_of(
            first,
            parts,
            i,
        ) && plan.placements@[i].1 == start_of(first, parts, i) + parts[i].sectors - 1 by {
            lemma_start_of(first, parts, i);
            lemma_start_of(first, parts, i + 1);
            lemma_placed(sectors, first, sector, s, i);
        }
        assert(bytes::write_views(plan.writes@).len() == plan.writes@.len());
    }
}

} // verus!
