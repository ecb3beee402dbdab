//! GUID partition tables: the protective MBR, both headers and both entry arrays, for
//! devices of any sector size, as the list of writes that puts them on a device.

use vstd::prelude::*;

use crate::bytes;
use crate::bytes::DiskWrite;
use crate::crc;
use crate::guid;
use crate::numbers;

verus! {

/// Entries in the partition array.
pub const ENTRY_COUNT: u64 = 128;

/// Bytes of one entry.
pub const ENTRY_SIZE: u64 = 128;

/// Bytes of the whole array.
pub const ARRAY_BYTES: u64 = 16384;

/// Bytes of a header.
pub const HEADER_BYTES: u64 = 92;

/// One partition to lay out.
pub struct PartSpec<'a> {
    pub name: &'a str,
    pub type_guid: [u8; 16],
    pub sectors: u64,
}

/// A partition table, ready to be written.
pub struct GptPlan {
    /// First and last sector of each partition.
    pub placements: Vec<(u64, u64)>,
    /// What to write, in order.
    pub writes: Vec<DiskWrite>,
}

#[derive(Debug, Clone, Copy, PartialEq, Eq, Structural)]
pub enum GptError {
    PartitionCount { requested: usize },
    DoesNotFit { first_start: u64, last_end: u64, first_usable: u64, last_usable: u64 },
}

// ---------------------------------------------------------------------------------------
// Layout
// ---------------------------------------------------------------------------------------

pub open spec fn sizes(parts: Seq<PartSpec<'_>>) -> Seq<u64> {
    parts.map_values(|p: PartSpec<'_>| p.sectors)
}

pub open spec fn total(s: Seq<u64>) -> nat
    decreases s.len(),
{
    if s.len() == 0 {
        0
    } else {
        total(s.drop_last()) + s.last() as nat
    }
}

/// Sectors that the entry array takes on a device with sectors of `sector` bytes.
pub open spec fn array_sectors(sector: nat) -> nat {
    ((ARRAY_BYTES + sector - 1) / (sector as int)) as nat
}

/// The sector after the first `i` partitions, laid out back to back from `first` on.
pub open spec fn part_start(first: nat, s: Seq<u64>, i: int) -> nat {
    first + total(s.take(i))
}

pub open spec fn placement(first: nat, s: Seq<u64>, i: int) -> (u64, u64) {
    (part_start(first, s, i) as u64, (part_start(first, s, i + 1) - 1) as u64)
}

pub open spec fn placements(first: nat, s: Seq<u64>) -> Seq<(u64, u64)> {
    Seq::new(s.len(), |i: int| placement(first, s, i))
}

/// The first sector behind the primary array.
pub open spec fn first_usable(sector: nat) -> nat {
    2 + array_sectors(sector)
}

/// The sector where the backup array starts.
pub open spec fn backup_array(sectors: nat, sector: nat) -> int {
    sectors - 1 - array_sectors(sector)
}

/// The last sector before the backup array.
pub open spec fn last_usable(sectors: nat, sector: nat) -> int {
    backup_array(sectors, sector) - 1
}

pub open spec fn count_ok(n: nat) -> bool {
    1 <= n <= ENTRY_COUNT
}

/// Whether the partitions lie between the two arrays.
pub open spec fn fits(sectors: nat, first: nat, sector: nat, s: Seq<u64>) -> bool {
    first_usable(sector) <= first && first + total(s) - 1 <= last_usable(sectors, sector)
}

/// The numbers that the layout is computed from stay within 64 bits: the device is large
/// enough to hold both arrays, no partition end lies before sector 0 or behind the last
/// sector number, and a table that fits has sectors with room for a protective MBR.
pub open spec fn computable(sectors: nat, first: nat, sector: nat, s: Seq<u64>) -> bool {
    &&& 1 <= sector <= u64::MAX - ARRAY_BYTES
    &&& count_ok(s.len()) ==> {
        &&& last_usable(sectors, sector) >= 0
        &&& first + s[0] >= 1
        &&& first + total(s) <= u64::MAX
        &&& fits(sectors, first, sector, s) ==> {
            &&& 512 <= sector <= usize::MAX
            &&& (sectors - 1) * sector <= u64::MAX
        }
    }
}

// ---------------------------------------------------------------------------------------
// What stands on the disk
// ---------------------------------------------------------------------------------------

/// The UTF-16 code units of one character.
pub open spec fn utf16_units(c: char) -> Seq<u16> {
    let u = c as u32;
    if u < 0x1_0000 {
        seq![u as u16]
    } else {
        seq![(0xD800 + (u - 0x1_0000) / 0x400) as u16, (0xDC00 + (u - 0x1_0000) % 0x400) as u16]
    }
}

pub open spec fn utf16(s: Seq<char>) -> Seq<u16>
    decreases s.len(),
{
    if s.len() == 0 {
        Seq::empty()
    } else {
        utf16(s.drop_last()) + utf16_units(s.last())
    }
}

pub open spec fn le_units(u: Seq<u16>) -> Seq<u8>
    decreases u.len(),
{
    if u.len() == 0 {
        Seq::empty()
    } else {
        le_units(u.drop_last()) + bytes::le_bytes(u.last() as nat, 2)
    }
}

/// The first 36 code units of a name.
pub open spec fn stored_units(name: Seq<char>) -> Seq<u16> {
    let u = utf16(name);
    if u.len() > 36 {
        u.take(36)
    } else {
        u
    }
}

/// The name field of an entry: 36 code units, the unused ones zero.
pub open spec fn name_field(name: Seq<char>) -> Seq<u8> {
    let u = stored_units(name);
    le_units(u) + bytes::zeros((72 - 2 * u.len()) as nat)
}

/// One entry of the partition array.
pub open spec fn entry(
    type_guid: Seq<u8>,
    unique: Seq<u8>,
    place: (u64, u64),
    name: Seq<char>,
) -> Seq<u8> {
    type_guid + unique + bytes::le_bytes(place.0 as nat, 8) + bytes::le_bytes(place.1 as nat, 8)
        + bytes::zeros(8) + name_field(name)
}

/// The entries of the first `n` partitions.
pub open spec fn entries(
    first: nat,
    parts: Seq<PartSpec<'_>>,
    unique: Seq<[u8; 16]>,
    n: int,
) -> Seq<u8>
    decreases n,
{
    if n <= 0 {
        Seq::empty()
    } else {
        entries(first, parts, unique, n - 1) + entry(
            parts[n - 1].type_guid@,
            unique[n - 1]@,
            placement(first, sizes(parts), n - 1),
            parts[n - 1].name@,
        )
    }
}

/// The whole partition array: the entries, then zeros.
pub open spec fn array(first: nat, parts: Seq<PartSpec<'_>>, unique: Seq<[u8; 16]>) -> Seq<u8> {
    entries(first, parts, unique, parts.len() as int) + bytes::zeros(
        (ARRAY_BYTES - ENTRY_SIZE * parts.len()) as nat,
    )
}

/// What a header says besides its own checksum.
pub struct HeaderFields {
    pub my_lba: nat,
    pub other_lba: nat,
    pub first_usable: nat,
    pub last_usable: nat,
    pub disk_guid: Seq<u8>,
    pub array_lba: nat,
    pub array_crc: u32,
}

/// `EFI PART`.
pub open spec fn signature() -> Seq<u8> {
    seq![0x45u8, 0x46, 0x49, 0x20, 0x50, 0x41, 0x52, 0x54]
}

/// The bytes of a header whose checksum field holds `check`.
pub open spec fn header_with(f: HeaderFields, check: u32) -> Seq<u8> {
    signature() + bytes::le_bytes(0x1_0000, 4) + bytes::le_bytes(HEADER_BYTES as nat, 4)
        + bytes::le_bytes(check as nat, 4) + bytes::zeros(4) + bytes::le_bytes(f.my_lba, 8)
        + bytes::le_bytes(f.other_lba, 8) + bytes::le_bytes(f.first_usable, 8)
        + bytes::le_bytes(f.last_usable, 8) + f.disk_guid + bytes::le_bytes(f.array_lba, 8)
        + bytes::le_bytes(ENTRY_COUNT as nat, 4) + bytes::le_bytes(ENTRY_SIZE as nat, 4)
        + bytes::le_bytes(f.array_crc as nat, 4)
}

/// A header. Its checksum is taken with the checksum field zero.
pub open spec fn header(f: HeaderFields) -> Seq<u8> {
    header_with(f, crc::crc_value(header_with(f, 0)))
}

/// `b`, filled up with zeros to a whole sector.
pub open spec fn padded(b: Seq<u8>, sector: nat) -> Seq<u8> {
    b + bytes::zeros((sector - b.len()) as nat)
}

/// The size that the protective MBR gives to its one partition.
pub open spec fn mbr_span(sectors: nat) -> nat {
    if sectors - 1 <= u32::MAX {
        (sectors - 1) as nat
    } else {
        u32::MAX as nat
    }
}

/// The protective MBR: one partition of type `0xEE` from sector 1 on, not bootable, and the
/// boot signature at the end of the first 512 bytes, whatever the sector size.
pub open spec fn protective_mbr(sectors: nat, sector: nat) -> Seq<u8> {
    bytes::zeros(446) + seq![0u8, 0, 2, 0, 0xEE, 0xFF, 0xFF, 0xFF] + bytes::le_bytes(1, 4)
        + bytes::le_bytes(mbr_span(sectors), 4) + bytes::zeros(48) + seq![0x55u8, 0xAA]
        + bytes::zeros((sector - 512) as nat)
}

pub open spec fn primary_fields(
    sectors: nat,
    sector: nat,
    disk_guid: Seq<u8>,
    array_crc: u32,
) -> HeaderFields {
    HeaderFields {
        my_lba: 1,
        other_lba: (sectors - 1) as nat,
        first_usable: first_usable(sector),
        last_usable: last_usable(sectors, sector) as nat,
        disk_guid,
        array_lba: 2,
        array_crc,
    }
}

pub open spec fn backup_fields(
    sectors: nat,
    sector: nat,
    disk_guid: Seq<u8>,
    array_crc: u32,
) -> HeaderFields {
    HeaderFields {
        my_lba: (sectors - 1) as nat,
        other_lba: 1,
        first_usable: first_usable(sector),
        last_usable: last_usable(sectors, sector) as nat,
        disk_guid,
        array_lba: backup_array(sectors, sector) as nat,
        array_crc,
    }
}

/// The writes that put the table on a device of `sectors` sectors of `sector` bytes.
pub open spec fn gpt_writes(
    sectors: nat,
    first: nat,
    sector: nat,
    parts: Seq<PartSpec<'_>>,
    unique: Seq<[u8; 16]>,
    disk_guid: Seq<u8>,
) -> Seq<(nat, Seq<u8>)> {
    let arr = array(first, parts, unique);
    let check = crc::crc_value(arr);
    seq![
        (0nat, protective_mbr(sectors, sector)),
        (sector, padded(header(primary_fields(sectors, sector, disk_guid, check)), sector)),
        (2 * sector, arr),
        ((backup_array(sectors, sector) * sector) as nat, arr),
        (
            ((sectors - 1) * sector) as nat,
            padded(header(backup_fields(sectors, sector, disk_guid, check)), sector),
        ),
    ]
}

// ---------------------------------------------------------------------------------------
// Building it
// ---------------------------------------------------------------------------------------

pub proof fn lemma_total_step(s: Seq<u64>, i: int)
    requires
        0 <= i < s.len(),
    ensures
        total(s.take(i + 1)) == total(s.take(i)) + s[i],
{
    assert(s.take(i + 1).drop_last() =~= s.take(i));
}

pub proof fn lemma_total_prefix(s: Seq<u64>, i: int)
    requires
        0 <= i <= s.len(),
    ensures
        total(s.take(i)) <= total(s),
    decreases s.len() - i,
{
    if i < s.len() {
        lemma_total_prefix(s, i + 1);
        lemma_total_step(s, i);
    } else {
        assert(s.take(i) =~= s);
    }
}

pub proof fn lemma_total_first(s: Seq<u64>, i: int)
    requires
        1 <= i <= s.len(),
    ensures
        s[0] <= total(s.take(i)),
    decreases i,
{
    lemma_total_step(s, i - 1);
    if i > 1 {
        lemma_total_first(s, i - 1);
    }
}

/// Sectors that the entry array takes.
pub fn entry_array_sectors(sector: u64) -> (n: u64)
    requires
        1 <= sector <= u64::MAX - ARRAY_BYTES,
    ensures
        n == array_sectors(sector as nat),
        1 <= n <= ARRAY_BYTES,
        n * sector >= ARRAY_BYTES,
{
    let n: u64 = (ARRAY_BYTES + sector - 1) / sector;
    assert(n * sector >= ARRAY_BYTES && 1 <= n <= ARRAY_BYTES) by (nonlinear_arith)
        requires
            sector >= 1,
            n == (ARRAY_BYTES + sector - 1) / (sector as int),
            ARRAY_BYTES == 16384,
    ;
    n
}

/// Lays the partitions out back to back from `first_lba` on: first and last sector of each.
pub fn place_partitions(first_lba: u64, parts: &[PartSpec<'_>]) -> (r: Vec<(u64, u64)>)
    requires
        parts@.len() > 0,
        first_lba + parts@[0].sectors >= 1,
        first_lba + total(sizes(parts@)) <= u64::MAX,
    ensures
        r@ == placements(first_lba as nat, sizes(parts@)),
{
    let ghost s = sizes(parts@);
    let mut r: Vec<(u64, u64)> = Vec::new();
    let mut cursor: u64 = first_lba;
    assert(s.take(0) =~= Seq::empty());
    for i in 0..parts.len()
        invariant
            s == sizes(parts@),
            s.len() == parts@.len(),
            parts@.len() > 0,
            first_lba + s[0] >= 1,
            first_lba + total(s) <= u64::MAX,
            cursor == part_start(first_lba as nat, s, i as int),
            r@ == placements(first_lba as nat, s).take(i as int),
    {
        proof {
            lemma_total_step(s, i as int);
            lemma_total_prefix(s, i + 1);
            lemma_total_first(s, i + 1);
        }
        let next: u64 = cursor + parts[i].sectors;
        r.push((cursor, next - 1));
        cursor = next;
        assert(r@ =~= placements(first_lba as nat, s).take(i + 1));
    }
    assert(placements(first_lba as nat, s).take(s.len() as int) =~= placements(
        first_lba as nat,
        s,
    ));
    r
}

fn push_units(out: &mut Vec<u16>, c: char)
    ensures
        final(out)@ == old(out)@ + utf16_units(c),
{
    let u: u32 = c as u32;
    if u < 0x1_0000 {
        out.push(u as u16);
    } else {
        let v: u32 = u - 0x1_0000;
        out.push((0xD800 + v / 0x400) as u16);
        out.push((0xDC00 + v % 0x400) as u16);
    }
    assert(out@ =~= old(out)@ + utf16_units(c));
}

pub proof fn lemma_le_units_len(u: Seq<u16>)
    ensures
        le_units(u).len() == 2 * u.len(),
    decreases u.len(),
{
    if u.len() > 0 {
        lemma_le_units_len(u.drop_last());
        bytes::lemma_le_bytes_len(u.last() as nat, 2);
    }
}

/// Appends the name field of an entry.
fn push_name(out: &mut Vec<u8>, name: &str)
    ensures
        final(out)@ == old(out)@ + name_field(name@),
        name_field(name@).len() == 72,
{
    let mut units: Vec<u16> = Vec::new();
    for c in it: name.chars()
        invariant
            units@ == utf16(name@.take(it.index())),
            it.seq() == name@,
    {
        push_units(&mut units, c);
        assert(name@.take(it.index() + 1).drop_last() =~= name@.take(it.index()));
    }
    assert(name@.take(name@.len() as int) =~= name@);
    let ghost stored = stored_units(name@);
    let count: usize = if units.len() > 36 {
        36
    } else {
        units.len()
    };
    let ghost before = out@;
    assert(before + le_units(Seq::empty()) =~= before);
    for i in 0..count
        invariant
            count == stored.len(),
            count <= units@.len(),
            stored == units@.take(count as int),
            out@ == before + le_units(stored.take(i as int)),
    {
        bytes::push_le(out, units[i] as u64, 2);
        assert(stored.take(i + 1).drop_last() =~= stored.take(i as int));
        assert(out@ =~= before + le_units(stored.take(i + 1)));
    }
    assert(stored.take(count as int) =~= stored);
    bytes::push_zeros(out, 72 - 2 * count);
    proof {
        lemma_le_units_len(stored);
        assert(out@ =~= before + name_field(name@));
    }
}

fn push_entry(
    out: &mut Vec<u8>,
    type_guid: &[u8; 16],
    unique: &[u8; 16],
    place: (u64, u64),
    name: &str,
)
    ensures
        final(out)@ == old(out)@ + entry(type_guid@, unique@, place, name@),
        entry(type_guid@, unique@, place, name@).len() == ENTRY_SIZE,
{
    let ghost before = out@;
    bytes::push_all(out, type_guid.as_slice());
    bytes::push_all(out, unique.as_slice());
    bytes::push_le(out, place.0, 8);
    bytes::push_le(out, place.1, 8);
    bytes::push_zeros(out, 8);
    push_name(out, name);
    proof {
        bytes::lemma_le_bytes_len(place.0 as nat, 8);
        bytes::lemma_le_bytes_len(place.1 as nat, 8);
        assert(out@ =~= before + entry(type_guid@, unique@, place, name@));
    }
}

/// The partition array.
fn build_array(
    first_lba: u64,
    parts: &[PartSpec<'_>],
    places: &Vec<(u64, u64)>,
    unique: &Vec<[u8; 16]>,
) -> (r: Vec<u8>)
    requires
        parts@.len() <= ENTRY_COUNT,
        places@ == placements(first_lba as nat, sizes(parts@)),
        unique@.len() == parts@.len(),
    ensures
        r@ == array(first_lba as nat, parts@, unique@),
        r@.len() == ARRAY_BYTES,
{
    let mut r: Vec<u8> = Vec::new();
    for i in 0..parts.len()
        invariant
            parts@.len() <= ENTRY_COUNT,
            places@ == placements(first_lba as nat, sizes(parts@)),
            unique@.len() == parts@.len(),
            r@ == entries(first_lba as nat, parts@, unique@, i as int),
            r@.len() == ENTRY_SIZE * i,
    {
        push_entry(&mut r, &parts[i].type_guid, &unique[i], places[i], parts[i].name);
    }
    let used: usize = r.len();
    bytes::push_zeros(&mut r, ARRAY_BYTES as usize - used);
    r
}

fn push_header(
    out: &mut Vec<u8>,
    my_lba: u64,
    other_lba: u64,
    usable: (u64, u64),
    disk_guid: &[u8; 16],
    array_lba: u64,
    array_crc: u32,
    check: u32,
)
    ensures
        final(out)@ == old(out)@ + header_with(
            (HeaderFields {
                my_lba: my_lba as nat,
                other_lba: other_lba as nat,
                first_usable: usable.0 as nat,
                last_usable: usable.1 as nat,
                disk_guid: disk_guid@,
                array_lba: array_lba as nat,
                array_crc,
            }),
            check,
        ),
{
    let ghost before = out@;
    let sig: [u8; 8] = [0x45, 0x46, 0x49, 0x20, 0x50, 0x41, 0x52, 0x54];
    assert(sig@ =~= signature());
    bytes::push_all(out, sig.as_slice());
    bytes::push_le(out, 0x1_0000, 4);
    bytes::push_le(out, HEADER_BYTES, 4);
    bytes::push_le(out, check as u64, 4);
    bytes::push_zeros(out, 4);
    bytes::push_le(out, my_lba, 8);
    bytes::push_le(out, other_lba, 8);
    bytes::push_le(out, usable.0, 8);
    bytes::push_le(out, usable.1, 8);
    bytes::push_all(out, disk_guid.as_slice());
    bytes::push_le(out, array_lba, 8);
    bytes::push_le(out, ENTRY_COUNT, 4);
    bytes::push_le(out, ENTRY_SIZE, 4);
    bytes::push_le(out, array_crc as u64, 4);
    let ghost f = HeaderFields {
        my_lba: my_lba as nat,
        other_lba: other_lba as nat,
        first_usable: usable.0 as nat,
        last_usable: usable.1 as nat,
        disk_guid: disk_guid@,
        array_lba: array_lba as nat,
        array_crc,
    };
    assert(out@ =~= before + header_with(f, check));
}

/// A header, filled up to a whole sector.
fn build_header(
    my_lba: u64,
    other_lba: u64,
    usable: (u64, u64),
    disk_guid: &[u8; 16],
    array_lba: u64,
    array_crc: u32,
) -> (r: Vec<u8>)
    ensures
        r@ == header(
            (HeaderFields {
                my_lba: my_lba as nat,
                other_lba: other_lba as nat,
                first_usable: usable.0 as nat,
                last_usable: usable.1 as nat,
                disk_guid: disk_guid@,
                array_lba: array_lba as nat,
                array_crc,
            }),
        ),
        r@.len() == HEADER_BYTES,
{
    let mut draft: Vec<u8> = Vec::new();
    push_header(&mut draft, my_lba, other_lba, usable, disk_guid, array_lba, array_crc, 0);
    let ghost f = HeaderFields {
        my_lba: my_lba as nat,
        other_lba: other_lba as nat,
        first_usable: usable.0 as nat,
        last_usable: usable.1 as nat,
        disk_guid: disk_guid@,
        array_lba: array_lba as nat,
        array_crc,
    };
    assert(draft@ =~= header_with(f, 0));
    let check = crc::crc32(&draft);
    let mut r: Vec<u8> = Vec::new();
    push_header(&mut r, my_lba, other_lba, usable, disk_guid, array_lba, array_crc, check);
    assert(r@ =~= header(f));
    proof {
        lemma_header_len(f, check);
    }
    r
}

pub proof fn lemma_header_len(f: HeaderFields, check: u32)
    requires
        f.disk_guid.len() == 16,
    ensures
        header_with(f, check).len() == HEADER_BYTES,
{
    bytes::lemma_le_bytes_len(0x1_0000, 4);
    bytes::lemma_le_bytes_len(HEADER_BYTES as nat, 4);
    bytes::lemma_le_bytes_len(check as nat, 4);
    bytes::lemma_le_bytes_len(f.my_lba, 8);
    bytes::lemma_le_bytes_len(f.other_lba, 8);
    bytes::lemma_le_bytes_len(f.first_usable, 8);
    bytes::lemma_le_bytes_len(f.last_usable, 8);
    bytes::lemma_le_bytes_len(f.array_lba, 8);
    bytes::lemma_le_bytes_len(ENTRY_COUNT as nat, 4);
    bytes::lemma_le_bytes_len(ENTRY_SIZE as nat, 4);
    bytes::lemma_le_bytes_len(f.array_crc as nat, 4);
}

/// `header`, filled up with zeros to a whole sector.
pub fn pad_sector(header: &[u8], sector: u64) -> (r: Vec<u8>)
    requires
        header@.len() <= sector <= usize::MAX,
    ensures
        r@ == padded(header@, sector as nat),
{
    let mut r: Vec<u8> = Vec::new();
    bytes::push_all(&mut r, header);
    bytes::push_zeros(&mut r, sector as usize - header.len());
    assert(r@ =~= padded(header@, sector as nat));
    r
}

fn build_mbr(total_sectors: u64, sector: u64) -> (r: Vec<u8>)
    requires
        total_sectors >= 1,
        512 <= sector <= usize::MAX,
    ensures
        r@ == protective_mbr(total_sectors as nat, sector as nat),
{
    let mut r: Vec<u8> = Vec::new();
    bytes::push_zeros(&mut r, 446);
    let part: [u8; 8] = [0, 0, 2, 0, 0xEE, 0xFF, 0xFF, 0xFF];
    assert(part@ =~= seq![0u8, 0, 2, 0, 0xEE, 0xFF, 0xFF, 0xFF]);
    bytes::push_all(&mut r, part.as_slice());
    bytes::push_le(&mut r, 1, 4);
    let span: u64 = if total_sectors - 1 <= u32::MAX as u64 {
        total_sectors - 1
    } else {
        u32::MAX as u64
    };
    bytes::push_le(&mut r, span, 4);
    bytes::push_zeros(&mut r, 48);
    let boot: [u8; 2] = [0x55, 0xAA];
    assert(boot@ =~= seq![0x55u8, 0xAA]);
    bytes::push_all(&mut r, boot.as_slice());
    bytes::push_zeros(&mut r, sector as usize - 512);
    assert(r@ =~= protective_mbr(total_sectors as nat, sector as nat));
    r
}

/// Whether a result is the one owed for these inputs and GUIDs: the table if the number of
/// partitions is allowed and they fit, else what is wrong, the number being looked at first.
pub open spec fn gpt_result(
    r: Result<GptPlan, GptError>,
    sectors: nat,
    first: nat,
    sector: nat,
    parts: Seq<PartSpec<'_>>,
    unique: Seq<[u8; 16]>,
    disk_guid: Seq<u8>,
) -> bool {
    let s = sizes(parts);
    if !count_ok(s.len()) {
        r == Err::<GptPlan, GptError>(GptError::PartitionCount { requested: s.len() as usize })
    } else if !fits(sectors, first, sector, s) {
        r == Err::<GptPlan, GptError>(
            GptError::DoesNotFit {
                first_start: first as u64,
                last_end: (first + total(s) - 1) as u64,
                first_usable: first_usable(sector) as u64,
                last_usable: last_usable(sectors, sector) as u64,
            },
        )
    } else {
        match r {
            Ok(plan) => {
                &&& plan.placements@ == placements(first, s)
                &&& bytes::write_views(plan.writes@) == gpt_writes(
                    sectors,
                    first,
                    sector,
                    parts,
                    unique,
                    disk_guid,
                )
            },
            Err(_) => false,
        }
    }
}

/// The table for a device of `total_sectors` sectors of `sector` bytes, with the given
/// partitions from `first_lba` on and the given GUIDs.
pub fn plan_gpt(
    total_sectors: u64,
    first_lba: u64,
    sector: u64,
    parts: &[PartSpec<'_>],
    unique: &Vec<[u8; 16]>,
    disk_guid: &[u8; 16],
) -> (r: Result<GptPlan, GptError>)
    requires
        computable(total_sectors as nat, first_lba as nat, sector as nat, sizes(parts@)),
        unique@.len() == parts@.len(),
    ensures
        gpt_result(
            r,
            total_sectors as nat,
            first_lba as nat,
            sector as nat,
            parts@,
            unique@,
            disk_guid@,
        ),
{
    let ghost s = sizes(parts@);
    let arr_sectors: u64 = entry_array_sectors(sector);
    let n: usize = parts.len();
    assert(s.len() == n);
    if n == 0 || n > ENTRY_COUNT as usize {
        return Err(GptError::PartitionCount { requested: n });
    }
    let last_lba: u64 = total_sectors - 1;
    let backup_arr: u64 = last_lba - arr_sectors;
    let usable: (u64, u64) = (2 + arr_sectors, backup_arr - 1);
    let places = place_partitions(first_lba, parts);
    proof {
        assert(s.take(0) =~= Seq::empty());
        assert(s.take(n as int) =~= s);
        lemma_total_first(s, n as int);
    }
    let first_start: u64 = places[0].0;
    let last_end: u64 = places[n - 1].1;
    if first_start < usable.0 || last_end > usable.1 {
        return Err(
            GptError::DoesNotFit {
                first_start,
                last_end,
                first_usable: usable.0,
                last_usable: usable.1,
            },
        );
    }
    let arr = build_array(first_lba, parts, &places, unique);
    let arr_crc = crc::crc32(&arr);
    let primary = build_header(1, last_lba, usable, disk_guid, 2, arr_crc);
    let backup = build_header(last_lba, 1, usable, disk_guid, backup_arr, arr_crc);
    let mbr = build_mbr(total_sectors, sector);
    let arr_again = arr.clone();
    assert(arr_again@ =~= arr@);
    proof {
        assert(2 * sector <= last_lba * sector && backup_arr * sector <= last_lba * sector)
            by (nonlinear_arith)
            requires
                2 <= last_lba,
                backup_arr <= last_lba,
                sector >= 0,
        ;
        assert(1 * sector <= last_lba * sector) by (nonlinear_arith)
            requires
                1 <= last_lba,
                sector >= 0,
        ;
    }
    let mut writes: Vec<DiskWrite> = Vec::new();
    writes.push(DiskWrite { offset: 0, bytes: mbr });
    writes.push(DiskWrite { offset: sector, bytes: pad_sector(&primary, sector) });
    writes.push(DiskWrite { offset: 2 * sector, bytes: arr });
    writes.push(DiskWrite { offset: backup_arr * sector, bytes: arr_again });
    writes.push(DiskWrite { offset: last_lba * sector, bytes: pad_sector(&backup, sector) });
    assert(bytes::write_views(writes@) =~= gpt_writes(
        total_sectors as nat,
        first_lba as nat,
        sector as nat,
        parts@,
        unique@,
        disk_guid@,
    ));
    Ok(GptPlan { placements: places, writes })
}

/// The same table with fresh random GUIDs for the disk and every partition.
pub fn write_gpt(
    total_sectors: u64,
    first_lba: u64,
    sector: u64,
    parts: &[PartSpec<'_>],
) -> (r: Result<GptPlan, GptError>)
    requires
        computable(total_sectors as nat, first_lba as nat, sector as nat, sizes(parts@)),
    ensures
        exists|unique: Seq<[u8; 16]>, disk_guid: [u8; 16]|
            {
                &&& unique.len() == parts@.len()
                &&& forall|i: int|
                    0 <= i < unique.len() ==> guid::is_random_guid(#[trigger] unique[i]@)
                &&& guid::is_random_guid(disk_guid@)
                &&& #[trigger] gpt_result(
                    r,
                    total_sectors as nat,
                    first_lba as nat,
                    sector as nat,
                    parts@,
                    unique,
                    disk_guid@,
                )
            },
{
    let mut unique: Vec<[u8; 16]> = Vec::new();
    for i in 0..parts.len()
        invariant
            unique@.len() == i,
            forall|k: int| 0 <= k < i ==> guid::is_random_guid(#[trigger] unique@[k]@),
    {
        unique.push(guid::random_guid());
    }
    let disk_guid = guid::random_guid();
    plan_gpt(total_sectors, first_lba, sector, parts, &unique, &disk_guid)
}

impl GptError {
    pub open spec fn text(self) -> Seq<char> {
        match self {
            GptError::PartitionCount { requested } => "Fatal: write_gpt: "@ + numbers::decimal(
                requested as nat,
            ) + " partitions requested, expected 1..="@ + numbers::decimal(ENTRY_COUNT as nat),
            GptError::DoesNotFit { first_start, last_end, first_usable, last_usable } =>
                "Fatal: Partition layout ["@ + numbers::decimal(first_start as nat) + ", "@
                    + numbers::decimal(last_end as nat)
                    + "] does not fit inside usable GPT range ["@ + numbers::decimal(
                    first_usable as nat,
                ) + ", "@ + numbers::decimal(last_usable as nat) + "]"@,
        }
    }

    pub fn message(&self) -> (r: String)
        ensures
            r@ == self.text(),
    {
        let mut m = String::new();
        match self {
            GptError::PartitionCount { requested } => {
                m.append("Fatal: write_gpt: ");
                m.append(numbers::decimal_text(*requested as u64).as_str());
                m.append(" partitions requested, expected 1..=");
                m.append(numbers::decimal_text(ENTRY_COUNT).as_str());
            },
            GptError::DoesNotFit { first_start, last_end, first_usable, last_usable } => {
                m.append("Fatal: Partition layout [");
                m.append(numbers::decimal_text(*first_start).as_str());
                m.append(", ");
                m.append(numbers::decimal_text(*last_end).as_str());
                m.append("] does not fit inside usable GPT range [");
                m.append(numbers::decimal_text(*first_usable).as_str());
                m.append(", ");
                m.append(numbers::decimal_text(*last_usable).as_str());
                m.append("]");
            },
        }
        assert(m@ =~= self.text());
        m
    }
}

} // verus!
