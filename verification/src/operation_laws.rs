//! What the operations promise to whoever calls them, from what goes in to what comes out.

use vstd::arithmetic::power2;
use vstd::prelude::*;

use crate::align;
use crate::bytes;
use crate::bytes::DiskWrite;
use crate::copy;
use crate::copy::{CopyError, Extraction, Layout, RunStep, StreamStep};
use crate::crc;
use crate::device;
use crate::device::{FileKind, RereadReply, RereadStep, SizeFacts, WaitStep};
use crate::eltorito;
use crate::fields;
use crate::gpt;
use crate::gpt::{GptError, GptPlan, PartSpec};
use crate::gpt_laws;
use crate::guid;
use crate::human;
use crate::image_laws;
use crate::label;
use crate::layout_laws;
use crate::list;
use crate::list::{DeviceView, Enumeration, ListError, UsbDevice};
use crate::list_laws;
use crate::logger;
use crate::logger::{Level, LocalTime, LogPath, LogPlan};
use crate::mode;
use crate::mode::{ImageCaps, Mode, ModeError};
use crate::ntfs;
use crate::ntfs::{NtfsError, NtfsLayout, NtfsStep};
use crate::numbers;
use crate::partition::Partition;
use crate::platform::Platform;
use crate::plist;
use crate::position;
use crate::position::{SeekError, SeekTo};
use crate::privilege;
use crate::privilege::{Elevation, Places};
use crate::system_laws;
use crate::table;
use crate::text;
use crate::text_laws;
use crate::tree;
use crate::tree::{CopyAction, EntryKind, FoundFile, OpenStep, Scan, ScanAction};
use crate::validate;
use crate::validate::{SourceFacts, TargetFacts, ValidateError, WriteParams};
use crate::wide;
use crate::writer;
use crate::writer::{FillStep, ReadEvent};

verus! {

// ---------------------------------------------------------------------------------------
// Partition tables
// ---------------------------------------------------------------------------------------

/// After the writes of a plan a device of the stated size holds a protective MBR that starts at
/// sector 1, a header in its second sector and its counterpart in the last one, and behind both
/// the entries of the partitions; all sectors between the tables are as they were.
pub proof fn planned_tables_read_back(
    sectors: u64,
    first: u64,
    sector: u64,
    parts: &[PartSpec<'_>],
    unique: &Vec<[u8; 16]>,
    disk_guid: &[u8; 16],
    plan: GptPlan,
    disk: Seq<u8>,
    a: int,
    i: int,
)
    requires
        gpt::computable(sectors as nat, first as nat, sector as nat, gpt::sizes(parts@)),
        unique@.len() == parts@.len(),
        call_ensures(
            gpt::plan_gpt,
            (sectors, first, sector, parts, unique, disk_guid),
            Ok::<GptPlan, GptError>(plan),
        ),
        disk.len() == sectors * sector,
        (a - 1) * sector < 16384 <= a * sector,
        0 <= i < parts@.len(),
    ensures
        ({
            let d = bytes::after_writes(disk, bytes::write_views(plan.writes@));
            let sec = sector as int;
            let e = 2 * sec + 128 * i;
            let entries = d.subrange(2 * sec, 2 * sec + 16384);
            &&& d.len() == disk.len()
            &&& d[446] == 0
            &&& d[450] == 0xEE
            &&& bytes::le_value(d.subrange(454, 458)) == 1
            &&& bytes::le_value(d.subrange(458, 462)) == if sectors - 1 <= 0xFFFF_FFFF {
                sectors - 1
            } else {
                0xFFFF_FFFF
            }
            &&& forall|k: int| 462 <= k < 510 ==> #[trigger] d[k] == 0
            &&& d[510] == 0x55 && d[511] == 0xAA
            &&& gpt_laws::is_header(
                d.subrange(sec, 2 * sec),
                1,
                sectors - 1,
                2 + a,
                sectors - 2 - a,
                disk_guid@,
                2,
                entries,
            )
            &&& gpt_laws::is_header(
                d.skip((sectors - 1) * sec),
                sectors - 1,
                1,
                2 + a,
                sectors - 2 - a,
                disk_guid@,
                sectors - 1 - a,
                entries,
            )
            &&& d.subrange(e, e + 128).subrange(0, 16) == parts@[i].type_guid@
            &&& d.subrange(e, e + 128).subrange(16, 32) == unique@[i]@
            &&& bytes::le_value(d.subrange(e, e + 128).subrange(32, 40)) == plan.placements@[i].0
            &&& bytes::le_value(d.subrange(e, e + 128).subrange(40, 48)) == plan.placements@[i].1
            &&& plan.placements@[i].0 == gpt_laws::start_of(first as nat, parts@, i)
            &&& plan.placements@[i].1 == plan.placements@[i].0 + parts@[i].sectors - 1
        }),
{
    let (n, f, s) = (sectors as nat, first as nat, sector as nat);
    let r = Ok::<GptPlan, GptError>(plan);
    assert(gpt::gpt_result(r, n, f, s, parts@, unique@, disk_guid@));
    gpt_laws::tables_are_refused_where_they_do_not_fit(
        r,
        n,
        f,
        s,
        parts@,
        unique@,
        disk_guid@,
        a,
    );
    assert(gpt::count_ok(parts@.len()) && gpt::fits(n, f, s, gpt::sizes(parts@)));
    gpt_laws::protective_mbr_reads_back(disk, n, f, s, parts@, unique@, *disk_guid);
    gpt_laws::headers_read_back_by_position(disk, n, f, s, parts@, unique@, *disk_guid, a);
    gpt_laws::entries_read_back_by_position(disk, n, f, s, parts@, unique@, *disk_guid, i, 0);
    assert(plan.placements@[i].0 == gpt_laws::start_of(f, parts@, i));
}

/// The GUID bears the marks of a random one.
pub open spec fn marked_random(id: Seq<u8>) -> bool {
    id.len() == 16 && id[7] & 0xF0 == 0x40 && id[8] & 0xC0 == 0x80
}

/// A table can be asked for on every device of at least 34 sectors whose size in bytes is a
/// 64-bit number, for any partitions that start behind sector 0 and end at a 64-bit number.
pub proof fn tables_can_be_asked_for(
    sectors: u64,
    first: u64,
    sector: u64,
    parts: &[PartSpec<'_>],
    unique: &Vec<[u8; 16]>,
    disk_guid: &[u8; 16],
)
    requires
        512 <= sector <= 4096,
        34 <= sectors,
        sectors * sector <= u64::MAX,
        1 <= first,
        first + gpt::total(gpt::sizes(parts@)) <= u64::MAX,
        unique@.len() == parts@.len(),
    ensures
        call_requires(gpt::plan_gpt, (sectors, first, sector, parts, unique, disk_guid)),
        call_requires(gpt::write_gpt, (sectors, first, sector, parts)),
{
    let (n, s) = (sectors as int, sector as int);
    assert((n - 1) * s <= n * s) by (nonlinear_arith)
        requires
            s > 0,
    ;
    let a = (16384 + s - 1) / s;
    assert(a <= 32) by (nonlinear_arith)
        requires
            a == (16384 + s - 1) / s,
            s >= 512,
    ;
}

/// The 128 bytes `e` describe a partition of that type, with a random GUID, from the sector
/// `start` to the sector `end` and named by those code units.
pub open spec fn is_entry(
    e: Seq<u8>,
    kind: Seq<u8>,
    start: int,
    end: int,
    units: Seq<u16>,
) -> bool {
    &&& e.subrange(0, 16) == kind
    &&& marked_random(e.subrange(16, 32))
    &&& bytes::le_value(e.subrange(32, 40)) == start
    &&& bytes::le_value(e.subrange(40, 48)) == end
    &&& forall|j: int|
        0 <= j < 36 ==> bytes::le_value(#[trigger] e.subrange(56 + 2 * j, 58 + 2 * j)) == if j
            < units.len() {
            units[j] as nat
        } else {
            0
        }
}

/// The bytes of the entry `i` behind the header.
pub open spec fn entry_at(plan: GptPlan, disk: Seq<u8>, sector: int, i: int) -> Seq<u8> {
    bytes::after_writes(disk, bytes::write_views(plan.writes@)).subrange(
        2 * sector + 128 * i,
        2 * sector + 128 * i + 128,
    )
}

proof fn lemma_entry(
    plan: GptPlan,
    disk: Seq<u8>,
    total: nat,
    first: nat,
    sec: nat,
    parts: Seq<PartSpec<'_>>,
    unique: Seq<[u8; 16]>,
    disk_guid: [u8; 16],
    i: int,
)
    requires
        gpt::gpt_result(
            Ok::<GptPlan, GptError>(plan),
            total,
            first,
            sec,
            parts,
            unique,
            disk_guid@,
        ),
        disk.len() == total * sec,
        gpt::computable(total, first, sec, gpt::sizes(parts)),
        gpt::count_ok(parts.len()),
        gpt::fits(total, first, sec, gpt::sizes(parts)),
        unique.len() == parts.len(),
        0 <= i < 128,
        i < parts.len() ==> marked_random(unique[i]@),
    ensures
        i < parts.len() ==> is_entry(
            entry_at(plan, disk, sec as int, i),
            parts[i].type_guid@,
            gpt_laws::start_of(first, parts, i),
            gpt_laws::start_of(first, parts, i) + parts[i].sectors - 1,
            gpt::utf16(parts[i].name@),
        ),
        i >= parts.len() ==> forall|k: int|
            0 <= k < 128 ==> #[trigger] entry_at(plan, disk, sec as int, i)[k] == 0,
{
    gpt_laws::entries_read_back_by_position(disk, total, first, sec, parts, unique, disk_guid, i, 0);
    let e = entry_at(plan, disk, sec as int, i);
    if i < parts.len() {
        let units = gpt::utf16(parts[i].name@);
        assert forall|j: int| 0 <= j < 36 implies bytes::le_value(
            #[trigger] e.subrange(56 + 2 * j, 58 + 2 * j),
        ) == if j < units.len() {
            units[j] as nat
        } else {
            0
        } by {
            gpt_laws::entries_read_back_by_position(
                disk,
                total,
                first,
                sec,
                parts,
                unique,
                disk_guid,
                i,
                j,
            );
        }
    }
}

/// The table for copying files holds one partition, of the type that firmware boots from, from
/// 1 MiB on, of the size that was planned and under the given name.
pub proof fn tables_for_copying_hold_one_partition(
    n: u64,
    l: Layout,
    name: &str,
    plan: GptPlan,
    disk: Seq<u8>,
    i: int,
)
    requires
        call_ensures(copy::plan_layout, (l.sector, Some(n)), Ok::<Layout, CopyError>(l)),
        call_ensures(copy::write_table, (&l, name), Ok::<GptPlan, GptError>(plan)),
        disk.len() == l.total_sectors * l.sector,
        1 <= i < 128,
    ensures
        is_entry(
            entry_at(plan, disk, l.sector as int, 0),
            seq![
                0x28u8, 0x73, 0x2A, 0xC1, 0x1F, 0xF8, 0xD2, 0x11,
                0xBA, 0x4B, 0x00, 0xA0, 0xC9, 0x3E, 0xC9, 0x3B,
            ],
            1_048_576int / l.sector as int,
            1_048_576int / l.sector as int + l.part_sectors - 1,
            gpt::utf16(name@),
        ),
        forall|k: int|
            0 <= k < 128 ==> #[trigger] entry_at(plan, disk, l.sector as int, i)[k] == 0,
{
    let r = Ok::<GptPlan, GptError>(plan);
    let (total, first, sec) = (l.total_sectors as nat, l.align_lba as nat, l.sector as nat);
    copy::layouts_fit_their_table(l, n);
    guid::partition_types_are_the_registered_ones();
    let (parts, unique, disk_guid) = choose|
        parts: Seq<PartSpec<'_>>,
        unique: Seq<[u8; 16]>,
        disk_guid: [u8; 16],
    |
        {
            &&& parts.len() == 1
            &&& parts[0].name@ == name@
            &&& parts[0].type_guid@ == guid::esp_guid()
            &&& parts[0].sectors == l.part_sectors
            &&& unique.len() == 1
            &&& guid::is_random_guid(unique[0]@)
            &&& guid::is_random_guid(disk_guid@)
            &&& #[trigger] gpt::gpt_result(r, total, first, sec, parts, unique, disk_guid@)
        };
    assert(gpt::sizes(parts) =~= seq![l.part_sectors]);
    assert(marked_random(unique[0]@));
    lemma_entry(plan, disk, total, first, sec, parts, unique, disk_guid, 0);
    lemma_entry(plan, disk, total, first, sec, parts, unique, disk_guid, i);
    assert(gpt_laws::start_of(first, parts, 0) == first);
}

/// The table with an NTFS partition holds two: one for data from sector 2048 on, under the given
/// name, and behind it one that firmware boots from.
pub proof fn tables_with_ntfs_hold_two_partitions(
    n: u64,
    loader_len: usize,
    l: NtfsLayout,
    name: &str,
    plan: GptPlan,
    disk: Seq<u8>,
    i: int,
)
    requires
        call_ensures(ntfs::plan_layout, (Some(n), loader_len), Ok::<NtfsLayout, NtfsError>(l)),
        loader_len + 511 <= u64::MAX,
        call_ensures(ntfs::write_table, (&l, name, loader_len), Ok::<GptPlan, GptError>(plan)),
        disk.len() == 512 * l.total_sectors,
        2 <= i < 128,
    ensures
        is_entry(
            entry_at(plan, disk, 512, 0),
            seq![
                0xA2u8, 0xA0, 0xD0, 0xEB, 0xE5, 0xB9, 0x33, 0x44,
                0x87, 0xC0, 0x68, 0xB6, 0xB7, 0x26, 0x99, 0xC7,
            ],
            2048,
            2047 + l.ntfs_sectors,
            gpt::utf16(name@),
        ),
        is_entry(
            entry_at(plan, disk, 512, 1),
            seq![
                0x28u8, 0x73, 0x2A, 0xC1, 0x1F, 0xF8, 0xD2, 0x11,
                0xBA, 0x4B, 0x00, 0xA0, 0xC9, 0x3E, 0xC9, 0x3B,
            ],
            2048 + l.ntfs_sectors,
            2047 + l.ntfs_sectors + l.loader_sectors,
            gpt::utf16("UEFI_NTFS"@),
        ),
        forall|k: int| 0 <= k < 128 ==> #[trigger] entry_at(plan, disk, 512, i)[k] == 0,
{
    let r = Ok::<GptPlan, GptError>(plan);
    let total = l.total_sectors as nat;
    ntfs::layouts_fit_their_table(l, n, loader_len as nat);
    guid::partition_types_are_the_registered_ones();
    let (parts, unique, disk_guid) = choose|
        parts: Seq<PartSpec<'_>>,
        unique: Seq<[u8; 16]>,
        disk_guid: [u8; 16],
    |
        {
            &&& parts.len() == 2
            &&& parts[0].name@ == name@
            &&& parts[0].type_guid@ == guid::basic_data_guid()
            &&& parts[0].sectors == l.ntfs_sectors
            &&& parts[1].name@ == "UEFI_NTFS"@
            &&& parts[1].type_guid@ == guid::esp_guid()
            &&& parts[1].sectors == l.loader_sectors
            &&& unique.len() == 2
            &&& guid::is_random_guid(unique[0]@)
            &&& guid::is_random_guid(unique[1]@)
            &&& guid::is_random_guid(disk_guid@)
            &&& #[trigger] gpt::gpt_result(r, total, 2048, 512, parts, unique, disk_guid@)
        };
    assert(gpt::sizes(parts) =~= ntfs::part_sizes(l));
    assert(marked_random(unique[0]@) && marked_random(unique[1]@));
    lemma_entry(plan, disk, total, 2048, 512, parts, unique, disk_guid, 0);
    lemma_entry(plan, disk, total, 2048, 512, parts, unique, disk_guid, 1);
    lemma_entry(plan, disk, total, 2048, 512, parts, unique, disk_guid, i);
    assert(gpt_laws::start_of(2048, parts, 0) == 2048);
    assert(gpt_laws::start_of(2048, parts, 1) == 2048 + l.ntfs_sectors);
}

/// For every layout there is a table.
pub proof fn layouts_have_their_table(
    l: Layout,
    name: &str,
    r: Result<GptPlan, GptError>,
    m: NtfsLayout,
    loader_len: usize,
    t: Result<GptPlan, GptError>,
)
    requires
        call_ensures(copy::write_table, (&l, name), r),
        call_ensures(ntfs::write_table, (&m, name, loader_len), t),
    ensures
        r is Ok,
        t is Ok,
        t matches Ok(p) ==> p.placements@.len() == 2 && p.placements@[1].0 == 2048
            + m.ntfs_sectors,
{
}

/// The checksum of data with their own checksum behind them is the one that marks them as whole.
pub proof fn checksums_check(data: &[u8], check: u32, all: &[u8], r: u32)
    requires
        call_ensures(crc::crc32, (data,), check),
        call_ensures(crc::crc32, (all,), r),
        all@ == data@ + bytes::le_bytes(check as nat, 4),
    ensures
        r == 0x2144_DF1C,
{
    let c = bytes::le_bytes(check as nat, 4);
    bytes::lemma_byte_ranges();
    bytes::le_round_trip(check as nat, 4);
    text_laws::numbers_stand_lowest_byte_first(c);
    crc::checksummed_data_have_the_residue(data@, c);
}

/// A number of bytes is rounded up to the next multiple of the alignment.
pub proof fn lengths_are_rounded_up(n: usize, align: usize, r: usize)
    requires
        call_ensures(align::round_up, (n, align), r),
        power2::is_pow2(align as int),
        n + align - 1 <= usize::MAX,
    ensures
        n <= r < n + align,
        r % align == 0,
{
}

/// A GUID is stored with its first three fields turned round, and random ones keep all other bits
/// of their numbers.
pub proof fn guids_are_stored_turned(b: [u8; 16], r: [u8; 16], x: u64, y: u64, g: [u8; 16])
    requires
        call_ensures(guid::guid_le, (b,), r),
        call_ensures(guid::stamp_guid, (x, y), g),
    ensures
        r@ == seq![
            b@[3], b@[2], b@[1], b@[0], b@[5], b@[4], b@[7], b@[6],
            b@[8], b@[9], b@[10], b@[11], b@[12], b@[13], b@[14], b@[15],
        ],
        g@.take(7) == bytes::le_bytes(x as nat, 8).take(7),
        g@.skip(9) == bytes::le_bytes(y as nat, 8).skip(1),
        marked_random(g@),
{
    assert forall|i: int| 0 <= i < 16 implies #[trigger] r@[i] == if i < 4 {
        b@[3 - i]
    } else if i < 6 {
        b@[9 - i]
    } else if i < 8 {
        b@[13 - i]
    } else {
        b@[i]
    } by {
        guid::guids_turn_their_first_three_fields(b@, i);
    }
    bytes::lemma_byte_ranges();
    bytes::le_round_trip(x as nat, 8);
    bytes::le_round_trip(y as nat, 8);
}

/// A number that was written in digits reads back.
pub proof fn numbers_read_back(n: u64, max: u64, t: String, s: &str, r: Option<u64>)
    requires
        call_ensures(numbers::decimal_text, (n,), t),
        s@ == t@,
        call_ensures(numbers::parse_text, (s, max), r),
    ensures
        n <= max ==> r == Some(n),
        n > max ==> r is None,
{
    text_laws::numbers_are_written_in_decimal(n as nat);
    text_laws::digits_read_as_their_value(t@, max as nat);
}

/// The types of partitions are those by which firmware and desktops know them.
pub proof fn partition_types_are_registered(esp: [u8; 16], data: [u8; 16])
    requires
        call_ensures(guid::esp_type, (), esp),
        call_ensures(guid::basic_data_type, (), data),
    ensures
        esp@ == seq![
            0x28u8, 0x73, 0x2A, 0xC1, 0x1F, 0xF8, 0xD2, 0x11,
            0xBA, 0x4B, 0x00, 0xA0, 0xC9, 0x3E, 0xC9, 0x3B,
        ],
        data@ == seq![
            0xA2u8, 0xA0, 0xD0, 0xEB, 0xE5, 0xB9, 0x33, 0x44,
            0x87, 0xC0, 0x68, 0xB6, 0xB7, 0x26, 0x99, 0xC7,
        ],
{
    guid::partition_types_are_the_registered_ones();
}

// ---------------------------------------------------------------------------------------
// Layouts
// ---------------------------------------------------------------------------------------

/// A device gets a layout exactly if its sectors have a size that FAT32 knows and it has room for
/// 1 MiB, more than 64 MiB and the backup table; the layout then uses all of it.
pub proof fn planned_layouts_use_the_whole_device(
    sector: u64,
    n: u64,
    r: Result<Layout, CopyError>,
)
    requires
        call_ensures(copy::plan_layout, (sector, Some(n)), r),
    ensures
        r is Ok <==> layout_laws::fat_sector(sector) && n >= 68_157_440 + 16_384 + 2 * sector,
        r matches Ok(l) ==> {
            &&& l.sector == sector
            &&& l.total_sectors * sector <= n < (l.total_sectors + 1) * sector
            &&& l.align_lba * sector == 1_048_576
            &&& (l.align_lba + l.part_sectors) * sector + 16_384 + sector == l.total_sectors
                * sector
        },
{
    layout_laws::devices_with_room_get_a_layout(sector, n);
    if let Ok(l) = r {
        layout_laws::layouts_use_the_whole_device(sector, n, l);
    }
}

/// The window of a partition starts at 1 MiB and ends where the backup table begins.
pub proof fn partitions_fill_their_window(sector: u64, n: u64, l: Layout, p: Partition)
    requires
        call_ensures(copy::plan_layout, (sector, Some(n)), Ok::<Layout, CopyError>(l)),
        call_ensures(copy::partition_window, (&l,), p),
    ensures
        p@.base == 1_048_576,
        p@.pos == 0,
        p@.base + p@.len + 16_384 + sector == l.total_sectors * sector,
        p@.base + p@.len <= n,
{
    layout_laws::layouts_use_the_whole_device(sector, n, l);
    let (a, b, s) = (l.align_lba as int, l.part_sectors as int, sector as int);
    assert((a + b) * s == a * s + b * s) by (nonlinear_arith);
}

/// The same of the layout with an NTFS partition: 512 bytes to a sector, and a loader partition of
/// just the sectors that the loader takes.
pub proof fn planned_ntfs_layouts_use_the_whole_device(
    n: u64,
    loader_len: usize,
    r: Result<NtfsLayout, NtfsError>,
)
    requires
        loader_len + 511 <= u64::MAX,
        call_ensures(ntfs::plan_layout, (Some(n), loader_len), r),
    ensures
        r matches Ok(l) ==> {
            &&& l.total_sectors * 512 <= n < (l.total_sectors + 1) * 512
            &&& loader_len <= l.loader_sectors * 512 < loader_len + 512
            &&& 2048 + l.ntfs_sectors + l.loader_sectors + 33 == l.total_sectors
            &&& l.ntfs_sectors > 131_072
        },
        r is Err && n > 0 ==> n < 68_157_440 + 34 * 512 + loader_len + 511,
{
    if let Ok(l) = r {
        ntfs::layouts_fit_their_table(l, n, loader_len as nat);
        layout_laws::ntfs_layouts_use_the_whole_device(n, loader_len as nat, l);
    }
}

/// The loader is written to the start of its partition, whole, and zeros behind it up to the end
/// of its last sector.
pub proof fn loaders_are_written_whole(
    n: u64,
    loader: &[u8],
    l: NtfsLayout,
    w: DiskWrite,
    i: int,
)
    requires
        call_ensures(ntfs::plan_layout, (Some(n), loader.len()), Ok::<NtfsLayout, NtfsError>(l)),
        call_ensures(ntfs::loader_write, (&l, loader), w),
        loader@.len() + 511 <= u64::MAX,
        loader.len() == loader@.len(),
        0 <= i < w.bytes@.len(),
    ensures
        w.offset == 1_048_576 + 512 * l.ntfs_sectors,
        w.bytes@.len() == 512 * l.loader_sectors,
        i < loader@.len() ==> w.bytes@[i] == loader@[i],
        i >= loader@.len() ==> w.bytes@[i] == 0,
        w.offset + w.bytes@.len() + 33 * 512 <= n,
{
    ntfs::layouts_fit_their_table(l, n, loader@.len());
    layout_laws::ntfs_layouts_use_the_whole_device(n, loader@.len(), l);
    assert(w@ == (w.offset as nat, w.bytes@));
}

/// With that layout a run tells or writes as was asked for, and fails where there is no layout.
pub proof fn ntfs_runs_do_what_was_asked_for(
    source: &str,
    target: &str,
    only_tell: bool,
    dev_bytes: Option<u64>,
    loader_len: usize,
    scan: Scan,
    planned: Result<NtfsLayout, NtfsError>,
    r: Result<NtfsStep, NtfsError>,
)
    requires
        call_ensures(ntfs::plan_layout, (dev_bytes, loader_len), planned),
        call_ensures(ntfs::run, (source, target, only_tell, dev_bytes, loader_len, &scan), r),
    ensures
        r is Ok <==> planned is Ok,
        r matches Err(e) ==> planned == Err::<NtfsLayout, NtfsError>(e),
        r matches Ok(s) ==> (s is DryRun <==> only_tell),
        r matches Ok(NtfsStep::Write { layout }) ==> planned == Ok::<NtfsLayout, NtfsError>(layout),
        dev_bytes is None ==> (r matches Err(e) && e is SizeFailed),
        dev_bytes == Some(0u64) ==> (r matches Err(e) && e is SizeUnknown),
        r matches Err(e) ==> (e is TooSmall <==> dev_bytes is Some && dev_bytes->0 > 0),
{
}

/// Only sectors of 512 bytes can have that layout.
pub proof fn other_sectors_are_refused(sector: u64, r: Result<(), NtfsError>)
    requires
        call_ensures(ntfs::check_sector, (sector,), r),
    ensures
        r is Ok <==> sector == 512,
        r matches Err(e) ==> e == (NtfsError::UnsupportedSector { sector }),
{
}

/// So many sectors hold the bytes, and one less does not.
pub proof fn sectors_just_hold_the_bytes(n: u64, sector: u64, r: u64)
    requires
        sector > 0,
        n + sector - 1 <= u64::MAX,
        call_ensures(ntfs::round_up_sectors, (n, sector), r),
    ensures
        n <= r * sector < n + sector,
{
    ntfs::rounded_sectors_hold_the_bytes(n as nat, sector as nat);
}

/// What is done with a drive: nothing but telling in a dry run; a file of 4 GiB or more needs
/// NTFS, which there is on Linux and Windows.
pub proof fn runs_do_what_was_asked_for(
    source: &str,
    target: &str,
    dry_run: bool,
    label: &str,
    explicit: bool,
    platform: Platform,
    layout: Layout,
    scan: Scan,
    s: RunStep,
)
    requires
        call_ensures(
            copy::run,
            (source, target, dry_run, label, explicit, platform, &layout, &scan),
            s,
        ),
        label::all_allowed(label@),
    ensures
        s is NtfsFallback <==> scan.max_file >= 0x1_0000_0000 && (platform is Linux
            || platform is Windows),
        s is Refuse <==> scan.max_file >= 0x1_0000_0000 && !(platform is Linux
            || platform is Windows),
        s is DryRun <==> scan.max_file < 0x1_0000_0000 && dry_run,
        s is Write <==> scan.max_file < 0x1_0000_0000 && !dry_run,
        s matches RunStep::Write { label: used, note } ==> {
            &&& label@.len() <= 11 ==> used@ == label@
            &&& used@.len() <= 11
            &&& note@.len() > 0 <==> label@.len() > 11 && explicit
        },
{
    layout_laws::files_of_four_gib_are_too_large(platform, scan.max_file);
    layout_laws::long_labels_keep_eleven_characters(label@, explicit, 0);
    reveal_strlit("note: FAT32 labels are 11 characters, using '");
}

/// Boot loaders are looked for in the embedded image exactly where the image has none of its own,
/// and a drive boots if it has one from either.
pub proof fn loaders_are_extracted_where_there_are_none(
    scan: Scan,
    e: Extraction,
    needed: bool,
    ok: bool,
)
    requires
        call_ensures(copy::needs_extraction, (&scan,), needed),
        call_ensures(copy::boot_ok, (&scan, e), ok),
    ensures
        needed != scan.has_efi_boot,
        ok <==> !needed || e == (Extraction::Done { found: true }),
{
}

/// Every byte of a file is written, and counted once.
pub proof fn streams_write_every_byte(total: u64, n: usize, s: StreamStep)
    requires
        total + n <= u64::MAX,
        call_ensures(copy::stream_copy, (total, ReadEvent::Got(n)), s),
    ensures
        n > 0 ==> s == (StreamStep::Write { count: n, total: (total + n) as u64 }),
        n == 0 ==> s == (StreamStep::Done { total }),
{
}

// ---------------------------------------------------------------------------------------
// Trees
// ---------------------------------------------------------------------------------------

/// Below the root each entry is treated by its kind alone, at whatever depth.
pub proof fn copying_treats_entries_by_their_kind(
    kind: EntryKind,
    leads: bool,
    depth: usize,
    a: CopyAction,
)
    requires
        call_ensures(tree::copy_action, (kind, leads, depth), a),
        depth > 0,
    ensures
        kind is Directory ==> a is Descend,
        kind is File ==> a is Copy,
        kind is Symlink ==> (if leads {
            a is SkipLinkedDirectory
        } else {
            a is Copy
        }),
        kind is Unknown ==> a is Ignore,
{
}

/// The same of scanning.
pub proof fn scanning_treats_entries_by_their_kind(kind: EntryKind, a: ScanAction)
    requires
        call_ensures(tree::scan_action, (kind,), a),
    ensures
        kind is Directory <==> a is Descend,
        kind is Unknown <==> a is Ignore,
{
}

/// A file that does not open by itself is tried by what it leads to, and skipped only if that
/// does not open either.
pub proof fn files_are_skipped_only_if_nothing_opens(
    opened: bool,
    target: Option<bool>,
    s: OpenStep,
)
    requires
        call_ensures(tree::after_open, (opened, target), s),
    ensures
        s is Skip <==> !opened && target == Some(false),
        s is TryTarget <==> !opened && target is None,
        s is Copy <==> opened || target == Some(true),
{
}

/// A link leads to what its target names, from the root of the image or from its own directory.
pub proof fn links_lead_from_root_or_directory(
    root: &Vec<Vec<u8>>,
    parent: &Vec<Vec<u8>>,
    target: &Vec<Vec<u8>>,
    absolute: bool,
    r: Vec<Vec<u8>>,
    i: int,
)
    requires
        call_ensures(tree::link_target, (root, parent, target, absolute), r),
        0 <= i < r@.len(),
    ensures
        ({
            let base = if absolute {
                root@
            } else {
                parent@
            };
            &&& r@.len() == base.len() + target@.len()
            &&& r@[i]@ == if i < base.len() {
                base[i]@
            } else {
                target@[i - base.len()]@
            }
        }),
{
    let base = if absolute {
        root@
    } else {
        parent@
    };
    assert(tree::names(r@) == tree::names(base) + tree::names(target@));
    assert(tree::names(r@).len() == r@.len());
    assert(tree::names(base).len() == base.len());
    assert(tree::names(r@)[i] == r@[i]@);
    if i < base.len() {
        assert(tree::names(base)[i] == base[i]@);
    } else {
        assert(tree::names(target@)[i - base.len()] == target@[i - base.len()]@);
    }
}

/// A link is followed only to files whose path continues that of the image.
pub proof fn links_are_followed_inside_only(
    found: Option<Vec<Vec<u8>>>,
    root: Option<Vec<Vec<u8>>>,
    r: Option<Vec<Vec<u8>>>,
    i: int,
)
    requires
        call_ensures(tree::resolve_symlink, (found, root), r),
    ensures
        r is Some ==> r == found && root is Some && root->0@.len() <= r->0@.len() && (0 <= i
            < root->0@.len() ==> root->0@[i]@ == r->0@[i]@),
        found is Some && root is Some && root->0@.len() <= found->0@.len() && (forall|k: int|
            0 <= k < root->0@.len() ==> found->0@[k]@ == #[trigger] root->0@[k]@) ==> r == found,
{
    if found is Some && root is Some {
        let (p, q) = (tree::names(found->0@), tree::names(root->0@));
        let n = q.len() as int;
        if tree::lies_inside(p, q) && 0 <= i < n {
            assert(p.take(n)[i] == q[i]);
        }
        if n <= p.len() && (forall|k: int|
            0 <= k < root->0@.len() ==> found->0@[k]@ == #[trigger] root->0@[k]@) {
            assert forall|k: int| 0 <= k < n implies p.take(n)[k] == q[k] by {
                assert(found->0@[k]@ == root->0@[k]@);
            }
            assert(p.take(n) =~= q);
        }
    }
}

/// The entries that stand for a directory itself and for the one above it are no entries of it.
pub proof fn dots_are_no_entries(name: &str, r: bool)
    requires
        call_ensures(tree::is_dot_entry, (name,), r),
    ensures
        r <==> name@ == seq!['.'] || name@ == seq!['.', '.'],
{
    reveal_strlit(".");
    reveal_strlit("..");
    assert("."@ =~= seq!['.']);
    assert(".."@ =~= seq!['.', '.']);
}

/// A scan counts every file once, all their bytes, the largest of them and whether there is a
/// boot loader among them.
pub proof fn scans_add_up(
    files: &Vec<FoundFile>,
    more: &Vec<FoundFile>,
    f: FoundFile,
    loader: bool,
    comps: &[String],
    s: Scan,
    t: Scan,
)
    requires
        call_ensures(tree::scan_tree, (files,), s),
        call_ensures(tree::scan_tree, (more,), t),
        call_ensures(tree::is_efi_boot_comps, (comps,), loader),
        more@ == files@.push(f),
        f.comps@ == comps@,
    ensures
        t.total_bytes == s.total_bytes + f.len,
        t.file_count == s.file_count + 1,
        t.max_file >= f.len && t.max_file >= s.max_file,
        t.max_file == f.len || t.max_file == s.max_file,
        t.has_efi_boot == (s.has_efi_boot || loader),
        files@.len() == 0 ==> s == (Scan {
            total_bytes: 0,
            max_file: 0,
            file_count: 0,
            has_efi_boot: false,
        }),
{
    layout_laws::scans_count_every_file(files@, f, s, t);
    if files@.len() == 0 {
        assert(files@ =~= Seq::<FoundFile>::empty());
        layout_laws::empty_scans_are_zero(s);
    }
}

// ---------------------------------------------------------------------------------------
// Images
// ---------------------------------------------------------------------------------------

/// The identifier of an image is read back whole.
pub proof fn identifiers_of_images_read_back(head: &[u8], t: Seq<char>, r: Option<String>)
    requires
        call_ensures(label::iso_volume_label, (head,), r),
        image_laws::describes_a_volume(head@),
        1 <= t.len() <= 32,
        forall|i: int| 0 <= i < t.len() ==> ' ' <= #[trigger] t[i] <= '~',
        !text::is_white(t[0]),
        !text::is_white(t.last()),
        forall|i: int|
            0 <= i < 32 ==> #[trigger] head@[32_768 + 0x28 + i] == if i < t.len() {
                t[i] as u8
            } else {
                0x20
            },
    ensures
        r matches Some(s) && s@ == t,
{
    image_laws::volume_identifiers_read_back(head@, t);
}

/// A drive is named as was asked for, or by its image; of neither it is named BUF.
pub proof fn drives_are_named_as_asked_for(
    asked: Option<&str>,
    head: &[u8],
    r: (String, bool),
    own: Option<String>,
)
    requires
        call_ensures(label::resolve_label, (asked, head), r),
        call_ensures(label::iso_volume_label, (head,), own),
    ensures
        r.1 == asked is Some,
        asked matches Some(s) ==> label::sanitized(s@).len() > 0 ==> r.0@ == label::sanitized(s@),
        asked is None && own is Some && label::sanitized(own->0@).len() > 0 ==> r.0@
            == label::sanitized(own->0@),
        asked is None && own is None ==> r.0@ == seq!['B', 'U', 'F'],
        label::all_allowed(r.0@) && r.0@.len() > 0,
{
    let s = match asked {
        Some(s) => s@,
        None => Seq::empty(),
    };
    image_laws::labels_asked_for_come_first(s, head@, head@);
    label::resolved_labels_are_allowed(label::explicit_view(asked), head@);
    if asked is None && own is Some {
        image_laws::labels_asked_for_come_first(own->0@, head@, head@);
    }
}

/// FAT holds the first eleven characters of a label in capitals.
pub proof fn fat_labels_are_capitals(s: &str, r: [u8; 11], i: int)
    requires
        call_ensures(label::fat_label, (s,), r),
        label::all_allowed(s@),
        0 <= i < 11,
    ensures
        i >= s@.len() ==> r@[i] == 0x20,
        i < s@.len() ==> r@[i] == if 'a' <= s@[i] <= 'z' {
            s@[i] as u8 - 32
        } else {
            s@[i] as u8 as int
        },
{
    image_laws::fat_stores_eleven_capitals(s@, i);
}

/// What an image can be used for is told by its first bytes.
pub proof fn images_are_told_by_their_marks(head: &[u8], caps: ImageCaps)
    requires
        call_ensures(ImageCaps::sniff, (head,), caps),
    ensures
        caps.dd_bootable <==> head@.len() >= 512 && head@[510] == 0x55 && head@[511] == 0xAA,
        caps.is_iso <==> image_laws::identifies(head@, 16, "CD001"@),
        caps.is_udf <==> mode::has_udf(head@),
{
    let m = seq![0x55u8, 0xAAu8];
    text_laws::bytes_stand_where_each_does(head@, 510, m);
    if caps.dd_bootable {
        assert(head@[510int + 0] == m[0] && head@[510int + 1] == m[1]);
    } else if head@.len() >= 512 && head@[510] == 0x55 && head@[511] == 0xAA {
        assert forall|k: int| 0 <= k < 2 implies head@[510 + k] == #[trigger] m[k] by {
            assert(k == 0 || k == 1);
        }
    }
    image_laws::iso_images_are_told_by_sector_sixteen(head@);
}

/// Copying is picked wherever it can be, and a mode is risky only where the image supports the
/// other one alone.
pub proof fn modes_are_picked_by_what_images_support(
    caps: ImageCaps,
    r: Result<Mode, ModeError>,
    chosen: Mode,
    risky: bool,
)
    requires
        call_ensures(mode::auto, (caps,), r),
        call_ensures(mode::mode_risky, (chosen, caps), risky),
    ensures
        caps.is_iso || caps.is_udf ==> (r matches Ok(m) && m is Copy),
        !(caps.is_iso || caps.is_udf) && caps.dd_bootable ==> (r matches Ok(m) && m is Dd),
        !(caps.is_iso || caps.is_udf) && !caps.dd_bootable ==> r is Err,
        risky <==> (chosen is Dd && !caps.dd_bootable && (caps.is_iso || caps.is_udf)) || (chosen
            is Copy && caps.dd_bootable && !caps.is_iso && !caps.is_udf),
{
    image_laws::copying_is_picked_where_it_can_be(caps);
}

/// A mode is read by its name, in capitals or not, and its name reads back as the mode.
pub proof fn modes_read_back(
    s: &str,
    r: Result<Mode, ModeError>,
    m: Mode,
    name: String,
)
    requires
        call_ensures(Mode::parse, (s,), r),
        call_ensures(Mode::to_string, (&m,), name),
    ensures
        m is Dd ==> name@ == seq!['d', 'd'],
        m is Copy ==> name@ == seq!['c', 'o', 'p', 'y'],
        s@ == name@ ==> r == Ok::<Mode, ModeError>(m),
        s@ == seq!['D', 'D'] ==> (r matches Ok(n) && n is Dd),
        text::lower(s@).len() == s@.len() && s@.len() > 4 && text_laws::is_trimmed(s@) ==> r is Err,
{
    let none = Seq::<char>::empty();
    assert(none + s@ + none =~= s@);
    reveal_strlit("dd");
    reveal_strlit("copy");
    assert("dd"@ =~= seq!['d', 'd']);
    assert("copy"@ =~= seq!['c', 'o', 'p', 'y']);
    if text_laws::is_trimmed(s@) {
        image_laws::modes_are_read_by_name(none, s@, none, r);
    }
    assert(text::lower(seq!['d', 'd']) =~= seq!['d', 'd']);
    assert(text::lower(seq!['D', 'D']) =~= seq!['d', 'd']);
    assert(text::lower(seq!['c', 'o', 'p', 'y']) =~= seq!['c', 'o', 'p', 'y']);
}

/// A boot record gives the catalog's place in bytes, and a catalog that of the boot image.
pub proof fn boot_images_are_found(
    record: &[u8],
    at: Option<u64>,
    cat: &[u8],
    rba: Option<u64>,
    image: Option<u64>,
)
    requires
        call_ensures(eltorito::catalog_offset, (record,), at),
        call_ensures(eltorito::eltorito_efi_rba, (cat,), rba),
        call_ensures(eltorito::eltorito_efi_image, (cat,), image),
    ensures
        at matches Some(n) ==> record@.len() == 2_048 && n == 2_048 * (record@[0x47] + 0x100
            * record@[0x48] + 0x1_0000 * record@[0x49] + 0x100_0000 * record@[0x4A]),
        rba is Some <==> image is Some,
        rba matches Some(n) ==> image->0 == 2_048 * n,
        image_laws::has_catalog_marks(cat@) && cat@[1] == 0xEF ==> match image_laws::sector_of_entry(
            cat@,
            0x20,
        ) {
            Some(n) => rba is Some && rba->0 == n,
            None => rba is None,
        },
{
    image_laws::boot_records_point_to_their_catalog(record@);
    image_laws::boot_images_lie_at_whole_sectors(cat@);
    if image_laws::has_catalog_marks(cat@) && cat@[1] == 0xEF {
        image_laws::efi_catalogs_name_their_initial_entry(cat@);
    }
}

/// What is read of an image reaches as far as its last descriptor that is looked at, in sector 47;
/// the descriptor of its volume stands in sector 16, its boot record in sector 17.
pub proof fn heads_hold_every_descriptor(k: int)
    requires
        16 <= k < 48,
    ensures
        (k + 1) * 2_048 <= mode::HEAD_BYTES,
        mode::HEAD_BYTES == 48 * 2_048,
        label::DESCRIPTOR_AT == 16 * 2_048,
        eltorito::BOOT_RECORD_AT == 17 * 2_048,
        eltorito::RECORD_BYTES == 2_048,
        copy::COPY_CHUNK == 4 * 1_048_576,
{
}

/// A boot image may fill everything from its place to the end of the file.
pub proof fn boot_images_end_with_their_file(offset: u64, file_len: u64, p: Partition)
    requires
        call_ensures(eltorito::embedded_window, (offset, file_len), p),
    ensures
        p@.base == offset,
        p@.pos == 0,
        offset <= file_len ==> p@.base + p@.len == file_len,
        offset > file_len ==> p@.len == 0,
{
}

// ---------------------------------------------------------------------------------------
// Requests
// ---------------------------------------------------------------------------------------

/// A request passes exactly if nothing stands against it, with the size of the source.
pub proof fn requests_pass_if_nothing_stands_against_them(
    p: WriteParams,
    platform: Platform,
    sector: u64,
    s: SourceFacts,
    t: TargetFacts,
    r: Result<u64, ValidateError>,
)
    requires
        sector > 0,
        call_ensures(validate::validate, (&p, platform, sector, &s, &t), r),
    ensures
        r matches Ok(n) ==> s.size == Some(n),
        r is Ok <==> {
            &&& 1 <= p.block_size <= 268_435_456
            &&& p.offset % sector == 0
            &&& s.is_there
            &&& s.kind matches Some(k) && (k is Regular || ((k is BlockDevice || k is CharDevice)
                && (platform is Linux || platform is MacOs || platform is Unix)))
            &&& s.size matches Some(n) && n > 0
            &&& t.is_there || platform is Windows
            &&& t.has_metadata || platform is Windows || platform is Other
            &&& t.opened
            &&& t.size matches Some(m) && (m == 0 || p.offset + s.size->0 <= m)
        },
{
    layout_laws::requests_are_refused_for_a_reason(p, platform, sector, s, t);
}

/// A size is shown in the largest unit that it reaches, to the nearest hundredth.
pub proof fn sizes_are_shown_in_units(n: u64, r: String)
    requires
        call_ensures(human::human_bytes, (n,), r),
    ensures
        n < 0x400 ==> r@ == numbers::decimal(n as nat) + " B"@,
        0x400 <= n < 0x10_0000 ==> layout_laws::shown_in(r@, n as nat, 0x400, " KiB"@),
        0x10_0000 <= n < 0x4000_0000 ==> layout_laws::shown_in(r@, n as nat, 0x10_0000, " MiB"@),
        0x4000_0000 <= n ==> layout_laws::shown_in(r@, n as nat, 0x4000_0000, " GiB"@),
{
    layout_laws::sizes_are_shown_to_the_nearest_hundredth(n as nat);
}

/// Reading a block goes on until it is full or the source ends; interruptions cost nothing.
pub proof fn blocks_are_read_to_the_end(want: usize, got: usize, k: usize, s: FillStep, t: FillStep)
    requires
        got < want,
        k <= want - got,
        call_ensures(writer::read_full, (want, got, ReadEvent::Got(k)), s),
        call_ensures(writer::read_full, (want, got, ReadEvent::Interrupted), t),
    ensures
        k == 0 ==> s == (FillStep::Done { got }),
        0 < k < want - got ==> s == (FillStep::More { got: (got + k) as usize }),
        k == want - got ==> s == (FillStep::Done { got: want }),
        t == (FillStep::More { got }),
{
}

// ---------------------------------------------------------------------------------------
// Devices
// ---------------------------------------------------------------------------------------

/// A listing holds each device that was found and no other, removable ones first and by path.
pub proof fn drives_found_are_listed(
    e: Enumeration,
    r: Result<Vec<UsbDevice>, ListError>,
    d: DeviceView,
    i: int,
    j: int,
)
    requires
        call_ensures(list::list_drives, (&e,), r),
    ensures
        r is Err <==> e is Unsupported,
        r matches Ok(v) ==> {
            let l = list::device_views(v@);
            &&& l.contains(d) <==> list::found(e).contains(Some(d))
            &&& l.to_multiset().count(d) == list::found(e).filter(
                |x: Option<DeviceView>| x == Some(d),
            ).len()
            &&& 0 <= i < j < l.len() ==> {
                &&& l[j].removable ==> l[i].removable
                &&& l[i].removable == l[j].removable ==> !list::text_before(l[j].path, l[i].path)
            }
        },
{
    if let Ok(v) = r {
        let (p, l) = (list::present(list::found(e)), list::device_views(v@));
        list_laws::listings_hold_what_was_found(list::found(e), l, d);
        if 0 <= i < j < l.len() {
            list::removable_devices_come_first(p, l, i, j);
        }
    }
}

/// Every disk with a path and a size is listed with that size.
pub proof fn disks_with_a_size_are_listed(
    disks: Vec<crate::list::DiskutilDisk>,
    v: Vec<UsbDevice>,
    i: int,
    n: nat,
)
    requires
        call_ensures(
            list::list_drives,
            (&Enumeration::Diskutil(disks),),
            Ok::<Vec<UsbDevice>, ListError>(v),
        ),
        0 <= i < disks@.len(),
        disks@[i].path@.len() > 0,
        plist::integer_value(disks@[i].info@, "TotalSize"@) == Some(n),
        n > 0,
    ensures
        exists|k: int|
            0 <= k < v@.len() && (#[trigger] v@[k]).size_bytes == n && v@[k].path@
                == disks@[i].path@,
{
    let e = Enumeration::Diskutil(disks);
    list_laws::disks_are_listed_with_their_size(disks@[i]);
    let d = list::diskutil_listed(disks@[i])->0;
    list_laws::every_entry_is_looked_at(e, i);
    assert(list::found(e)[i] == Some(d));
    let l = list::device_views(v@);
    list_laws::listings_hold_what_was_found(list::found(e), l, d);
    let k = choose|k: int| 0 <= k < l.len() && l[k] == d;
    assert(l[k] == v@[k]@);
}

/// A device hangs on USB if one of the links on the way up from it holds that word.
pub proof fn usb_devices_are_told_by_their_links(
    links: &[Option<String>],
    r: bool,
    i: int,
    a: Seq<char>,
    b: Seq<char>,
)
    requires
        call_ensures(list::is_usb_device, (links,), r),
        0 <= i < links@.len(),
        links@[i] matches Some(s) && s@ == a + "usb"@ + b,
    ensures
        r,
{
    let s = links@[i]->0@;
    let u = "usb"@;
    let at = a.len() as int;
    assert(s.subrange(at, at + u.len()) =~= u);
    assert(text::occurs_at(links@[i]->0@, "usb"@, at));
}

/// The same the other way round.
pub proof fn other_devices_have_no_such_link(links: &[Option<String>], r: bool)
    requires
        call_ensures(list::is_usb_device, (links,), r),
        r,
    ensures
        exists|i: int, a: Seq<char>, b: Seq<char>|
            0 <= i < links@.len() && (#[trigger] links@[i]) is Some && links@[i]->0@ == #[trigger] (a
                + "usb"@ + b),
{
    let (i, at) = choose|i: int, at: int|
        0 <= i < links@.len() && links@[i] is Some && #[trigger] text::occurs_at(
            links@[i]->0@,
            "usb"@,
            at,
        );
    let s = links@[i]->0@;
    let (a, b) = (s.take(at), s.skip(at + "usb"@.len()));
    assert(s =~= a + "usb"@ + b);
}

/// Sizes of files and devices are those that the system gave.
pub proof fn device_sizes_are_those_given(platform: Platform, f: SizeFacts, r: Option<u64>)
    requires
        device::blocks_fit(f),
        call_ensures(device::device_size, (platform, &f), r),
    ensures
        platform is Linux || platform is MacOs || platform is Unix ==> match f.metadata {
            None => r is None,
            Some((FileKind::BlockDevice, _)) => true,
            Some((_, len)) => r == Some(len),
        },
        platform is Linux && (f.metadata matches Some((k, _)) && k is BlockDevice)
            && f.device_bytes is Some ==> r == f.device_bytes,
        platform is Windows && f.geometry is Some && f.geometry->0 > 0 ==> r is Some && r->0
            == f.geometry->0,
{
    system_laws::sizes_are_those_that_were_given(platform, f);
}

/// The name of a partition is recognised, and its number stands at its end.
pub proof fn partition_nodes_are_recognised(
    disk: &str,
    index: u32,
    node: String,
    name: &str,
    r: bool,
)
    requires
        call_ensures(device::partition_node, (disk, index), node),
        call_ensures(device::is_partition_of, (name, disk), r),
        name@ == node@,
    ensures
        r,
        node@ == disk@ + numbers::decimal(index as nat) || node@ == disk@ + seq!['p']
            + numbers::decimal(index as nat),
{
    device::partition_names_are_recognised(disk@, index as nat);
    system_laws::partitions_are_named_after_their_disk(disk@, index as nat);
}

/// A busy device is asked five times, and a node is looked for forty times.
pub proof fn waiting_comes_to_an_end(
    attempt: u32,
    s: RereadStep,
    polls: u32,
    w: WaitStep,
)
    requires
        call_ensures(
            device::reread_partitions,
            (attempt, RereadReply::Failed(Some(16i32))),
            s,
        ),
        call_ensures(device::wait_for_node, (polls, false), w),
    ensures
        attempt < 4 ==> s is Retry,
        attempt == 4 ==> s is GiveUp,
        polls < 40 ==> w is Wait,
        polls >= 40 ==> w is GiveUp,
{
}

/// Devices are used with the sector size that was given for them.
pub proof fn sector_sizes_are_those_given(
    platform: Platform,
    n: i64,
    physical: u32,
    logical: u64,
    write: u64,
)
    requires
        call_ensures(device::logical_sector_size, (platform, Some(n)), logical),
        call_ensures(device::get_sector_size, (platform, Some(n), Some(physical)), write),
    ensures
        (platform is Linux || platform is MacOs) && n > 0 ==> logical == n,
        n <= 0 ==> logical == 512,
        !(platform is Windows) ==> write == logical,
        platform is Windows && physical > 0 ==> write == physical,
        platform is Windows && physical == 0 ==> write == 512,
{
    system_laws::sectors_have_the_size_that_was_given(platform, n);
    system_laws::writes_respect_the_right_sectors(platform, Some(n), Some(physical));
}

/// A partition is found mounted exactly if the first word of a line names it.
pub proof fn mounted_partitions_are_found(
    mounts: &str,
    more: &str,
    line: Seq<char>,
    dev: &str,
    r: Vec<String>,
    s: Vec<String>,
)
    requires
        call_ensures(device::mounted_partitions, (mounts, dev), r),
        call_ensures(device::mounted_partitions, (more, dev), s),
        fields::lines(more@) == fields::lines(mounts@).push(line),
    ensures
        fields::lines(mounts@).len() == 0 ==> r@.len() == 0,
        device::names_partition(fields::first_word(line), dev@) ==> fields::texts(s@)
            == fields::texts(r@).push(fields::first_word(line)),
        !device::names_partition(fields::first_word(line), dev@) ==> fields::texts(s@)
            == fields::texts(r@),
{
    system_laws::every_mounted_partition_is_found(fields::lines(mounts@), line, dev@);
    if fields::lines(mounts@).len() == 0 {
        assert(fields::lines(mounts@) =~= Seq::<Seq<char>>::empty());
        assert(fields::texts(r@).len() == r@.len());
    }
}

/// The number of a drive is read from its name, and a volume is opened by its name without the
/// backslash at its end.
pub proof fn drives_and_volumes_are_known_by_name(
    front: Seq<char>,
    n: u32,
    target: &str,
    number: Option<u32>,
    vol: &str,
    name: String,
)
    requires
        target@ == front + "PhysicalDrive"@ + numbers::decimal(n as nat),
        call_ensures(device::physical_drive_number, (target,), number),
        call_ensures(device::open_volume_name, (vol,), name),
    ensures
        number == Some(n),
        vol@.len() > 0 && vol@.last() != '\\' ==> name@ == vol@,
        name@.len() > 0 ==> name@.last() != '\\',
        name@.len() <= vol@.len(),
        name@ == vol@.take(name@.len() as int),
        forall|i: int| name@.len() <= i < vol@.len() ==> vol@[i] == '\\',
{
    system_laws::drive_numbers_read_back(front, n);
    lemma_volume_node(vol@);
}

proof fn lemma_volume_node(vol: Seq<char>)
    ensures
        ({
            let name = device::volume_node(vol);
            &&& name.len() > 0 ==> name.last() != '\\'
            &&& name.len() <= vol.len()
            &&& name == vol.take(name.len() as int)
            &&& forall|i: int| name.len() <= i < vol.len() ==> vol[i] == '\\'
        }),
    decreases vol.len(),
{
    if vol.len() > 0 && vol.last() == '\\' {
        lemma_volume_node(vol.drop_last());
        let name = device::volume_node(vol);
        assert(name =~= vol.take(name.len() as int));
        assert forall|i: int| name.len() <= i < vol.len() implies vol[i] == '\\' by {
            if i < vol.len() - 1 {
                assert(vol.drop_last()[i] == vol[i]);
            }
        }
    } else {
        assert(vol =~= vol.take(vol.len() as int));
    }
}

/// Seeking counts from the start, the end or the place that was reached, and never leads before
/// the start.
pub proof fn seeking_leads_where_it_says(
    x: u64,
    d: i64,
    pos: u64,
    len: u64,
    a: Result<u64, SeekError>,
    b: Result<u64, SeekError>,
    c: Result<u64, SeekError>,
    back: bool,
)
    requires
        x < 0x8000_0000_0000_0000,
        pos < 0x8000_0000_0000_0000,
        len < 0x8000_0000_0000_0000,
        call_ensures(position::resolve_seek, (SeekTo::Start(x), pos, len), a),
        call_ensures(position::resolve_seek, (SeekTo::End(d), pos, len), b),
        call_ensures(position::resolve_seek, (SeekTo::Current(d), pos, len), c),
        call_ensures(position::can_seek, (SeekTo::Current(d), pos, len), back),
    ensures
        a matches Ok(p) && p == x,
        len + d >= 0 ==> (b matches Ok(p) && p == len + d),
        len + d < 0 ==> b == Err::<u64, SeekError>(SeekError::Negative),
        pos + d >= 0 ==> (c matches Ok(p) && p == pos + d),
        pos + d < 0 ==> c == Err::<u64, SeekError>(SeekError::Negative),
        back <==> pos + d < 0x8000_0000_0000_0000,
{
    system_laws::seeks_lead_where_they_say(x, d, pos, len);
}

/// The disks of a listing are the words that begin lines like `/dev/disk0 (internal):`.
pub proof fn disks_are_found_in_the_listing(
    list: &str,
    more: &str,
    left: Seq<char>,
    name: Seq<char>,
    rest: Seq<char>,
    r: Vec<String>,
    s: Vec<String>,
)
    requires
        call_ensures(list::diskutil_paths, (list,), r),
        call_ensures(list::diskutil_paths, (more,), s),
        fields::lines(more@) == fields::lines(list@).push(left + ("/dev/disk"@ + name) + rest),
        text_laws::all_white(left),
        forall|i: int| 0 <= i < name.len() ==> !text::is_white(#[trigger] name[i]),
        rest.len() > 0 ==> text::is_white(rest[0]),
    ensures
        fields::texts(s@) == fields::texts(r@).push("/dev/disk"@ + name),
{
    let none = Seq::<char>::empty();
    assert(!text::starts_with(text::trim(none), "/dev/disk"@)) by {
        reveal_strlit("/dev/disk");
        text_laws::trimmed_text_stays(none);
        text_laws::starts_and_ends_are_parts(none, "/dev/disk"@, none);
    }
    list_laws::disks_are_introduced_by_their_path(fields::lines(list@), left, name, rest, none);
}

/// Every device has a row in the table; without devices there is none, and a hint on Windows.
pub proof fn tables_show_every_device(
    devices: &[UsbDevice],
    windows: bool,
    r: String,
    i: int,
)
    requires
        call_ensures(table::device_table, (devices, windows), r),
        0 <= i < devices@.len() || devices@.len() == 0,
    ensures
        devices@.len() > 0 ==> exists|a: Seq<char>, b: Seq<char>, c: Seq<char>, d: Seq<char>|
            r@ == #[trigger] (a + devices@[i].path@ + b + devices@[i].size_human@ + c
                + devices@[i].model@ + d),
        devices@.len() == 0 && !windows ==> r@ == "No storage devices found.\n"@,
        devices@.len() == 0 && windows ==> r@ == "No storage devices found.\n"@
            + "If a drive is plugged in, re-run with --verbose to see why each device was skipped.\n"@,
{
    let d = list::device_views(devices@);
    if devices@.len() > 0 {
        list_laws::every_device_has_its_row(d, windows, i);
        let w = table::column_width(d.map_values(|x: DeviceView| x.path), 6);
        let s = table::column_width(d.map_values(|x: DeviceView| x.size_human), 8);
        let m = table::column_width(d.map_values(|x: DeviceView| x.model), 5);
        let row = table::filled(d[i].path, ' ', w) + "  "@ + table::filled(d[i].size_human, ' ', s)
            + "  "@ + table::filled(d[i].model, ' ', m) + "\n"@;
        let (before, behind) = choose|before: Seq<char>, behind: Seq<char>|
            r@ == #[trigger] (before + row + behind);
        let x = table::filled(d[i].path, ' ', w);
        let y = table::filled(d[i].size_human, ' ', s);
        let z = table::filled(d[i].model, ' ', m);
        assert(d[i] == devices@[i]@);
        lemma_filled(d[i].path, w);
        lemma_filled(d[i].size_human, s);
        lemma_filled(d[i].model, m);
        lemma_row(
            before,
            d[i].path,
            x.skip(d[i].path.len() as int),
            d[i].size_human,
            y.skip(d[i].size_human.len() as int),
            d[i].model,
            z.skip(d[i].model.len() as int),
            behind,
        );
    }
}

proof fn lemma_filled(s: Seq<char>, width: nat)
    ensures
        table::filled(s, ' ', width) == s + table::filled(s, ' ', width).skip(s.len() as int),
{
    assert(table::filled(s, ' ', width) =~= s + table::filled(s, ' ', width).skip(s.len() as int));
}

proof fn lemma_row(
    before: Seq<char>,
    a: Seq<char>,
    p: Seq<char>,
    b: Seq<char>,
    q: Seq<char>,
    c: Seq<char>,
    t: Seq<char>,
    behind: Seq<char>,
)
    ensures
        before + ((a + p) + "  "@ + (b + q) + "  "@ + (c + t) + "\n"@) + behind == before + a + (p
            + "  "@) + b + (q + "  "@) + c + (t + "\n"@ + behind),
{
    assert(before + ((a + p) + "  "@ + (b + q) + "  "@ + (c + t) + "\n"@) + behind =~= before + a
        + (p + "  "@) + b + (q + "  "@) + c + (t + "\n"@ + behind));
}

/// The root of a volume is its drive letter, a colon and a backslash.
pub proof fn volumes_have_their_letter_as_root(out: &str, r: Option<String>)
    requires
        call_ensures(device::volume_root, (out,), r),
    ensures
        r matches Some(s) ==> text::trim(out@).len() > 0 && s@ == seq![
            text::trim(out@)[0],
            ':',
            '\\',
        ],
        r is None ==> text::trim(out@).len() == 0,
{
    reveal_strlit(":\\");
    if let Some(s) = r {
        assert(s@ =~= seq![text::trim(out@)[0], ':', '\\']);
    }
}

// ---------------------------------------------------------------------------------------
// The system
// ---------------------------------------------------------------------------------------

/// Root may write on Unix, an elevated process on Windows, and anyone elsewhere.
pub proof fn root_may_write(platform: Platform, euid: u32, elevated: bool, r: bool)
    requires
        call_ensures(privilege::is_privileged, (platform, euid, elevated), r),
    ensures
        platform is Linux || platform is MacOs || platform is Unix ==> r == (euid == 0),
        platform is Windows ==> r == elevated,
        platform is Other ==> r,
{
}

/// A file can be executed if one of its three permission bits for that is set.
pub proof fn executables_have_a_permission_bit(is_file: bool, mode: u32, r: bool)
    requires
        call_ensures(privilege::is_executable, (is_file, mode), r),
    ensures
        !is_file ==> !r,
        is_file ==> (r <==> mode & 1 == 1 || (mode >> 3u32) & 1 == 1 || (mode >> 6u32) & 1 == 1),
{
    assert(mode & 0o111 != 0 <==> mode & 1 == 1 || (mode >> 3u32) & 1 == 1 || (mode >> 6u32) & 1
        == 1) by (bit_vector);
}

/// A tool that was asked for is used or nothing is; without a request the first one that works.
pub proof fn tools_asked_for_are_used(
    platform: Platform,
    tool: String,
    works: bool,
    usable: &Vec<bool>,
    r: Elevation,
    s: Elevation,
    k: int,
)
    requires
        call_ensures(privilege::unix_elevate, (platform, Some((tool, works)), usable), r),
        call_ensures(privilege::unix_elevate, (platform, None, usable), s),
        usable@.len() == privilege::candidate_names(platform).len(),
        0 <= k <= usable@.len(),
        forall|i: int| 0 <= i < k ==> !#[trigger] usable@[i],
        k < usable@.len() ==> usable@[k],
    ensures
        works ==> (r matches Elevation::Relaunch { tool: t } && t@ == tool@),
        !works ==> r is GiveUp,
        k < usable@.len() ==> (s matches Elevation::Relaunch { tool: t } && t@
            == privilege::candidate_names(platform)[k]),
        k == usable@.len() ==> s is GiveUp,
{
    system_laws::the_first_usable_tool_is_used(
        privilege::candidate_names(platform),
        usable@,
        k,
    );
}

/// Messages go where they were asked to: to no file where logging is off, else to the one that
/// was named or the default one; debug messages only on request.
pub proof fn logs_go_where_they_were_asked_to(
    enabled: bool,
    verbose: bool,
    custom: Option<String>,
    default: Option<LogPath>,
    p: LogPlan,
)
    requires
        call_ensures(logger::init, (enabled, verbose, custom, default), p),
    ensures
        !enabled ==> p == (LogPlan::Stderr { level: Level::Warn, homeless: false }),
        enabled && custom is Some ==> (p matches LogPlan::Custom { path, level } && Some(path)
            == custom && (level is Debug <==> verbose) && !(level is Warn)),
        enabled && custom is None && default is Some ==> (p matches LogPlan::Default {
            place,
            level,
        } && Some(place) == default && (level is Debug <==> verbose) && !(level is Warn)),
        enabled && custom is None && default is None ==> (p matches LogPlan::Stderr {
            level,
            homeless,
        } && homeless && (level is Debug <==> verbose) && !(level is Warn)),
{
}

/// The default log stands in the home directory that was found, under the name of the time.
pub proof fn logs_are_named_by_the_time(
    home: Option<String>,
    t: LocalTime,
    platform: Platform,
    r: Option<LogPath>,
)
    requires
        t.exists_in_calendar(),
        call_ensures(logger::log_path, (home, &t, platform), r),
    ensures
        r is Some <==> home is Some,
        r matches Some(p) ==> {
            let n = p.file@;
            &&& Some(p.dir) == home
            &&& n.len() == 28
            &&& n.take(7) == "bufusb-"@
            &&& numbers::digits_value(n.subrange(7, 9)) == t.month
            &&& numbers::digits_value(n.subrange(10, 12)) == t.day
            &&& numbers::digits_value(n.subrange(13, 15)) == t.year as int % 100
            &&& numbers::digits_value(n.subrange(16, 18)) == t.hour
            &&& numbers::digits_value(n.subrange(19, 21)) == t.minute
            &&& numbers::digits_value(n.subrange(22, 24)) == t.second
            &&& n[18] == if platform is Windows {
                '-'
            } else {
                ':'
            }
        },
{
    system_laws::log_names_give_back_the_time(t, platform is Windows);
}

/// A line of the log begins with its stamp, which gives back the time, and ends in its message.
pub proof fn log_lines_begin_with_the_time(
    t: LocalTime,
    millis: u32,
    stamp: String,
    shown: &str,
    level: &str,
    target: &str,
    message: &str,
    r: String,
)
    requires
        t.exists_in_calendar(),
        0 <= t.year <= 9999,
        millis <= 999,
        level@.len() <= 5,
        call_ensures(logger::log_stamp, (&t, millis), stamp),
        shown@ == stamp@,
        call_ensures(logger::log_line, (shown, level, target, message), r),
    ensures
        r@.subrange(1, 24) == stamp@,
        numbers::digits_value(stamp@.subrange(0, 4)) == t.year,
        numbers::digits_value(stamp@.subrange(5, 7)) == t.month,
        numbers::digits_value(stamp@.subrange(8, 10)) == t.day,
        numbers::digits_value(stamp@.subrange(11, 13)) == t.hour,
        numbers::digits_value(stamp@.subrange(14, 16)) == t.minute,
        numbers::digits_value(stamp@.subrange(17, 19)) == t.second,
        numbers::digits_value(stamp@.subrange(20, 23)) == millis,
        r@.skip(37 + target@.len() as int) == message@,
        r@.subrange(27, 27 + level@.len() as int) == level@,
        r@.subrange(35, 35 + target@.len() as int) == target@,
{
    system_laws::stamps_give_back_the_time(t, millis);
    system_laws::log_lines_hold_every_part(stamp@, level@, target@, message@);
}

/// The times that can be logged are those of the calendar, and the standard error stream shows
/// warnings whatever the plan.
pub proof fn logging_knows_the_calendar(t: LocalTime, r: bool, plan: LogPlan, l: Level)
    requires
        call_ensures(LocalTime::is_valid, (&t,), r),
        call_ensures(LogPlan::stderr_level, (&plan,), l),
    ensures
        r ==> t.month == 2 ==> t.day <= 29,
        r ==> 1 <= t.month <= 12 && 1 <= t.day <= 31 && t.hour < 24 && t.minute < 60 && t.second
            < 60,
        1 <= t.month <= 12 && 1 <= t.day <= 28 && t.hour < 24 && t.minute < 60 && t.second < 60
            && -262_143 <= t.year <= 262_142 ==> r,
        t.month == 2 && t.day == 29 && t.year as int % 4 != 0 ==> !r,
        plan matches LogPlan::Stderr { level, .. } ==> l == level,
        !(plan is Stderr) ==> l is Warn,
{
}

/// Homes: that of the caller who used sudo, where it can be found; else the one that is set.
pub proof fn homes_are_those_of_the_caller(
    platform: Platform,
    user: &str,
    passwd: &str,
    home: Option<&str>,
    profile: Option<&str>,
    listed: Option<String>,
    r: Option<String>,
    plain: Option<String>,
)
    requires
        call_ensures(logger::passwd_home, (passwd, user), listed),
        call_ensures(
            logger::home_dir,
            (platform, Some(user), Some(passwd), home, profile),
            r,
        ),
        call_ensures(logger::home_dir, (platform, None, None, home, profile), plain),
    ensures
        (platform is Linux || platform is MacOs || platform is Unix) && listed is Some ==> r is Some
            && r->0@ == listed->0@,
        platform is Windows || platform is Other || listed is None ==> match plain {
            Some(s) => r is Some && r->0@ == s@,
            None => r is None,
        },
        home matches Some(s) ==> plain is Some && plain->0@ == s@,
        home is None ==> match profile {
            Some(s) => plain is Some && plain->0@ == s@,
            None => plain is None,
        },
{
    system_laws::callers_keep_their_home(
        platform,
        user@,
        passwd@,
        logger::opt_view(home),
        logger::opt_view(profile),
    );
}

/// A tool that is named by a path is looked for there, any other in each directory of the search
/// path.
pub proof fn tools_are_looked_for_in_the_search_path(
    cmd: &str,
    first: Seq<char>,
    rest: Seq<char>,
    path: &str,
    r: Places,
    none: Places,
)
    requires
        call_ensures(privilege::places, (cmd, Some(path)), r),
        call_ensures(privilege::places, (cmd, None), none),
        path@ == first + seq![':'] + rest,
        !first.contains(':'),
    ensures
        cmd@.contains('/') <==> r is Itself,
        cmd@.contains('/') <==> none is Itself,
        none matches Places::Directories(d) ==> d@.len() == 0,
        r matches Places::Directories(d) ==> fields::texts(d@) == seq![first] + fields::split(
            rest,
            ':',
        ),
{
    text_laws::splitting_cuts_at_each_separator(first, ':', rest);
    if let Places::Directories(d) = none {
        assert(fields::texts(d@).len() == d@.len());
    }
}

/// A request for a tool holds its name, without the white space around it.
pub proof fn requested_tools_are_trimmed(
    left: Seq<char>,
    name: Seq<char>,
    right: Seq<char>,
    var: &str,
    r: Option<String>,
)
    requires
        text_laws::all_white(left),
        text_laws::all_white(right),
        text_laws::is_trimmed(name),
        var@ == left + name + right,
        call_ensures(privilege::requested_tool, (Some(var),), r),
    ensures
        r is Some <==> name.len() > 0,
        r matches Some(s) ==> s@ == name,
{
    system_laws::requests_for_a_tool_are_trimmed(left, name, right);
}

/// A registry value is the text of its code units, without the zero at its end and the white
/// space at both.
pub proof fn registry_values_read_back(s: Seq<char>, rest: Seq<u8>, buf: &[u8], r: String)
    requires
        call_ensures(wide::registry_text, (buf,), r),
        buf@ == gpt::le_units(gpt::utf16(s)) + seq![0u8, 0u8] + rest,
        !s.contains('\0'),
        text_laws::is_trimmed(s),
    ensures
        r@ == s,
{
    lemma_units_nonzero(s);
    lemma_units_back(gpt::utf16(s), rest);
    wide::utf16_round_trip(s);
    text_laws::trimmed_text_stays(s);
}

proof fn lemma_units_nonzero(s: Seq<char>)
    requires
        !s.contains('\0'),
    ensures
        forall|i: int| 0 <= i < gpt::utf16(s).len() ==> #[trigger] gpt::utf16(s)[i] != 0,
    decreases s.len(),
{
    if s.len() > 0 {
        let front = s.drop_last();
        assert forall|i: int| 0 <= i < front.len() implies front[i] != '\0' by {
            assert(s.contains(s[i]));
        }
        lemma_units_nonzero(front);
        assert(s.contains(s[s.len() - 1]));
        lemma_units_of(s.last());
        let (u, v) = (gpt::utf16(front), gpt::utf16_units(s.last()));
        assert(gpt::utf16(s) == u + v);
        assert forall|i: int| 0 <= i < gpt::utf16(s).len() implies #[trigger] gpt::utf16(s)[i]
            != 0 by {
            if i < u.len() {
                assert(u[i] != 0);
            } else {
                assert(v[i - u.len()] != 0);
            }
        }
    }
}

proof fn lemma_units_of(c: char)
    requires
        c != '\0',
    ensures
        forall|i: int| 0 <= i < gpt::utf16_units(c).len() ==> #[trigger] gpt::utf16_units(c)[i]
            != 0,
{
}

proof fn lemma_units_back(u: Seq<u16>, rest: Seq<u8>)
    requires
        forall|i: int| 0 <= i < u.len() ==> #[trigger] u[i] != 0,
    ensures
        wide::units_in(gpt::le_units(u) + seq![0u8, 0u8] + rest) == u,
    decreases u.len(),
{
    let zero = seq![0u8, 0u8];
    if u.len() == 0 {
        assert(gpt::le_units(u) + zero + rest =~= zero + rest);
        system_laws::units_are_read_up_to_a_zero(0, 0, rest, rest);
        assert(u =~= Seq::<u16>::empty());
    } else {
        let first = bytes::le_bytes(u[0] as nat, 2);
        let tail = u.drop_first();
        bytes::lemma_byte_ranges();
        bytes::le_round_trip(u[0] as nat, 2);
        text_laws::numbers_stand_lowest_byte_first(first);
        lemma_le_units_front(u);
        let b = gpt::le_units(tail) + zero + rest;
        assert(first =~= seq![first[0], first[1]]);
        assert(gpt::le_units(u) + zero + rest =~= seq![first[0], first[1]] + b);
        assert forall|i: int| 0 <= i < tail.len() implies #[trigger] tail[i] != 0 by {
            assert(u[i + 1] != 0);
        }
        lemma_units_back(tail, rest);
        system_laws::units_are_read_up_to_a_zero(first[0], first[1], b, b);
        assert(u[0] != 0);
        assert(seq![u[0]] + tail =~= u);
    }
}

proof fn lemma_le_units_front(u: Seq<u16>)
    requires
        u.len() > 0,
    ensures
        gpt::le_units(u) == bytes::le_bytes(u[0] as nat, 2) + gpt::le_units(u.drop_first()),
    decreases u.len(),
{
    if u.len() == 1 {
        assert(u.drop_last() =~= Seq::<u16>::empty());
        assert(u.drop_first() =~= Seq::<u16>::empty());
        assert(gpt::le_units(u) =~= bytes::le_bytes(u[0] as nat, 2) + gpt::le_units(u.drop_first()));
    } else {
        lemma_le_units_front(u.drop_last());
        assert(u.drop_last().drop_first() =~= u.drop_first().drop_last());
        assert(gpt::le_units(u) =~= bytes::le_bytes(u[0] as nat, 2) + gpt::le_units(u.drop_first()));
    }
}

} // verus!
