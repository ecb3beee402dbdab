//! What holds of every layout and of every request: how much of a device is used, which devices
//! are refused, and what is told about it.

use vstd::arithmetic::power2;
use vstd::prelude::*;

use crate::copy;
use crate::copy::{CopyError, Layout, RunStep};
use crate::device::FileKind;
use crate::human;
use crate::label;
use crate::ntfs;
use crate::ntfs::{NtfsError, NtfsLayout};
use crate::numbers;
use crate::platform::Platform;
use crate::tree;
use crate::tree::{FoundFile, Scan};
use crate::validate;
use crate::validate::{SourceFacts, TargetFacts, ValidateError, WriteParams};

verus! {

// ---------------------------------------------------------------------------------------
// The layout with a FAT32 partition
// ---------------------------------------------------------------------------------------

/// The sector sizes that FAT32 knows.
pub open spec fn fat_sector(sector: u64) -> bool {
    sector == 512 || sector == 1024 || sector == 2048 || sector == 4096
}

proof fn lemma_supported(sector: u64)
    ensures
        copy::supported_sector(sector) <==> fat_sector(sector),
{
    reveal_with_fuel(power2::is_pow2, 14);
}

/// A layout uses the whole device: it counts every whole sector, its partition starts at 1 MiB
/// and ends where the backup table begins, 16 KiB and a sector before the end.
pub proof fn layouts_use_the_whole_device(sector: u64, n: u64, l: Layout)
    requires
        copy::layout_of(sector, Some(n)) == Ok::<Layout, CopyError>(l),
    ensures
        fat_sector(sector),
        l.sector == sector,
        l.total_sectors * sector <= n < (l.total_sectors + 1) * sector,
        l.align_lba * sector == 1_048_576,
        (l.align_lba + l.part_sectors) * sector + 16_384 + sector == l.total_sectors * sector,
{
    lemma_supported(sector);
}

/// Every device of a sector size that FAT32 knows gets a layout, if it has room for 1 MiB, the
/// backup table and more than 64 MiB between them; no other device does, and each is told what
/// stands against it.
pub proof fn devices_with_room_get_a_layout(sector: u64, n: u64)
    ensures
        match copy::layout_of(sector, Some(n)) {
            Ok(_) => fat_sector(sector) && n >= 68_157_440 + 16_384 + 2 * sector,
            Err(CopyError::UnsupportedSector { sector: s }) => s == sector && !fat_sector(sector),
            Err(CopyError::SizeUnknown) => fat_sector(sector) && n == 0,
            Err(CopyError::TooSmall) => fat_sector(sector) && 0 < n < 68_157_440 + 16_384 + 2
                * sector,
            Err(_) => false,
        },
        match copy::layout_of(sector, None) {
            Err(CopyError::UnsupportedSector { sector: s }) => s == sector && !fat_sector(sector),
            Err(CopyError::SizeFailed) => fat_sector(sector),
            _ => false,
        },
{
    lemma_supported(sector);
}

/// A larger device never gets a smaller partition.
pub proof fn larger_devices_hold_more(sector: u64, n: u64, m: u64, l: Layout, k: Layout)
    requires
        copy::layout_of(sector, Some(n)) == Ok::<Layout, CopyError>(l),
        copy::layout_of(sector, Some(m)) == Ok::<Layout, CopyError>(k),
        n <= m,
    ensures
        l.part_sectors <= k.part_sectors,
        m - n < sector ==> k.part_sectors <= l.part_sectors + 1,
{
    lemma_supported(sector);
}

/// FAT32 holds files of less than 4 GiB. Larger ones lead to the NTFS layout where there is one,
/// and are refused elsewhere, with their size.
pub proof fn files_of_four_gib_are_too_large(platform: Platform, max_file: u64)
    ensures
        max_file > copy::FAT32_MAX_FILE <==> max_file >= 0x1_0000_0000,
        platform is Linux || platform is Windows ==> copy::oversized_step(platform, max_file)
            is NtfsFallback,
        !(platform is Linux || platform is Windows) ==> copy::oversized_step(platform, max_file)
            == RunStep::Refuse(CopyError::FileTooLarge { max_file, platform }),
{
}

pub open spec fn upper(c: char) -> char {
    if 'a' <= c <= 'z' {
        ((c as u32 - 32) as u32) as char
    } else {
        c
    }
}

/// A label of up to 11 characters is used as it is. Of a longer one FAT keeps the first 11 in
/// capitals, without the spaces at their end; if it was asked for, a note says so.
pub proof fn long_labels_keep_eleven_characters(label: Seq<char>, explicit: bool, i: int)
    requires
        label::all_allowed(label),
        0 <= i < 11,
    ensures
        label.len() <= 11 ==> copy::used_label(label) == label && copy::label_note(label, explicit)
            == Seq::<char>::empty(),
        label.len() > 11 ==> {
            let used = copy::used_label(label);
            &&& used.len() <= 11
            &&& i < used.len() ==> used[i] == upper(label[i])
            &&& i >= used.len() ==> label[i] == ' '
            &&& used.len() > 0 ==> used.last() != ' '
            &&& explicit ==> mentions(copy::label_note(label, explicit), used)
            &&& !explicit ==> copy::label_note(label, explicit) == Seq::<char>::empty()
        },
{
    if label.len() > 11 {
        let used = copy::used_label(label);
        label::lemma_short_label(label, i);
        if explicit {
            lemma_mentions(
                copy::label_note(label, explicit),
                "note: FAT32 labels are 11 characters, using '"@,
                used,
                "'\n"@,
            );
        }
    }
}

// ---------------------------------------------------------------------------------------
// The layout with an NTFS partition
// ---------------------------------------------------------------------------------------

/// The layout counts every whole sector of 512 bytes. The loader's partition has just the sectors
/// that the loader takes and ends 33 sectors before the end; the one for the files fills
/// everything between 1 MiB and the loader.
pub proof fn ntfs_layouts_use_the_whole_device(n: u64, loader_len: nat, l: NtfsLayout)
    requires
        ntfs::layout_of(Some(n), loader_len) == Ok::<NtfsLayout, NtfsError>(l),
    ensures
        l.total_sectors * 512 <= n < (l.total_sectors + 1) * 512,
        loader_len <= l.loader_sectors * 512 < loader_len + 512,
        2048 + l.ntfs_sectors + l.loader_sectors + 33 == l.total_sectors,
        ntfs::ALIGN_LBA * ntfs::SECTOR == 1_048_576,
        ntfs::SECTOR == 512,
{
}

/// Every device gets that layout that has room for 1 MiB, the backup table, the loader and more
/// than 64 MiB of files; no other does.
pub proof fn devices_with_room_get_an_ntfs_layout(n: u64, loader_len: nat, loader: nat)
    requires
        loader_len <= loader * 512 < loader_len + 512,
    ensures
        match ntfs::layout_of(Some(n), loader_len) {
            Ok(_) => n >= 68_157_440 + 34 * 512 + loader * 512,
            Err(NtfsError::SizeUnknown) => n == 0,
            Err(NtfsError::TooSmall) => 0 < n < 68_157_440 + 34 * 512 + loader * 512,
            Err(_) => false,
        },
        ntfs::layout_of(None, loader_len) == Err::<NtfsLayout, NtfsError>(NtfsError::SizeFailed),
{
}

// ---------------------------------------------------------------------------------------
// Requests to write an image as it is
// ---------------------------------------------------------------------------------------

/// A request is accepted exactly if nothing stands against it: blocks of 1 byte to 256 MiB, an
/// offset of whole sectors, a source that is there, of a kind that can be read from and not
/// empty, and a target that is there, can be written to and has room behind the offset.
pub proof fn requests_are_refused_for_a_reason(
    p: WriteParams,
    platform: Platform,
    sector: u64,
    s: SourceFacts,
    t: TargetFacts,
)
    requires
        sector > 0,
    ensures
        validate::problem(p, platform, sector, s, t) is None <==> {
            &&& 1 <= p.block_size <= 268_435_456
            &&& p.offset % sector == 0
            &&& s.is_there
            &&& s.kind matches Some(k) && (k is Regular || ((k is BlockDevice || k is CharDevice)
                && (platform is Linux || platform is MacOs || platform is Unix)))
            &&& s.size matches Some(n) && n > 0
            &&& t.is_there || platform is Windows
            &&& t.has_metadata || platform is Windows || platform is Other
            &&& t.opened
            &&& t.size matches Some(m) && (m == 0 || p.offset + s.size->0 <= m)
        },
{
}

/// What a refusal names is what stands against the request.
pub proof fn refusals_name_what_is_wrong(
    p: WriteParams,
    platform: Platform,
    sector: u64,
    s: SourceFacts,
    t: TargetFacts,
    e: ValidateError,
)
    requires
        sector > 0,
        validate::problem(p, platform, sector, s, t) == Some(e),
    ensures
        match e {
            ValidateError::BlockSizeZero => p.block_size == 0,
            ValidateError::BlockSizeTooLarge => p.block_size > 268_435_456,
            ValidateError::OffsetUnaligned { sector: n } => n == sector && p.offset % sector != 0,
            ValidateError::SourceMissing => !s.is_there,
            ValidateError::SourceMetadata => s.is_there && s.kind is None,
            ValidateError::SourceNotFileOrDevice => (platform is Linux || platform is MacOs
                || platform is Unix) && s.kind == Some(FileKind::Other),
            ValidateError::SourceNotFile => (platform is Windows || platform is Other)
                && s.kind is Some && s.kind != Some(FileKind::Regular),
            ValidateError::SourceSize => s.kind is Some && s.size is None,
            ValidateError::SourceEmpty => s.size == Some(0u64),
            ValidateError::TargetMissing => !t.is_there && !(platform is Windows),
            ValidateError::TargetMetadata => !t.has_metadata && (platform is Linux
                || platform is MacOs || platform is Unix),
            ValidateError::TargetOpen => !t.opened,
            ValidateError::TargetSize => t.opened && t.size is None,
            ValidateError::SourceTooLarge { source_size, target_size, available } => {
                &&& s.size == Some(source_size)
                &&& t.size == Some(target_size)
                &&& target_size > 0
                &&& available < source_size
                &&& target_size >= p.offset ==> available + p.offset == target_size
                &&& target_size < p.offset ==> available == 0
            },
        },
{
}

// ---------------------------------------------------------------------------------------
// Scans
// ---------------------------------------------------------------------------------------

/// One more file adds its length and itself to what a scan says, and nothing else changes but
/// for the largest file and the boot loader, if it is one.
pub proof fn scans_count_every_file(files: Seq<FoundFile>, f: FoundFile, s: Scan, t: Scan)
    requires
        tree::is_scan_of(s, files),
        tree::is_scan_of(t, files.push(f)),
    ensures
        t.total_bytes == s.total_bytes + f.len,
        t.file_count == s.file_count + 1,
        t.max_file == if f.len > s.max_file {
            f.len
        } else {
            s.max_file
        },
        t.has_efi_boot == (s.has_efi_boot || tree::is_loader(
            crate::fields::texts(f.comps@),
        )),
{
    let all = files.push(f);
    assert(all.drop_last() =~= files);
    assert(all[files.len() as int] == f);
    assert forall|i: int| 0 <= i < files.len() implies files[i] == all[i] by {}
    if t.max_file != 0 {
        let i = choose|i: int| 0 <= i < all.len() && (#[trigger] all[i]).len == t.max_file;
        if i < files.len() {
            assert(files[i].len <= s.max_file);
        }
    }
    if s.max_file != 0 {
        let i = choose|i: int| 0 <= i < files.len() && (#[trigger] files[i]).len == s.max_file;
        assert(all[i].len <= t.max_file);
    }
    if s.has_efi_boot {
        let i = choose|i: int|
            0 <= i < files.len() && tree::is_loader(
                crate::fields::texts((#[trigger] files[i]).comps@),
            );
        assert(tree::is_loader(crate::fields::texts(all[i].comps@)));
    }
    if t.has_efi_boot {
        let i = choose|i: int|
            0 <= i < all.len() && tree::is_loader(
                crate::fields::texts((#[trigger] all[i]).comps@),
            );
        if i < files.len() {
            assert(tree::is_loader(crate::fields::texts(files[i].comps@)));
        }
    }
}

/// An image without files has nothing to count.
pub proof fn empty_scans_are_zero(s: Scan)
    requires
        tree::is_scan_of(s, Seq::empty()),
    ensures
        s == (Scan { total_bytes: 0, max_file: 0, file_count: 0, has_efi_boot: false }),
{
}

// ---------------------------------------------------------------------------------------
// What is told
// ---------------------------------------------------------------------------------------

/// Whether `part` stands somewhere in a text.
pub open spec fn mentions(text: Seq<char>, part: Seq<char>) -> bool {
    exists|a: Seq<char>, b: Seq<char>| text == #[trigger] (a + part + b)
}

proof fn lemma_mentions(text: Seq<char>, a: Seq<char>, part: Seq<char>, b: Seq<char>)
    requires
        text =~= a + part + b,
    ensures
        mentions(text, part),
{
}

/// A size below 1 KiB is shown as it is. A larger one is shown in the largest of the units GiB,
/// MiB and KiB that it reaches, to the nearest hundredth, and between two hundredths to the even
/// one. Sizes that a double cannot hold are off by no more than what it loses.
pub proof fn sizes_are_shown_to_the_nearest_hundredth(n: nat)
    requires
        n <= u64::MAX,
    ensures
        n < 0x400 ==> human::human(n) == numbers::decimal(n) + " B"@,
        0x400 <= n < 0x10_0000 ==> shown_in(human::human(n), n, 0x400, " KiB"@),
        0x10_0000 <= n < 0x4000_0000 ==> shown_in(human::human(n), n, 0x10_0000, " MiB"@),
        0x4000_0000 <= n ==> shown_in(human::human(n), n, 0x4000_0000, " GiB"@),
{
    if n >= 0x4000_0000 {
        lemma_shown(n, 0x4000_0000, " GiB"@);
    } else if n >= 0x10_0000 {
        lemma_shown(n, 0x10_0000, " MiB"@);
    } else if n >= 0x400 {
        lemma_shown(n, 0x400, " KiB"@);
    }
}

/// Whether a text shows `n` in the given unit: `h` hundredths of it, with two decimals.
pub open spec fn shown_in(text: Seq<char>, n: nat, unit: nat, name: Seq<char>) -> bool {
    exists|h: nat| #[trigger] shows_hundredths(text, h, name) && is_nearest(h, n, unit)
}

pub open spec fn shows_hundredths(text: Seq<char>, h: nat, name: Seq<char>) -> bool {
    text == numbers::decimal(h / 100) + "."@ + numbers::two_digits(h % 100) + name
}

/// `h` hundredths of a unit are the nearest to `n`.
pub open spec fn is_nearest(h: nat, n: nat, unit: nat) -> bool {
    let off = 2 * (h * unit - 100 * n);
    if n <= 0x20_0000_0000_0000 {
        -(unit as int) <= off <= unit && ((off == unit || off == -(unit as int)) ==> h % 2 == 0)
    } else {
        -(unit as int) - 204_800 <= off <= unit + 204_800
    }
}

proof fn lemma_nearest(x: nat, d: nat)
    requires
        d > 0,
    ensures
        -(d as int) <= 2 * (human::nearest(x, d) * d - x) <= d,
        2 * (human::nearest(x, d) * d - x) == d || 2 * (human::nearest(x, d) * d - x) == -(
        d as int) ==> human::nearest(x, d) % 2 == 0,
{
    let (a, u) = (x as int, d as int);
    let q = a / u;
    vstd::arithmetic::div_mod::lemma_fundamental_div_mod(a, u);
    assert((q + 1) * u == u * q + u && q * u == u * q) by (nonlinear_arith);
}

proof fn lemma_shown(n: nat, unit: nat, name: Seq<char>)
    requires
        n <= u64::MAX,
        0 < unit,
    ensures
        shown_in(human::in_units(n, unit) + name, n, unit, name),
{
    let step = human::double_step(n);
    let x = human::as_double(n);
    let h = human::nearest(x * 100, unit);
    assert(1 <= step <= 2048 && (n < 0x20_0000_0000_0000 ==> step == 1) && (n
        == 0x20_0000_0000_0000 ==> step == 2)) by {
        reveal_with_fuel(human::double_step, 13);
    }
    lemma_nearest(n, step);
    lemma_nearest(x * 100, unit);
    assert(n <= 0x20_0000_0000_0000 ==> x == n) by {
        if n < 0x20_0000_0000_0000 {
            assert(human::nearest(n, 1) == n);
            assert(human::nearest(n, 1) * 1 == n);
            assert(x == n);
        } else if n == 0x20_0000_0000_0000 {
            assert(n % 2 == 0 && n / 2 == 0x10_0000_0000_0000);
            assert(human::nearest(n, 2) == 0x10_0000_0000_0000);
            assert(x == human::nearest(n, 2) * 2);
            assert(human::nearest(n, 2) * 2 == 0x20_0000_0000_0000) by (nonlinear_arith)
                requires
                    human::nearest(n, 2) == 0x10_0000_0000_0000,
            ;
        }
    }
    let t = human::in_units(n, unit) + name;
    assert(t =~= numbers::decimal(h / 100) + "."@ + numbers::two_digits(h % 100) + name);
    assert(shows_hundredths(t, h, name));
}

} // verus!
