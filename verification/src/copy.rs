//! Copying an image's files onto a new FAT32 partition: the layout of the drive, what stands
//! against it, and what is told about it.

use vstd::arithmetic::power2;
use vstd::prelude::*;

use crate::align;
use crate::gpt;
use crate::gpt::{GptError, GptPlan, PartSpec};
use crate::guid;
use crate::human;
use crate::label;
pub use crate::mount::MountGuard;
use crate::numbers;
use crate::partition::{Partition, Window};
use crate::platform::Platform;
use crate::tree::Scan;
use crate::writer::ReadEvent;

verus! {

/// The largest file that FAT32 can hold, 4 GiB less one byte.
pub const FAT32_MAX_FILE: u64 = 4_294_967_295;

/// Where the first partition starts, in bytes.
pub const ALIGNMENT: u64 = 1_048_576;

/// The smallest room for a FAT32 partition, in bytes.
pub const MIN_PARTITION: u64 = 67_108_864;

/// The layout of a drive with one partition, in sectors.
#[derive(Debug, Clone, Copy, PartialEq, Eq, Structural)]
pub struct Layout {
    pub sector: u64,
    pub total_sectors: u64,
    pub align_lba: u64,
    pub part_sectors: u64,
}

#[derive(Debug, Clone, Copy, PartialEq, Eq, Structural)]
pub enum CopyError {
    UnsupportedSector { sector: u64 },
    /// The size of the target could not be asked for.
    SizeFailed,
    /// The target gave no size.
    SizeUnknown,
    TooSmall,
    /// A file is too large for FAT32, on a platform without the NTFS fallback.
    FileTooLarge { max_file: u64, platform: Platform },
}

/// Sectors at the end of the drive that the backup table takes.
pub open spec fn table_tail(sector: nat) -> nat {
    gpt::array_sectors(sector) + 1
}

/// The largest number of sectors that is too small for a partition of the least size beside the
/// tables.
pub open spec fn too_few_sectors(sector: nat) -> nat {
    ALIGNMENT as nat / sector + table_tail(sector) + MIN_PARTITION as nat / sector
}

pub open spec fn supported_sector(sector: u64) -> bool {
    power2::is_pow2(sector as int) && 512 <= sector <= 4096
}

/// The layout of a device, or what stands against it: the partition starts at 1 MiB and ends
/// where the backup table begins.
pub open spec fn layout_of(sector: u64, dev_bytes: Option<u64>) -> Result<Layout, CopyError> {
    if !supported_sector(sector) {
        Err(CopyError::UnsupportedSector { sector })
    } else {
        match dev_bytes {
            None => Err(CopyError::SizeFailed),
            Some(n) => {
                let total = n as nat / sector as nat;
                if n == 0 {
                    Err(CopyError::SizeUnknown)
                } else if total <= too_few_sectors(sector as nat) {
                    Err(CopyError::TooSmall)
                } else {
                    let first = ALIGNMENT as nat / sector as nat;
                    Ok(
                        Layout {
                            sector,
                            total_sectors: total as u64,
                            align_lba: first as u64,
                            part_sectors: (total - first - table_tail(sector as nat)) as u64,
                        },
                    )
                }
            },
        }
    }
}

/// The numbers that a layout for sectors of 512 to 4096 bytes is made of.
proof fn lemma_sector_numbers(sector: nat)
    requires
        512 <= sector <= 4096,
    ensures
        256 <= ALIGNMENT as nat / sector <= 2048,
        4 <= gpt::array_sectors(sector) <= 32,
        MIN_PARTITION as nat / sector <= 131_072,
        ALIGNMENT as nat / sector * sector <= ALIGNMENT,
{
    let s = sector as int;
    assert(256 <= ALIGNMENT as int / s <= 2048) by (nonlinear_arith)
        requires
            512 <= s <= 4096,
    ;
    assert(4 <= (16384 + s - 1) / s <= 32) by (nonlinear_arith)
        requires
            512 <= s <= 4096,
    ;
    assert(MIN_PARTITION as int / s <= 131_072) by (nonlinear_arith)
        requires
            512 <= s,
    ;
    vstd::arithmetic::div_mod::lemma_fundamental_div_mod(ALIGNMENT as int, s);
    assert(s * (ALIGNMENT as int / s) == ALIGNMENT as int / s * s) by (nonlinear_arith);
}

/// The layout for a device with sectors of the given size and that many bytes, `None` where its
/// size could not be asked for.
pub fn plan_layout(sector: u64, dev_bytes: Option<u64>) -> (r: Result<Layout, CopyError>)
    ensures
        r == layout_of(sector, dev_bytes),
{
    if !align::is_power_of_two(sector) || sector < 512 || sector > 4096 {
        return Err(CopyError::UnsupportedSector { sector });
    }
    let bytes_there: u64 = match dev_bytes {
        None => return Err(CopyError::SizeFailed),
        Some(n) => n,
    };
    if bytes_there == 0 {
        return Err(CopyError::SizeUnknown);
    }
    proof {
        lemma_sector_numbers(sector as nat);
    }
    let total_sectors: u64 = bytes_there / sector;
    let align_lba: u64 = ALIGNMENT / sector;
    let tail: u64 = gpt::entry_array_sectors(sector) + 1;
    if total_sectors <= align_lba + tail + MIN_PARTITION / sector {
        return Err(CopyError::TooSmall);
    }
    Ok(Layout { sector, total_sectors, align_lba, part_sectors: total_sectors - align_lba - tail })
}

/// A layout that `plan_layout` gave for some device.
pub open spec fn is_layout(l: Layout) -> bool {
    exists|n: u64| #[trigger] layout_of(l.sector, Some(n)) == Ok::<Layout, CopyError>(l)
}

/// A layout always leaves room for the table: its partition lies exactly between 1 MiB and the
/// backup table, and inside the device.
pub proof fn layouts_fit_their_table(l: Layout, dev_bytes: u64)
    requires
        layout_of(l.sector, Some(dev_bytes)) == Ok::<Layout, CopyError>(l),
    ensures
        gpt::computable(
            l.total_sectors as nat,
            l.align_lba as nat,
            l.sector as nat,
            seq![l.part_sectors],
        ),
        gpt::fits(
            l.total_sectors as nat,
            l.align_lba as nat,
            l.sector as nat,
            seq![l.part_sectors],
        ),
        l.align_lba + l.part_sectors - 1 == gpt::last_usable(
            l.total_sectors as nat,
            l.sector as nat,
        ),
        l.align_lba * l.sector + l.part_sectors * l.sector <= dev_bytes,
        l.part_sectors * l.sector > MIN_PARTITION - l.sector,
{
    let s = l.sector as int;
    let total = l.total_sectors as int;
    lemma_sector_numbers(l.sector as nat);
    assert(seq![l.part_sectors].drop_last() =~= Seq::<u64>::empty());
    assert(gpt::total(Seq::<u64>::empty()) == 0);
    assert(gpt::total(seq![l.part_sectors]) == l.part_sectors);
    vstd::arithmetic::div_mod::lemma_fundamental_div_mod(dev_bytes as int, s);
    assert((total - 1) * s <= total * s <= dev_bytes) by (nonlinear_arith)
        requires
            dev_bytes as int == s * total + dev_bytes as int % s,
            dev_bytes as int % s >= 0,
            s > 0,
    ;
    let (a, p) = (l.align_lba as int, l.part_sectors as int);
    assert(a * s + p * s <= total * s) by (nonlinear_arith)
        requires
            a + p <= total,
            s > 0,
    ;
    let m = MIN_PARTITION as int / s;
    vstd::arithmetic::div_mod::lemma_fundamental_div_mod(MIN_PARTITION as int, s);
    assert(p * s > MIN_PARTITION - s) by (nonlinear_arith)
        requires
            p > m,
            MIN_PARTITION as int == s * m + MIN_PARTITION as int % s,
            MIN_PARTITION as int % s < s,
            s > 0,
    ;
}

/// The table of a drive with one FAT32 partition, an EFI System Partition with the label as its
/// name.
pub fn write_table(l: &Layout, name: &str) -> (r: Result<GptPlan, GptError>)
    requires
        is_layout(*l),
    ensures
        r is Ok,
        exists|parts: Seq<PartSpec<'_>>, unique: Seq<[u8; 16]>, disk_guid: [u8; 16]|
            {
                &&& parts.len() == 1
                &&& parts[0].name@ == name@
                &&& parts[0].type_guid@ == guid::esp_guid()
                &&& parts[0].sectors == l.part_sectors
                &&& unique.len() == 1
                &&& guid::is_random_guid(unique[0]@)
                &&& guid::is_random_guid(disk_guid@)
                &&& #[trigger] gpt::gpt_result(
                    r,
                    l.total_sectors as nat,
                    l.align_lba as nat,
                    l.sector as nat,
                    parts,
                    unique,
                    disk_guid@,
                )
            },
{
    let mut parts: Vec<PartSpec<'_>> = Vec::new();
    parts.push(PartSpec { name, type_guid: guid::esp_type(), sectors: l.part_sectors });
    proof {
        let n = choose|n: u64| #[trigger]
            layout_of(l.sector, Some(n)) == Ok::<Layout, CopyError>(*l);
        layouts_fit_their_table(*l, n);
        assert(gpt::sizes(parts@) =~= seq![l.part_sectors]);
    }
    let r = gpt::write_gpt(l.total_sectors, l.align_lba, l.sector, parts.as_slice());
    proof {
        let (unique, disk_guid) = choose|unique: Seq<[u8; 16]>, disk_guid: [u8; 16]|
            {
                &&& unique.len() == parts@.len()
                &&& forall|i: int|
                    0 <= i < unique.len() ==> guid::is_random_guid(#[trigger] unique[i]@)
                &&& guid::is_random_guid(disk_guid@)
                &&& #[trigger] gpt::gpt_result(
                    r,
                    l.total_sectors as nat,
                    l.align_lba as nat,
                    l.sector as nat,
                    parts@,
                    unique,
                    disk_guid@,
                )
            };
        assert(guid::is_random_guid(unique[0]@));
        assert(parts@[0].type_guid@ == guid::esp_guid());
    }
    r
}

/// The window of the device that the partition fills.
pub fn partition_window(l: &Layout) -> (p: Partition)
    requires
        is_layout(*l),
    ensures
        p.wf(),
        p@ == (Window {
            base: l.align_lba as nat * l.sector as nat,
            len: l.part_sectors as nat * l.sector as nat,
            pos: 0,
        }),
{
    proof {
        let n = choose|n: u64| #[trigger]
            layout_of(l.sector, Some(n)) == Ok::<Layout, CopyError>(*l);
        layouts_fit_their_table(*l, n);
        assert(l.align_lba * l.sector >= 0 && l.part_sectors * l.sector >= 0) by (nonlinear_arith);
    }
    Partition::new(l.align_lba * l.sector, l.part_sectors * l.sector)
}

// ---------------------------------------------------------------------------------------
// What happens once the image has been looked at
// ---------------------------------------------------------------------------------------

/// What to do with a drive.
pub enum RunStep {
    /// A file is too large for FAT32: use the NTFS layout instead.
    NtfsFallback,
    Refuse(CopyError),
    /// Only tell what would be done.
    DryRun { note: String, text: String },
    /// Write, with this label; the note comes first.
    Write { note: String, label: String },
}

/// The label as it is used: one that FAT cannot hold whole is shortened.
pub open spec fn used_label(label: Seq<char>) -> Seq<char> {
    if label.len() > 11 {
        label::short_label(label)
    } else {
        label
    }
}

/// A label that was asked for and had to be shortened is worth a note.
pub open spec fn label_note(label: Seq<char>, explicit: bool) -> Seq<char> {
    if label.len() > 11 && explicit {
        "note: FAT32 labels are 11 characters, using '"@ + label::short_label(label) + "'\n"@
    } else {
        Seq::empty()
    }
}

pub open spec fn dry_run_text(source: Seq<char>, target: Seq<char>, l: Layout, scan: Scan) -> Seq<
    char,
> {
    "\n --dry-run (copy mode): would write a GPT (protective MBR + one "@ + human::human(
        (l.part_sectors * l.sector) as nat,
    ) + " FAT32 data partition) to "@ + target + " and copy "@ + human::human(
        scan.total_bytes as nat,
    ) + " across "@ + numbers::decimal(scan.file_count as nat) + " files from "@ + source
        + ".\n"@ + (if scan.has_efi_boot {
        Seq::empty()
    } else {
        "note: no /EFI/BOOT/BOOT*.EFI in the image\n"@
    }) + "\n"@
}

fn dry_run_message(source: &str, target: &str, l: &Layout, scan: &Scan) -> (r: String)
    requires
        l.part_sectors * l.sector <= u64::MAX,
    ensures
        r@ == dry_run_text(source@, target@, *l, *scan),
{
    assert(l.part_sectors * l.sector >= 0) by (nonlinear_arith);
    let mut s =
        "\n --dry-run (copy mode): would write a GPT (protective MBR + one ".to_owned();
    s.append(human::human_bytes(l.part_sectors * l.sector).as_str());
    s.append(" FAT32 data partition) to ");
    s.append(target);
    s.append(" and copy ");
    s.append(human::human_bytes(scan.total_bytes).as_str());
    s.append(" across ");
    s.append(numbers::decimal_text(scan.file_count).as_str());
    s.append(" files from ");
    s.append(source);
    s.append(".\n");
    if !scan.has_efi_boot {
        s.append("note: no /EFI/BOOT/BOOT*.EFI in the image\n");
    }
    s.append("\n");
    assert(s@ =~= dry_run_text(source@, target@, *l, *scan));
    s
}

/// What to do with a file that FAT32 cannot hold.
pub open spec fn oversized_step(platform: Platform, max_file: u64) -> RunStep {
    if platform is Linux || platform is Windows {
        RunStep::NtfsFallback
    } else {
        RunStep::Refuse(CopyError::FileTooLarge { max_file, platform })
    }
}

fn oversized_file_fallback(platform: Platform, max_file: u64) -> (s: RunStep)
    ensures
        s == oversized_step(platform, max_file),
{
    match platform {
        Platform::Linux => RunStep::NtfsFallback,
        Platform::Windows => RunStep::NtfsFallback,
        _ => RunStep::Refuse(CopyError::FileTooLarge { max_file, platform }),
    }
}

/// What to do with the target, given its layout and what the image holds.
pub fn run(
    source: &str,
    target: &str,
    dry_run: bool,
    label: &str,
    explicit_label: bool,
    platform: Platform,
    layout: &Layout,
    scan: &Scan,
) -> (s: RunStep)
    requires
        is_layout(*layout),
        label::all_allowed(label@),
    ensures
        scan.max_file > FAT32_MAX_FILE ==> s == oversized_step(platform, scan.max_file),
        scan.max_file <= FAT32_MAX_FILE ==> match s {
            RunStep::DryRun { note, text } => {
                &&& dry_run
                &&& note@ == label_note(label@, explicit_label)
                &&& text@ == dry_run_text(source@, target@, *layout, *scan)
            },
            RunStep::Write { note, label: used } => {
                &&& !dry_run
                &&& note@ == label_note(label@, explicit_label)
                &&& used@ == used_label(label@)
            },
            _ => false,
        },
{
    if scan.max_file > FAT32_MAX_FILE {
        return oversized_file_fallback(platform, scan.max_file);
    }
    let mut note = String::new();
    let mut used = label.to_owned();
    proof {
        label::lemma_allowed_bytes(label@);
    }
    if label.as_bytes().len() > 11 {
        used = label::shorten(label);
        if explicit_label {
            note.append("note: FAT32 labels are 11 characters, using '");
            note.append(used.as_str());
            note.append("'\n");
        }
    }
    assert(note@ =~= label_note(label@, explicit_label));
    if dry_run {
        proof {
            let n = choose|n: u64| #[trigger]
                layout_of(layout.sector, Some(n)) == Ok::<Layout, CopyError>(*layout);
            layouts_fit_their_table(*layout, n);
            assert(layout.align_lba * layout.sector >= 0) by (nonlinear_arith);
        }
        let text = dry_run_message(source, target, layout, scan);
        return RunStep::DryRun { note, text };
    }
    RunStep::Write { note, label: used }
}

// ---------------------------------------------------------------------------------------
// Copying one file
// ---------------------------------------------------------------------------------------

/// How many bytes of a file are read at once.
pub const COPY_CHUNK: usize = 4_194_304;

#[derive(Debug, Clone, Copy, PartialEq, Eq, Structural)]
pub enum StreamStep {
    /// Write the bytes that were read; so many have been copied then.
    Write { count: usize, total: u64 },
    ReadAgain,
    /// The end of the file: so many bytes were copied.
    Done { total: u64 },
    Fail,
}

/// What follows from an attempt to read on in a file of which `total` bytes have been copied.
pub open spec fn stream_step(total: u64, event: ReadEvent) -> StreamStep {
    match event {
        ReadEvent::Got(n) => if n == 0 {
            StreamStep::Done { total }
        } else {
            StreamStep::Write { count: n, total: (total + n) as u64 }
        },
        ReadEvent::Interrupted => StreamStep::ReadAgain,
        ReadEvent::Failed => StreamStep::Fail,
    }
}

/// What to do after an attempt to read on in a file of which `total` bytes have been copied.
pub fn stream_copy(total: u64, event: ReadEvent) -> (s: StreamStep)
    requires
        event matches ReadEvent::Got(n) ==> total + n <= u64::MAX,
    ensures
        s == stream_step(total, event),
{
    match event {
        ReadEvent::Got(n) => if n == 0 {
            StreamStep::Done { total }
        } else {
            StreamStep::Write { count: n, total: total + n as u64 }
        },
        ReadEvent::Interrupted => StreamStep::ReadAgain,
        ReadEvent::Failed => StreamStep::Fail,
    }
}

// ---------------------------------------------------------------------------------------
// What is said
// ---------------------------------------------------------------------------------------

/// How looking for boot loaders in the embedded boot image ended.
#[derive(Debug, Clone, Copy, PartialEq, Eq, Structural)]
pub enum Extraction {
    /// The image has loaders of its own, so nothing was extracted.
    NotNeeded,
    /// Extracted, with a boot loader among the files or without.
    Done { found: bool },
    Failed,
}

/// Whether boot loaders are looked for in the embedded boot image: only where the image has none
/// of its own.
pub fn needs_extraction(scan: &Scan) -> (r: bool)
    ensures
        r == !scan.has_efi_boot,
{
    !scan.has_efi_boot
}

/// Whether the drive will hold a boot loader.
pub fn boot_ok(scan: &Scan, e: Extraction) -> (r: bool)
    ensures
        r == (scan.has_efi_boot || e == (Extraction::Done { found: true })),
{
    scan.has_efi_boot || match e {
        Extraction::Done { found } => found,
        _ => false,
    }
}

pub open spec fn notes_text(skipped: u64, e: Extraction) -> Seq<char> {
    (if e == (Extraction::Done { found: true }) {
        "note: EFI bootloader extracted from the ISO's El-Torito boot image\n"@
    } else {
        Seq::empty()
    }) + (if skipped > 0 {
        "note: "@ + numbers::decimal(skipped as nat)
            + " file(s) could not be read from the ISO and were skipped\n"@
    } else {
        Seq::empty()
    })
}

/// The notes after copying.
pub fn notes(skipped: u64, e: Extraction) -> (r: String)
    ensures
        r@ == notes_text(skipped, e),
{
    let mut s = String::new();
    match e {
        Extraction::Done { found } => {
            if found {
                s.append("note: EFI bootloader extracted from the ISO's El-Torito boot image\n");
            }
        },
        _ => {},
    }
    if skipped > 0 {
        s.append("note: ");
        s.append(numbers::decimal_text(skipped).as_str());
        s.append(" file(s) could not be read from the ISO and were skipped\n");
    }
    assert(s@ =~= notes_text(skipped, e));
    s
}

pub open spec fn boot_warning(ok: bool) -> Seq<char> {
    if ok {
        Seq::empty()
    } else {
        "warning: no EFI bootloader (/EFI/BOOT/BOOT*.EFI) found in the image or its El-Torito boot image; it may not boot under UEFI\n"@
    }
}

pub open spec fn complete_text(target: Seq<char>, scan: Scan, ok: bool) -> Seq<char> {
    boot_warning(ok) + "\n Copy complete: "@ + human::human(scan.total_bytes as nat)
        + " across "@ + numbers::decimal(scan.file_count as nat)
        + " files written to a new FAT32 partition on "@ + target + "\n\n"@
}

/// The last words after a copy: a warning where the drive may not boot, and what was written.
pub fn complete(target: &str, scan: &Scan, ok: bool) -> (r: String)
    ensures
        r@ == complete_text(target@, *scan, ok),
{
    let mut s = String::new();
    if !ok {
        s.append(
            "warning: no EFI bootloader (/EFI/BOOT/BOOT*.EFI) found in the image or its El-Torito boot image; it may not boot under UEFI\n",
        );
    }
    s.append("\n Copy complete: ");
    s.append(human::human_bytes(scan.total_bytes).as_str());
    s.append(" across ");
    s.append(numbers::decimal_text(scan.file_count).as_str());
    s.append(" files written to a new FAT32 partition on ");
    s.append(target);
    s.append("\n\n");
    assert(s@ =~= complete_text(target@, *scan, ok));
    s
}

impl CopyError {
    pub open spec fn text(self, target: Seq<char>) -> Seq<char> {
        match self {
            CopyError::UnsupportedSector { sector } => "Fatal: Unsupported logical sector size "@
                + numbers::decimal(sector as nat) + " on "@ + target,
            CopyError::SizeFailed => "Could not determine size of target "@ + target,
            CopyError::SizeUnknown => "Fatal: Could not determine size of target device "@
                + target,
            CopyError::TooSmall => "Fatal: Target "@ + target
                + " is too small for a FAT32 partition"@,
            CopyError::FileTooLarge { max_file, platform } =>
                "Fatal: ISO contains a file larger than 4 GiB ("@ + human::human(max_file as nat)
                    + (if platform is MacOs {
                    "). FAT32 cannot store it, and macOS has no native NTFS write support"@
                } else {
                    "). FAT32 cannot store it, and the NTFS fallback is only implemented for Linux and Windows."@
                }),
        }
    }

    pub fn message(&self, target: &str) -> (r: String)
        ensures
            r@ == self.text(target@),
    {
        let mut m = String::new();
        match self {
            CopyError::UnsupportedSector { sector } => {
                m.append("Fatal: Unsupported logical sector size ");
                m.append(numbers::decimal_text(*sector).as_str());
                m.append(" on ");
                m.append(target);
            },
            CopyError::SizeFailed => {
                m.append("Could not determine size of target ");
                m.append(target);
            },
            CopyError::SizeUnknown => {
                m.append("Fatal: Could not determine size of target device ");
                m.append(target);
            },
            CopyError::TooSmall => {
                m.append("Fatal: Target ");
                m.append(target);
                m.append(" is too small for a FAT32 partition");
            },
            CopyError::FileTooLarge { max_file, platform } => {
                m.append("Fatal: ISO contains a file larger than 4 GiB (");
                m.append(human::human_bytes(*max_file).as_str());
                match platform {
                    Platform::MacOs => {
                        m.append(
                            "). FAT32 cannot store it, and macOS has no native NTFS write support",
                        );
                    },
                    _ => {
                        m.append(
                            "). FAT32 cannot store it, and the NTFS fallback is only implemented for Linux and Windows.",
                        );
                    },
                }
            },
        }
        assert(m@ =~= self.text(target@));
        m
    }
}

} // verus!
