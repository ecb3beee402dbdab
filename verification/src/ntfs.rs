//! The layout for images with files that FAT32 cannot hold: an NTFS partition for the files, and
//! behind it a small one with a loader that boots from NTFS.

use vstd::prelude::*;

use crate::bytes;
use crate::bytes::DiskWrite;
use crate::copy;
use crate::copy::Extraction;
use crate::gpt;
use crate::gpt::{GptError, GptPlan, PartSpec};
use crate::guid;
use crate::human;
use crate::label;
use crate::numbers;
use crate::tree::Scan;

verus! {

/// The only sector size that this layout supports.
pub const SECTOR: u64 = 512;

/// Where the first partition starts, 1 MiB.
pub const ALIGN_LBA: u64 = 2_048;

/// Sectors at the end of the drive that the backup table takes.
pub const GPT_TAIL: u64 = 33;

/// The smallest data partition, as large as the smallest FAT32 one.
pub const MIN_DATA_SECTORS: u64 = 131_072;

#[derive(Debug, Clone, Copy, PartialEq, Eq, Structural)]
pub struct NtfsLayout {
    pub total_sectors: u64,
    pub ntfs_sectors: u64,
    pub loader_sectors: u64,
}

#[derive(Debug, Clone, Copy, PartialEq, Eq, Structural)]
pub enum NtfsError {
    /// The size of the target could not be asked for.
    SizeFailed,
    /// The target gave no size.
    SizeUnknown,
    TooSmall,
    UnsupportedSector { sector: u64 },
}

/// How many sectors so many bytes take.
pub fn round_up_sectors(bytes: u64, sector: u64) -> (n: u64)
    requires
        sector > 0,
        bytes + sector - 1 <= u64::MAX,
    ensures
        n == (bytes + sector - 1) / sector as int,
{
    (bytes + (sector - 1)) / sector
}

/// Rounding up gives the least number of sectors that holds the bytes.
pub proof fn rounded_sectors_hold_the_bytes(bytes: nat, sector: nat)
    requires
        sector > 0,
    ensures
        ({
            let n = (bytes + sector - 1) / sector as int;
            &&& bytes <= n * sector < bytes + sector
        }),
{
    let (s, x) = (sector as int, bytes + sector - 1);
    vstd::arithmetic::div_mod::lemma_fundamental_div_mod(x, s);
    assert(s * (x / s) == x / s * s) by (nonlinear_arith);
}

pub open spec fn loader_sectors_for(loader_len: nat) -> nat {
    ((loader_len + SECTOR - 1) / SECTOR as int) as nat
}

/// The layout of a device, or what stands against it.
pub open spec fn layout_of(dev_bytes: Option<u64>, loader_len: nat) -> Result<
    NtfsLayout,
    NtfsError,
> {
    match dev_bytes {
        None => Err(NtfsError::SizeFailed),
        Some(n) => {
            let total = n as nat / SECTOR as nat;
            let loader = loader_sectors_for(loader_len);
            if n == 0 {
                Err(NtfsError::SizeUnknown)
            } else if total <= ALIGN_LBA + GPT_TAIL + loader + MIN_DATA_SECTORS {
                Err(NtfsError::TooSmall)
            } else {
                Ok(
                    NtfsLayout {
                        total_sectors: total as u64,
                        ntfs_sectors: (total - ALIGN_LBA - GPT_TAIL - loader) as u64,
                        loader_sectors: loader as u64,
                    },
                )
            }
        },
    }
}

/// The layout for a device of that many bytes, `None` where its size could not be asked for,
/// with a loader of the given length.
pub fn plan_layout(dev_bytes: Option<u64>, loader_len: usize) -> (r: Result<NtfsLayout, NtfsError>)
    requires
        loader_len + SECTOR - 1 <= u64::MAX,
    ensures
        r == layout_of(dev_bytes, loader_len as nat),
{
    let n: u64 = match dev_bytes {
        None => return Err(NtfsError::SizeFailed),
        Some(n) => n,
    };
    if n == 0 {
        return Err(NtfsError::SizeUnknown);
    }
    let total_sectors: u64 = n / SECTOR;
    let loader_sectors: u64 = round_up_sectors(loader_len as u64, SECTOR);
    if total_sectors <= ALIGN_LBA + GPT_TAIL + loader_sectors + MIN_DATA_SECTORS {
        return Err(NtfsError::TooSmall);
    }
    Ok(
        NtfsLayout {
            total_sectors,
            ntfs_sectors: total_sectors - ALIGN_LBA - GPT_TAIL - loader_sectors,
            loader_sectors,
        },
    )
}

/// What to do with a drive.
pub enum NtfsStep {
    /// Only tell what would be done.
    DryRun { text: String },
    Write { layout: NtfsLayout },
}

/// What to do with a target of that many bytes, given what the image holds.
pub fn run(
    source: &str,
    target: &str,
    only_tell: bool,
    dev_bytes: Option<u64>,
    loader_len: usize,
    scan: &Scan,
) -> (r: Result<NtfsStep, NtfsError>)
    requires
        loader_len + SECTOR - 1 <= u64::MAX,
    ensures
        match (layout_of(dev_bytes, loader_len as nat), r) {
            (Err(e), Err(f)) => e == f,
            (Ok(l), Ok(NtfsStep::DryRun { text })) => only_tell && text@ == dry_run_text(
                source@,
                target@,
                l,
                *scan,
            ),
            (Ok(l), Ok(NtfsStep::Write { layout })) => !only_tell && layout == l,
            _ => false,
        },
{
    let layout = match plan_layout(dev_bytes, loader_len) {
        Err(e) => return Err(e),
        Ok(l) => l,
    };
    if only_tell {
        proof {
            assert(layout_of(Some(dev_bytes->0), loader_len as nat) == Ok::<NtfsLayout, NtfsError>(
                layout,
            ));
        }
        let text = dry_run(source, target, &layout, loader_len, scan);
        return Ok(NtfsStep::DryRun { text });
    }
    Ok(NtfsStep::Write { layout })
}

/// A layout that `plan_layout` gave for some device and a loader of the given length.
pub open spec fn is_layout(l: NtfsLayout, loader_len: nat) -> bool {
    exists|n: u64| #[trigger]
        layout_of(Some(n), loader_len) == Ok::<NtfsLayout, NtfsError>(l)
}

pub open spec fn part_sizes(l: NtfsLayout) -> Seq<u64> {
    seq![l.ntfs_sectors, l.loader_sectors]
}

/// A layout always leaves room for the table: its two partitions lie exactly between 1 MiB and
/// the backup table, and inside the device.
pub proof fn layouts_fit_their_table(l: NtfsLayout, dev_bytes: u64, loader_len: nat)
    requires
        layout_of(Some(dev_bytes), loader_len) == Ok::<NtfsLayout, NtfsError>(l),
    ensures
        gpt::computable(
            l.total_sectors as nat,
            ALIGN_LBA as nat,
            SECTOR as nat,
            part_sizes(l),
        ),
        gpt::fits(l.total_sectors as nat, ALIGN_LBA as nat, SECTOR as nat, part_sizes(l)),
        ALIGN_LBA + l.ntfs_sectors + l.loader_sectors - 1 == gpt::last_usable(
            l.total_sectors as nat,
            SECTOR as nat,
        ),
        l.total_sectors * SECTOR <= dev_bytes,
        l.loader_sectors * SECTOR >= loader_len,
        l.ntfs_sectors > MIN_DATA_SECTORS,
{
    let s = part_sizes(l);
    assert(s.drop_last() =~= seq![l.ntfs_sectors]);
    assert(s.drop_last().drop_last() =~= Seq::<u64>::empty());
    assert(gpt::total(Seq::<u64>::empty()) == 0);
    assert(gpt::total(s.drop_last()) == l.ntfs_sectors);
    assert(gpt::total(s) == l.ntfs_sectors + l.loader_sectors);
    assert(gpt::array_sectors(SECTOR as nat) == 32);
}

/// The table of a drive with an NTFS partition of that name and the loader's partition behind
/// it.
pub fn write_table(l: &NtfsLayout, name: &str, loader_len: usize) -> (r: Result<GptPlan, GptError>)
    requires
        is_layout(*l, loader_len as nat),
    ensures
        r is Ok,
        r->Ok_0.placements@.len() == 2,
        r->Ok_0.placements@[1].0 == ALIGN_LBA + l.ntfs_sectors,
        exists|parts: Seq<PartSpec<'_>>, unique: Seq<[u8; 16]>, disk_guid: [u8; 16]|
            {
                &&& parts.len() == 2
                &&& parts[0].name@ == name@
                &&& parts[0].type_guid@ == guid::basic_data_guid()
                &&& parts[0].sectors == l.ntfs_sectors
                &&& parts[1].name@ == "UEFI_NTFS"@
                &&& parts[1].type_guid@ == guid::esp_guid()
                &&& parts[1].sectors == l.loader_sectors
                &&& unique.len() == 2
                &&& guid::is_random_guid(unique[0]@)
                &&& guid::is_random_guid(unique[1]@)
                &&& guid::is_random_guid(disk_guid@)
                &&& #[trigger] gpt::gpt_result(
                    r,
                    l.total_sectors as nat,
                    ALIGN_LBA as nat,
                    SECTOR as nat,
                    parts,
                    unique,
                    disk_guid@,
                )
            },
{
    let mut parts: Vec<PartSpec<'_>> = Vec::new();
    parts.push(PartSpec { name, type_guid: guid::basic_data_type(), sectors: l.ntfs_sectors });
    parts.push(
        PartSpec { name: "UEFI_NTFS", type_guid: guid::esp_type(), sectors: l.loader_sectors },
    );
    let ghost s = part_sizes(*l);
    proof {
        let n = choose|n: u64| #[trigger]
            layout_of(Some(n), loader_len as nat) == Ok::<NtfsLayout, NtfsError>(*l);
        layouts_fit_their_table(*l, n, loader_len as nat);
        assert(gpt::sizes(parts@) =~= s);
    }
    let r = gpt::write_gpt(l.total_sectors, ALIGN_LBA, SECTOR, parts.as_slice());
    proof {
        let (unique, disk_guid) = choose|unique: Seq<[u8; 16]>, disk_guid: [u8; 16]|
            {
                &&& unique.len() == parts@.len()
                &&& forall|i: int|
                    0 <= i < unique.len() ==> guid::is_random_guid(#[trigger] unique[i]@)
                &&& guid::is_random_guid(disk_guid@)
                &&& #[trigger] gpt::gpt_result(
                    r,
                    l.total_sectors as nat,
                    ALIGN_LBA as nat,
                    SECTOR as nat,
                    parts@,
                    unique,
                    disk_guid@,
                )
            };
        assert(guid::is_random_guid(unique[0]@) && guid::is_random_guid(unique[1]@));
        assert(parts@[0].type_guid@ == guid::basic_data_guid());
        assert(s.take(1) =~= seq![l.ntfs_sectors]);
        assert(s.take(1).drop_last() =~= Seq::<u64>::empty());
        assert(gpt::total(Seq::<u64>::empty()) == 0);
        assert(gpt::total(s.take(1)) == l.ntfs_sectors);
        assert(r->Ok_0.placements@[1] == gpt::placement(ALIGN_LBA as nat, s, 1));
    }
    r
}

/// The write that brings the loader to its partition, filled up with zeros.
pub fn loader_write(l: &NtfsLayout, loader: &[u8]) -> (w: DiskWrite)
    requires
        is_layout(*l, loader@.len()),
    ensures
        w@ == (
            ((ALIGN_LBA + l.ntfs_sectors) * SECTOR) as nat,
            loader@ + bytes::zeros((l.loader_sectors * SECTOR - loader@.len()) as nat),
        ),
{
    proof {
        let n = choose|n: u64| #[trigger]
            layout_of(Some(n), loader@.len()) == Ok::<NtfsLayout, NtfsError>(*l);
        layouts_fit_their_table(*l, n, loader@.len());
        assert(l.loader_sectors * SECTOR < loader@.len() + SECTOR);
    }
    let mut b: Vec<u8> = Vec::new();
    bytes::push_all(&mut b, loader);
    let rest: u64 = l.loader_sectors * SECTOR - loader.len() as u64;
    bytes::push_zeros(&mut b, rest as usize);
    assert(b@ =~= loader@ + bytes::zeros((l.loader_sectors * SECTOR - loader@.len()) as nat));
    DiskWrite { offset: (ALIGN_LBA + l.ntfs_sectors) * SECTOR, bytes: b }
}

/// Only devices with sectors of 512 bytes can have this layout.
pub fn check_sector(logical: u64) -> (r: Result<(), NtfsError>)
    ensures
        match r {
            Ok(_) => logical == SECTOR,
            Err(e) => logical != SECTOR && e == (NtfsError::UnsupportedSector { sector: logical }),
        },
{
    if logical != SECTOR {
        Err(NtfsError::UnsupportedSector { sector: logical })
    } else {
        Ok(())
    }
}

// ---------------------------------------------------------------------------------------
// What is said
// ---------------------------------------------------------------------------------------

pub open spec fn dry_run_text(
    source: Seq<char>,
    target: Seq<char>,
    l: NtfsLayout,
    scan: Scan,
) -> Seq<char> {
    "\n --dry-run (copy mode, NTFS fallback): would write a GPT ("@ + human::human(
        (l.ntfs_sectors * SECTOR) as nat,
    ) + " NTFS data partition + "@ + human::human((l.loader_sectors * SECTOR) as nat)
        + " UEFI:NTFS loader partition) to "@ + target + " and copy "@ + human::human(
        scan.total_bytes as nat,
    ) + " across "@ + numbers::decimal(scan.file_count as nat) + " files from "@ + source
        + ".\n\n"@
}

/// What a run would do.
pub fn dry_run(source: &str, target: &str, l: &NtfsLayout, loader_len: usize, scan: &Scan) -> (r:
    String)
    requires
        is_layout(*l, loader_len as nat),
    ensures
        r@ == dry_run_text(source@, target@, *l, *scan),
{
    proof {
        let n = choose|n: u64| #[trigger]
            layout_of(Some(n), loader_len as nat) == Ok::<NtfsLayout, NtfsError>(*l);
        layouts_fit_their_table(*l, n, loader_len as nat);
    }
    let mut s = "\n --dry-run (copy mode, NTFS fallback): would write a GPT (".to_owned();
    s.append(human::human_bytes(l.ntfs_sectors * SECTOR).as_str());
    s.append(" NTFS data partition + ");
    s.append(human::human_bytes(l.loader_sectors * SECTOR).as_str());
    s.append(" UEFI:NTFS loader partition) to ");
    s.append(target);
    s.append(" and copy ");
    s.append(human::human_bytes(scan.total_bytes).as_str());
    s.append(" across ");
    s.append(numbers::decimal_text(scan.file_count).as_str());
    s.append(" files from ");
    s.append(source);
    s.append(".\n\n");
    assert(s@ =~= dry_run_text(source@, target@, *l, *scan));
    s
}

pub open spec fn complete_text(
    target: Seq<char>,
    scan: Scan,
    skipped: u64,
    e: Extraction,
) -> Seq<char> {
    (if skipped > 0 {
        "note: "@ + numbers::decimal(skipped as nat)
            + " file(s) could not be read from the ISO and were skipped\n"@
    } else {
        Seq::empty()
    }) + (if e == (Extraction::Done { found: true }) {
        "note: EFI bootloader extracted from the ISO's El-Torito boot image\n"@
    } else {
        Seq::empty()
    }) + copy::boot_warning(scan.has_efi_boot || e == (Extraction::Done { found: true }))
        + "\n Copy complete (NTFS + UEFI:NTFS): "@ + human::human(scan.total_bytes as nat)
        + " across "@ + numbers::decimal(scan.file_count as nat) + " files written to "@ + target
        + "\n\n"@
}

/// The last words after a copy: notes, a warning where the drive may not boot, and what was
/// written.
pub fn complete(target: &str, scan: &Scan, skipped: u64, e: Extraction) -> (r: String)
    ensures
        r@ == complete_text(target@, *scan, skipped, e),
{
    let mut s = String::new();
    if skipped > 0 {
        s.append("note: ");
        s.append(numbers::decimal_text(skipped).as_str());
        s.append(" file(s) could not be read from the ISO and were skipped\n");
    }
    match e {
        Extraction::Done { found } => {
            if found {
                s.append("note: EFI bootloader extracted from the ISO's El-Torito boot image\n");
            }
        },
        _ => {},
    }
    if !copy::boot_ok(scan, e) {
        s.append(
            "warning: no EFI bootloader (/EFI/BOOT/BOOT*.EFI) found in the image or its El-Torito boot image; it may not boot under UEFI\n",
        );
    }
    s.append("\n Copy complete (NTFS + UEFI:NTFS): ");
    s.append(human::human_bytes(scan.total_bytes).as_str());
    s.append(" across ");
    s.append(numbers::decimal_text(scan.file_count).as_str());
    s.append(" files written to ");
    s.append(target);
    s.append("\n\n");
    assert(s@ =~= complete_text(target@, *scan, skipped, e));
    s
}

impl NtfsError {
    pub open spec fn text(self, target: Seq<char>) -> Seq<char> {
        match self {
            NtfsError::SizeFailed => "Could not determine size of target "@ + target,
            NtfsError::SizeUnknown => "Could not determine size of target device "@ + target,
            NtfsError::TooSmall => "Target "@ + target
                + " is too small for an NTFS + UEFI:NTFS layout"@,
            NtfsError::UnsupportedSector { sector } => "Fatal: target reports a "@
                + numbers::decimal(sector as nat)
                + "-byte logical sector, the NTFS fallback currently only supports 512-byte-logical devices. Use --mode dd instead."@,
        }
    }

    pub fn message(&self, target: &str) -> (r: String)
        ensures
            r@ == self.text(target@),
    {
        let mut m = String::new();
        match self {
            NtfsError::SizeFailed => {
                m.append("Could not determine size of target ");
                m.append(target);
            },
            NtfsError::SizeUnknown => {
                m.append("Could not determine size of target device ");
                m.append(target);
            },
            NtfsError::TooSmall => {
                m.append("Target ");
                m.append(target);
                m.append(" is too small for an NTFS + UEFI:NTFS layout");
            },
            NtfsError::UnsupportedSector { sector } => {
                m.append("Fatal: target reports a ");
                m.append(numbers::decimal_text(*sector).as_str());
                m.append(
                    "-byte logical sector, the NTFS fallback currently only supports 512-byte-logical devices. Use --mode dd instead.",
                );
            },
        }
        assert(m@ =~= self.text(target@));
        m
    }
}

// ---------------------------------------------------------------------------------------
// Formatting on Windows
// ---------------------------------------------------------------------------------------

pub open spec fn partition_query(drive: nat) -> Seq<char> {
    "Get-Partition -DiskNumber "@ + numbers::decimal(drive) + " -PartitionNumber 1"@
}

/// The script that formats the first partition of a drive with NTFS, gives it a drive letter
/// and prints that.
pub open spec fn format_script_text(drive: nat, label: Seq<char>) -> Seq<char> {
    "$ErrorActionPreference='Stop'; Update-HostStorageCache; "@ + partition_query(drive)
        + " | Format-Volume -FileSystem NTFS -NewFileSystemLabel '"@ + label
        + "' -Confirm:$false | Out-Null; $p = "@ + partition_query(drive)
        + "; if (-not $p.DriveLetter) { $p | Add-PartitionAccessPath -AssignDriveLetter | Out-Null; $p = "@
        + partition_query(drive) + "; }; Write-Output $p.DriveLetter"@
}

fn push_query(s: &mut String, drive: u32)
    ensures
        final(s)@ == old(s)@ + partition_query(drive as nat),
{
    let ghost before = s@;
    s.append("Get-Partition -DiskNumber ");
    s.append(numbers::decimal_text(drive as u64).as_str());
    s.append(" -PartitionNumber 1");
    assert(s@ =~= before + partition_query(drive as nat));
}

pub fn format_script(drive: u32, label: &str) -> (r: String)
    requires
        label::all_allowed(label@),
    ensures
        r@ == format_script_text(drive as nat, label@),
{
    let mut s = "$ErrorActionPreference='Stop'; Update-HostStorageCache; ".to_owned();
    push_query(&mut s, drive);
    s.append(" | Format-Volume -FileSystem NTFS -NewFileSystemLabel '");
    s.append(label);
    s.append("' -Confirm:$false | Out-Null; $p = ");
    push_query(&mut s, drive);
    s.append(
        "; if (-not $p.DriveLetter) { $p | Add-PartitionAccessPath -AssignDriveLetter | Out-Null; $p = ",
    );
    push_query(&mut s, drive);
    s.append("; }; Write-Output $p.DriveLetter");
    assert(s@ =~= format_script_text(drive as nat, label@));
    s
}

} // verus!
