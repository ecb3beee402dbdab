//! What the messages and scripts say of the values that they are about.

use vstd::prelude::*;

use crate::copy;
use crate::copy::{CopyError, Extraction, Layout, RunStep};
use crate::fields;
use crate::gpt::GptError;
use crate::human;
use crate::list::ListError;
use crate::mode::ModeError;
use crate::mount;
use crate::mount::MountGuard;
use crate::ntfs;
use crate::ntfs::{NtfsError, NtfsLayout};
use crate::numbers;
use crate::platform::Platform;
use crate::privilege;
use crate::privilege::Elevation;
use crate::tree::Scan;
use crate::validate::{ValidateError, WriteParams};
use crate::writer;

verus! {

/// `t` says `before`, then `what`, then `behind`, and nothing else.
pub open spec fn says(t: Seq<char>, before: Seq<char>, what: Seq<char>, behind: Seq<char>) -> bool {
    &&& t.len() == before.len() + what.len() + behind.len()
    &&& t.take(before.len() as int) == before
    &&& t.subrange(before.len() as int, (before.len() + what.len()) as int) == what
    &&& t.skip((before.len() + what.len()) as int) == behind
}

proof fn lemma_says(a: Seq<char>, b: Seq<char>, c: Seq<char>)
    ensures
        says(a + b + c, a, b, c),
        says(a + b, a, b, Seq::empty()),
        says(a, a, Seq::empty(), Seq::empty()),
{
    let t = a + b + c;
    assert(t.take(a.len() as int) =~= a);
    assert(t.subrange(a.len() as int, (a.len() + b.len()) as int) =~= b);
    assert(t.skip((a.len() + b.len()) as int) =~= c);
    let u = a + b;
    assert(u.take(a.len() as int) =~= a);
    assert(u.subrange(a.len() as int, (a.len() + b.len()) as int) =~= b);
    assert(u.skip((a.len() + b.len()) as int) =~= Seq::<char>::empty());
    assert(a.take(a.len() as int) =~= a);
    assert(a.subrange(a.len() as int, a.len() as int) =~= Seq::<char>::empty());
    assert(a.skip(a.len() as int) =~= Seq::<char>::empty());
}

/// A refusal on account of the source names the source.
pub proof fn refusals_name_the_source(e: ValidateError, p: WriteParams, r: String)
    requires
        call_ensures(ValidateError::message, (&e, &p), r),
    ensures
        e is SourceMissing ==> says(
            r@,
            "Source file does not exist: "@,
            p.source@,
            Seq::empty(),
        ),
        e is SourceMetadata ==> says(
            r@,
            "Cannot read metadata for source: "@,
            p.source@,
            Seq::empty(),
        ),
        e is SourceNotFileOrDevice ==> says(
            r@,
            "Source is not a regular file or block device: "@,
            p.source@,
            Seq::empty(),
        ),
        e is SourceNotFile ==> says(
            r@,
            "Source is not a regular file: "@,
            p.source@,
            Seq::empty(),
        ),
        e is SourceSize ==> says(
            r@,
            "Cannot determine size of source: "@,
            p.source@,
            Seq::empty(),
        ),
        e is SourceEmpty ==> says(r@, "Source file is empty: "@, p.source@, Seq::empty()),
{
    lemma_says("Source file does not exist: "@, p.source@, Seq::empty());
    lemma_says("Cannot read metadata for source: "@, p.source@, Seq::empty());
    lemma_says("Source is not a regular file or block device: "@, p.source@, Seq::empty());
    lemma_says("Source is not a regular file: "@, p.source@, Seq::empty());
    lemma_says("Cannot determine size of source: "@, p.source@, Seq::empty());
    lemma_says("Source file is empty: "@, p.source@, Seq::empty());
}

/// A refusal on account of the target names the target.
pub proof fn refusals_name_the_target(e: ValidateError, p: WriteParams, r: String)
    requires
        call_ensures(ValidateError::message, (&e, &p), r),
    ensures
        e is TargetMissing ==> says(
            r@,
            "Target device does not exist: "@,
            p.target@,
            Seq::empty(),
        ),
        e is TargetMetadata ==> says(
            r@,
            "Cannot read metadata for target: "@,
            p.target@,
            Seq::empty(),
        ),
        e is TargetOpen ==> says(
            r@,
            "Cannot open target for writing: "@,
            p.target@,
            " (are you running as root/Administrator?)"@,
        ),
        e is TargetSize ==> says(
            r@,
            "Cannot determine size of target: "@,
            p.target@,
            Seq::empty(),
        ),
{
    lemma_says("Target device does not exist: "@, p.target@, Seq::empty());
    lemma_says("Cannot read metadata for target: "@, p.target@, Seq::empty());
    lemma_says(
        "Cannot open target for writing: "@,
        p.target@,
        " (are you running as root/Administrator?)"@,
    );
    lemma_says("Cannot determine size of target: "@, p.target@, Seq::empty());
}

/// A refusal on account of a number states the number: the block size, the offset and the sector
/// that it is no multiple of, or the four sizes of which the first is larger than the last.
pub proof fn refusals_state_the_numbers(e: ValidateError, p: WriteParams, r: String)
    requires
        call_ensures(ValidateError::message, (&e, &p), r),
    ensures
        e is BlockSizeZero ==> r@ == "Block size must be greater than zero"@,
        e is BlockSizeTooLarge ==> says(
            r@,
            "Block size "@,
            numbers::decimal(p.block_size as nat),
            " is unreasonably large (max 256 MiB)"@,
        ),
        e matches ValidateError::OffsetUnaligned { sector } ==> says(
            r@,
            "--offset "@,
            numbers::decimal(p.offset as nat),
            " is not a multiple of the target's "@ + numbers::decimal(sector as nat)
                + "-byte sector size"@,
        ),
        e matches ValidateError::SourceTooLarge { source_size, target_size, available } ==> says(
            r@,
            "Source ("@ + human::human(source_size as nat)
                + ") is larger than available target space ("@,
            human::human(target_size as nat),
            ", "@ + human::human(p.offset as nat) + " offset, "@ + human::human(available as nat)
                + " available)"@,
        ),
{
    lemma_says(
        "Block size "@,
        numbers::decimal(p.block_size as nat),
        " is unreasonably large (max 256 MiB)"@,
    );
    if let ValidateError::OffsetUnaligned { sector } = e {
        let rest = " is not a multiple of the target's "@ + numbers::decimal(sector as nat)
            + "-byte sector size"@;
        lemma_says("--offset "@, numbers::decimal(p.offset as nat), rest);
        assert(r@ =~= "--offset "@ + numbers::decimal(p.offset as nat) + rest);
    }
    if let ValidateError::SourceTooLarge { source_size, target_size, available } = e {
        let a = "Source ("@ + human::human(source_size as nat)
            + ") is larger than available target space ("@;
        let c = ", "@ + human::human(p.offset as nat) + " offset, "@ + human::human(
            available as nat,
        ) + " available)"@;
        lemma_says(a, human::human(target_size as nat), c);
        assert(r@ =~= a + human::human(target_size as nat) + c);
    }
}

/// An unknown mode is named, with those that there are.
pub proof fn unknown_modes_are_named(e: ModeError, r: String)
    requires
        call_ensures(ModeError::message, (&e,), r),
    ensures
        e matches ModeError::Unknown { name } ==> says(
            r@,
            "unknown mode '"@,
            name@,
            "', expected 'dd' or 'copy'"@,
        ),
        e is CannotPick ==> r@
            == "Fatal: Source is neither an extractable ISO9660/UDF image nor a bootable disk image (no 0x55AA marker); cannot auto-pick a mode. Use --mode to force one."@,
{
    if let ModeError::Unknown { name } = e {
        lemma_says("unknown mode '"@, name@, "', expected 'dd' or 'copy'"@);
    }
}

/// Targets that cannot be copied to are named, and so is what stands against them.
pub proof fn unfit_targets_are_named(e: CopyError, target: &str, r: String)
    requires
        call_ensures(CopyError::message, (&e, target), r),
    ensures
        e matches CopyError::UnsupportedSector { sector } ==> says(
            r@,
            "Fatal: Unsupported logical sector size "@,
            numbers::decimal(sector as nat),
            " on "@ + target@,
        ),
        e is SizeFailed ==> says(
            r@,
            "Could not determine size of target "@,
            target@,
            Seq::empty(),
        ),
        e is SizeUnknown ==> says(
            r@,
            "Fatal: Could not determine size of target device "@,
            target@,
            Seq::empty(),
        ),
        e is TooSmall ==> says(
            r@,
            "Fatal: Target "@,
            target@,
            " is too small for a FAT32 partition"@,
        ),
        e matches CopyError::FileTooLarge { max_file, platform } ==> says(
            r@,
            "Fatal: ISO contains a file larger than 4 GiB ("@,
            human::human(max_file as nat),
            if platform is MacOs {
                "). FAT32 cannot store it, and macOS has no native NTFS write support"@
            } else {
                "). FAT32 cannot store it, and the NTFS fallback is only implemented for Linux and Windows."@
            },
        ),
{
    lemma_says("Could not determine size of target "@, target@, Seq::empty());
    lemma_says("Fatal: Could not determine size of target device "@, target@, Seq::empty());
    lemma_says("Fatal: Target "@, target@, " is too small for a FAT32 partition"@);
    if let CopyError::UnsupportedSector { sector } = e {
        let a = "Fatal: Unsupported logical sector size "@;
        let n = numbers::decimal(sector as nat);
        lemma_says(a, n, " on "@ + target@);
        assert(r@ =~= a + n + (" on "@ + target@));
    }
    if let CopyError::FileTooLarge { max_file, platform } = e {
        let a = "Fatal: ISO contains a file larger than 4 GiB ("@;
        lemma_says(
            a,
            human::human(max_file as nat),
            "). FAT32 cannot store it, and macOS has no native NTFS write support"@,
        );
        lemma_says(
            a,
            human::human(max_file as nat),
            "). FAT32 cannot store it, and the NTFS fallback is only implemented for Linux and Windows."@,
        );
    }
}

/// The same of targets for the layout with an NTFS partition.
pub proof fn unfit_ntfs_targets_are_named(e: NtfsError, target: &str, r: String)
    requires
        call_ensures(NtfsError::message, (&e, target), r),
    ensures
        e is SizeFailed ==> says(
            r@,
            "Could not determine size of target "@,
            target@,
            Seq::empty(),
        ),
        e is SizeUnknown ==> says(
            r@,
            "Could not determine size of target device "@,
            target@,
            Seq::empty(),
        ),
        e is TooSmall ==> says(
            r@,
            "Target "@,
            target@,
            " is too small for an NTFS + UEFI:NTFS layout"@,
        ),
        e matches NtfsError::UnsupportedSector { sector } ==> says(
            r@,
            "Fatal: target reports a "@,
            numbers::decimal(sector as nat),
            "-byte logical sector, the NTFS fallback currently only supports 512-byte-logical devices. Use --mode dd instead."@,
        ),
{
    lemma_says("Could not determine size of target "@, target@, Seq::empty());
    lemma_says("Could not determine size of target device "@, target@, Seq::empty());
    lemma_says("Target "@, target@, " is too small for an NTFS + UEFI:NTFS layout"@);
    if let NtfsError::UnsupportedSector { sector } = e {
        lemma_says(
            "Fatal: target reports a "@,
            numbers::decimal(sector as nat),
            "-byte logical sector, the NTFS fallback currently only supports 512-byte-logical devices. Use --mode dd instead."@,
        );
    }
}

/// A table that cannot be written is told by the number of its partitions, of which there may be
/// 128, or by the first and last sector that they take and those that they may take.
pub proof fn refused_tables_are_told(e: GptError, r: String)
    requires
        call_ensures(GptError::message, (&e,), r),
    ensures
        e matches GptError::PartitionCount { requested } ==> says(
            r@,
            "Fatal: write_gpt: "@,
            numbers::decimal(requested as nat),
            " partitions requested, expected 1..=128"@,
        ),
        e matches GptError::DoesNotFit { first_start, last_end, first_usable, last_usable }
            ==> says(
            r@,
            "Fatal: Partition layout ["@ + numbers::decimal(first_start as nat) + ", "@
                + numbers::decimal(last_end as nat),
            "] does not fit inside usable GPT range ["@,
            numbers::decimal(first_usable as nat) + ", "@ + numbers::decimal(last_usable as nat)
                + "]"@,
        ),
{
    if let GptError::PartitionCount { requested } = e {
        let n = numbers::decimal(requested as nat);
        let t = " partitions requested, expected 1..=128"@;
        assert(" partitions requested, expected 1..="@ + numbers::decimal(128) =~= t) by {
            reveal_strlit(" partitions requested, expected 1..=");
            reveal_strlit(" partitions requested, expected 1..=128");
            reveal_with_fuel(numbers::decimal, 3);
        }
        lemma_says("Fatal: write_gpt: "@, n, t);
        assert(r@ =~= "Fatal: write_gpt: "@ + n + t);
    }
    if let GptError::DoesNotFit { first_start, last_end, first_usable, last_usable } = e {
        let a = "Fatal: Partition layout ["@ + numbers::decimal(first_start as nat) + ", "@
            + numbers::decimal(last_end as nat);
        let b = "] does not fit inside usable GPT range ["@;
        let c = numbers::decimal(first_usable as nat) + ", "@ + numbers::decimal(
            last_usable as nat,
        ) + "]"@;
        lemma_says(a, b, c);
        assert(r@ =~= a + b + c);
    }
}

/// Where devices cannot be listed, that is said.
pub proof fn missing_listings_are_told(e: ListError, r: String)
    requires
        call_ensures(ListError::message, (&e,), r),
    ensures
        r@ == "--list is not supported on this platform"@,
{
}

/// Volumes and partitions that cannot be used are named.
pub proof fn unusable_volumes_are_named(node: &str, a: String, b: String, c: String, d: String)
    requires
        call_ensures(mount::busy_message, (node,), a),
        call_ensures(mount::busy_disk_message, (node,), b),
        call_ensures(mount::unmountable_message, (node,), c),
        call_ensures(mount::no_node_message, (node,), d),
    ensures
        says(
            a@,
            "Fatal: "@,
            node@,
            " is mounted and could not be unmounted (still in use? a file manager window or open file will hold it). Close whatever is using it and retry."@,
        ),
        says(
            b@,
            "Fatal: diskutil unmountDisk "@,
            node@,
            " failed; a volume on the target is still in use. Close whatever is using it and retry."@,
        ),
        says(
            c@,
            "Fatal: Could not mount "@,
            node@,
            " as NTFS (tried ntfs3 and ntfs-3g). Is one of them installed?"@,
        ),
        says(d@, "Partition node "@, node@, " did not appear after writing the GPT"@),
{
    lemma_says(
        "Fatal: "@,
        node@,
        " is mounted and could not be unmounted (still in use? a file manager window or open file will hold it). Close whatever is using it and retry."@,
    );
    lemma_says(
        "Fatal: diskutil unmountDisk "@,
        node@,
        " failed; a volume on the target is still in use. Close whatever is using it and retry."@,
    );
    lemma_says(
        "Fatal: Could not mount "@,
        node@,
        " as NTFS (tried ntfs3 and ntfs-3g). Is one of them installed?"@,
    );
    lemma_says("Partition node "@, node@, " did not appear after writing the GPT"@);
}

/// The image that is mounted is the one that is unmounted.
pub proof fn scripts_name_the_same_image(
    source: String,
    place: String,
    name: &str,
    g: MountGuard,
    up: String,
    down: String,
    at: &str,
)
    requires
        call_ensures(MountGuard::new, (place, source), g),
        call_ensures(mount::mount_script, (name,), up),
        call_ensures(MountGuard::dismount_script, (&g,), down),
        call_ensures(MountGuard::mount_point, (&g,), at),
        name@ == source@,
    ensures
        says(
            up@,
            "$ErrorActionPreference='Stop'; $v = (Mount-DiskImage -ImagePath '"@,
            source@,
            "' -PassThru | Get-Volume).DriveLetter; Write-Output $v"@,
        ),
        says(down@, "Dismount-DiskImage -ImagePath '"@, source@, "' | Out-Null"@),
        at@ == place@,
{
    lemma_says(
        "$ErrorActionPreference='Stop'; $v = (Mount-DiskImage -ImagePath '"@,
        source@,
        "' -PassThru | Get-Volume).DriveLetter; Write-Output $v"@,
    );
    lemma_says("Dismount-DiskImage -ImagePath '"@, source@, "' | Out-Null"@);
}

/// The script that formats a volume takes the first partition of the drive throughout, and gives
/// it the label.
pub proof fn volumes_are_formatted_by_number(drive: u32, label: &str, r: String)
    requires
        call_ensures(ntfs::format_script, (drive, label), r),
    ensures
        ({
            let first = "Get-Partition -DiskNumber "@ + numbers::decimal(drive as nat)
                + " -PartitionNumber 1"@;
            says(
                r@,
                "$ErrorActionPreference='Stop'; Update-HostStorageCache; "@ + first
                    + " | Format-Volume -FileSystem NTFS -NewFileSystemLabel '"@,
                label@,
                "' -Confirm:$false | Out-Null; $p = "@ + first
                    + "; if (-not $p.DriveLetter) { $p | Add-PartitionAccessPath -AssignDriveLetter | Out-Null; $p = "@
                    + first + "; }; Write-Output $p.DriveLetter"@,
            )
        }),
{
    let first = "Get-Partition -DiskNumber "@ + numbers::decimal(drive as nat)
        + " -PartitionNumber 1"@;
    let a = "$ErrorActionPreference='Stop'; Update-HostStorageCache; "@ + first
        + " | Format-Volume -FileSystem NTFS -NewFileSystemLabel '"@;
    let c = "' -Confirm:$false | Out-Null; $p = "@ + first
        + "; if (-not $p.DriveLetter) { $p | Add-PartitionAccessPath -AssignDriveLetter | Out-Null; $p = "@
        + first + "; }; Write-Output $p.DriveLetter"@;
    lemma_says(a, label@, c);
    assert(r@ =~= a + label@ + c);
}

/// A tool that does not work is named; where none works, all that were tried are.
pub proof fn missing_tools_are_named(
    platform: Platform,
    tool: String,
    usable: &Vec<bool>,
    r: Elevation,
    s: Elevation,
)
    requires
        call_ensures(privilege::unix_elevate, (platform, Some((tool, false)), usable), r),
        call_ensures(privilege::unix_elevate, (platform, None, usable), s),
        usable@.len() == privilege::candidate_names(platform).len(),
        forall|i: int| 0 <= i < usable@.len() ==> !#[trigger] usable@[i],
    ensures
        r matches Elevation::GiveUp { message } && says(
            message@,
            "BUF_SUDO is set to '"@,
            tool@,
            "' but that is not an executable."@,
        ),
        s matches Elevation::GiveUp { message } && says(
            message@,
            "No escalation tool found (tried "@,
            if platform is Linux {
                "sudo, pkexec"@
            } else {
                "doas, sudo, run0, pkexec"@
            },
            "). Re-run bufusb as root, or set BUF_SUDO to the one you use."@,
        ),
{
    lemma_says("BUF_SUDO is set to '"@, tool@, "' but that is not an executable."@);
    crate::system_laws::the_first_usable_tool_is_used(
        privilege::candidate_names(platform),
        usable@,
        usable@.len() as int,
    );
    lemma_tools();
    lemma_says(
        "No escalation tool found (tried "@,
        if platform is Linux {
            "sudo, pkexec"@
        } else {
            "doas, sudo, run0, pkexec"@
        },
        "). Re-run bufusb as root, or set BUF_SUDO to the one you use."@,
    );
}

proof fn lemma_tools()
    ensures
        privilege::joined(seq!["sudo"@, "pkexec"@], ", "@) == "sudo, pkexec"@,
        privilege::joined(seq!["doas"@, "sudo"@, "run0"@, "pkexec"@], ", "@)
            == "doas, sudo, run0, pkexec"@,
{
    let c = ", "@;
    let two = seq!["sudo"@, "pkexec"@];
    let four = seq!["doas"@, "sudo"@, "run0"@, "pkexec"@];
    let three = seq!["doas"@, "sudo"@, "run0"@];
    let ds = seq!["doas"@, "sudo"@];
    reveal_with_fuel(privilege::joined, 2);
    assert(two.drop_last() =~= seq!["sudo"@]);
    assert(privilege::joined(two, c) == "sudo"@ + c + "pkexec"@);
    assert(four.drop_last() =~= three);
    assert(three.drop_last() =~= ds);
    assert(ds.drop_last() =~= seq!["doas"@]);
    assert(privilege::joined(ds, c) == "doas"@ + c + "sudo"@);
    assert(privilege::joined(three, c) == "doas"@ + c + "sudo"@ + c + "run0"@);
    assert(privilege::joined(four, c) == "doas"@ + c + "sudo"@ + c + "run0"@ + c + "pkexec"@);
    reveal_strlit(", ");
    reveal_strlit("sudo");
    reveal_strlit("pkexec");
    reveal_strlit("doas");
    reveal_strlit("run0");
    reveal_strlit("sudo, pkexec");
    reveal_strlit("doas, sudo, run0, pkexec");
    assert("sudo"@ + c + "pkexec"@ =~= "sudo, pkexec"@);
    assert("doas"@ + c + "sudo"@ + c + "run0"@ + c + "pkexec"@ =~= "doas, sudo, run0, pkexec"@);
}

/// An elevated process is started by its quoted name, with its arguments behind it, one space
/// before each.
pub proof fn elevated_processes_get_their_arguments(
    exe: &str,
    args: &Vec<String>,
    more: &Vec<String>,
    arg: String,
    r: String,
    s: String,
)
    requires
        call_ensures(privilege::windows_elevate, (exe, args), r),
        call_ensures(privilege::windows_elevate, (exe, more), s),
        more@ == args@.push(arg),
    ensures
        args@.len() == 0 ==> says(r@, "/k \""@, exe@, "\" "@) && s@ == r@ + arg@,
        args@.len() > 0 ==> s@ == r@ + " "@ + arg@,
{
    let (a, m) = (fields::texts(args@), fields::texts(more@));
    assert(m =~= a.push(arg@));
    assert(m.drop_last() =~= a);
    lemma_says("/k \""@, exe@, "\" "@);
    if a.len() == 0 {
        assert(r@ =~= "/k \""@ + exe@ + "\" "@);
    }
    assert(args@.len() > 0 ==> s@ =~= r@ + " "@ + arg@);
    assert(args@.len() == 0 ==> s@ =~= r@ + arg@);
}

/// After writing, the summary states what was written, how long it took and how fast it was.
pub proof fn summaries_state_what_was_written(
    written: u64,
    seconds: &str,
    per_second: u64,
    r: String,
)
    requires
        call_ensures(writer::summary, (written, seconds, per_second), r),
    ensures
        says(
            r@,
            "\n  Written : "@ + human::human(written as nat) + "\n  Time    : "@,
            seconds@,
            "s\n  Speed   : "@ + human::human(per_second as nat) + "/s\n"@,
        ),
{
    let a = "\n  Written : "@ + human::human(written as nat) + "\n  Time    : "@;
    let c = "s\n  Speed   : "@ + human::human(per_second as nat) + "/s\n"@;
    lemma_says(a, seconds@, c);
    assert(r@ =~= a + seconds@ + c);
}

/// At the end of a copy it is said how much was written and where, and warned of a drive without
/// a boot loader.
pub proof fn last_words_state_what_was_written(target: &str, scan: Scan, ok: bool, r: String)
    requires
        call_ensures(copy::complete, (target, &scan, ok), r),
    ensures
        says(
            r@,
            (if ok {
                Seq::empty()
            } else {
                "warning: no EFI bootloader (/EFI/BOOT/BOOT*.EFI) found in the image or its El-Torito boot image; it may not boot under UEFI\n"@
            }) + "\n Copy complete: "@ + human::human(scan.total_bytes as nat) + " across "@
                + numbers::decimal(scan.file_count as nat)
                + " files written to a new FAT32 partition on "@,
            target@,
            "\n\n"@,
        ),
{
    let a = copy::boot_warning(ok) + "\n Copy complete: "@ + human::human(
        scan.total_bytes as nat,
    ) + " across "@ + numbers::decimal(scan.file_count as nat)
        + " files written to a new FAT32 partition on "@;
    lemma_says(a, target@, "\n\n"@);
    assert(r@ =~= a + target@ + "\n\n"@);
}

/// Files that were left out are counted in a note, and so is it noted that boot loaders came from
/// the embedded image.
pub proof fn notes_state_what_happened(skipped: u64, e: Extraction, r: String)
    requires
        call_ensures(copy::notes, (skipped, e), r),
    ensures
        says(
            r@,
            if e == (Extraction::Done { found: true }) {
                "note: EFI bootloader extracted from the ISO's El-Torito boot image\n"@
            } else {
                Seq::empty()
            },
            if skipped > 0 {
                "note: "@ + numbers::decimal(skipped as nat)
                    + " file(s) could not be read from the ISO and were skipped\n"@
            } else {
                Seq::empty()
            },
            Seq::empty(),
        ),
{
    let a = if e == (Extraction::Done { found: true }) {
        "note: EFI bootloader extracted from the ISO's El-Torito boot image\n"@
    } else {
        Seq::empty()
    };
    let b = if skipped > 0 {
        "note: "@ + numbers::decimal(skipped as nat)
            + " file(s) could not be read from the ISO and were skipped\n"@
    } else {
        Seq::empty()
    };
    lemma_says(a, b, Seq::empty());
    assert(r@ =~= a + b);
}

/// At the end of a copy to NTFS all of that is said.
pub proof fn last_words_on_ntfs_state_what_was_written(
    target: &str,
    scan: Scan,
    skipped: u64,
    e: Extraction,
    boots: bool,
    r: String,
)
    requires
        call_ensures(ntfs::complete, (target, &scan, skipped, e), r),
        call_ensures(copy::boot_ok, (&scan, e), boots),
    ensures
        says(
            r@,
            (if skipped > 0 {
                "note: "@ + numbers::decimal(skipped as nat)
                    + " file(s) could not be read from the ISO and were skipped\n"@
            } else {
                Seq::empty()
            }) + (if e == (Extraction::Done { found: true }) {
                "note: EFI bootloader extracted from the ISO's El-Torito boot image\n"@
            } else {
                Seq::empty()
            }) + (if boots {
                Seq::empty()
            } else {
                "warning: no EFI bootloader (/EFI/BOOT/BOOT*.EFI) found in the image or its El-Torito boot image; it may not boot under UEFI\n"@
            }),
            "\n Copy complete (NTFS + UEFI:NTFS): "@ + human::human(scan.total_bytes as nat)
                + " across "@ + numbers::decimal(scan.file_count as nat) + " files written to "@
                + target@,
            "\n\n"@,
        ),
{
    let a = (if skipped > 0 {
        "note: "@ + numbers::decimal(skipped as nat)
            + " file(s) could not be read from the ISO and were skipped\n"@
    } else {
        Seq::empty()
    }) + (if e == (Extraction::Done { found: true }) {
        "note: EFI bootloader extracted from the ISO's El-Torito boot image\n"@
    } else {
        Seq::empty()
    }) + copy::boot_warning(boots);
    let b = "\n Copy complete (NTFS + UEFI:NTFS): "@ + human::human(scan.total_bytes as nat)
        + " across "@ + numbers::decimal(scan.file_count as nat) + " files written to "@ + target@;
    lemma_says(a, b, "\n\n"@);
    assert(r@ =~= a + b + "\n\n"@);
}

/// A dry run states the size of the partition, the target, what would be copied and from where,
/// and notes that there is no boot loader among it.
pub proof fn dry_runs_state_what_would_be_done(
    source: &str,
    target: &str,
    label: &str,
    explicit: bool,
    platform: Platform,
    l: Layout,
    scan: Scan,
    note: String,
    text: String,
)
    requires
        call_ensures(
            copy::run,
            (source, target, true, label, explicit, platform, &l, &scan),
            (RunStep::DryRun { note, text }),
        ),
    ensures
        says(
            text@,
            "\n --dry-run (copy mode): would write a GPT (protective MBR + one "@ + human::human(
                (l.part_sectors * l.sector) as nat,
            ) + " FAT32 data partition) to "@ + target@,
            " and copy "@ + human::human(scan.total_bytes as nat) + " across "@ + numbers::decimal(
                scan.file_count as nat,
            ) + " files from "@ + source@,
            if scan.has_efi_boot {
                ".\n\n"@
            } else {
                ".\nnote: no /EFI/BOOT/BOOT*.EFI in the image\n\n"@
            },
        ),
{
    let a = "\n --dry-run (copy mode): would write a GPT (protective MBR + one "@ + human::human(
        (l.part_sectors * l.sector) as nat,
    ) + " FAT32 data partition) to "@ + target@;
    let b = " and copy "@ + human::human(scan.total_bytes as nat) + " across "@ + numbers::decimal(
        scan.file_count as nat,
    ) + " files from "@ + source@;
    let c = if scan.has_efi_boot {
        ".\n\n"@
    } else {
        ".\nnote: no /EFI/BOOT/BOOT*.EFI in the image\n\n"@
    };
    let middle = if scan.has_efi_boot {
        Seq::empty()
    } else {
        "note: no /EFI/BOOT/BOOT*.EFI in the image\n"@
    };
    assert(".\n"@ + middle + "\n"@ =~= c) by {
        reveal_strlit(".\n");
        reveal_strlit("\n");
        reveal_strlit(".\n\n");
        reveal_strlit("note: no /EFI/BOOT/BOOT*.EFI in the image\n");
        reveal_strlit(".\nnote: no /EFI/BOOT/BOOT*.EFI in the image\n\n");
    }
    lemma_says(a, b, c);
    assert(text@ =~= a + b + (".\n"@ + middle + "\n"@));
}

/// The same of a dry run that would use NTFS, with the sizes of both partitions.
pub proof fn dry_runs_on_ntfs_state_what_would_be_done(
    source: &str,
    target: &str,
    l: NtfsLayout,
    loader_len: usize,
    scan: Scan,
    r: String,
)
    requires
        call_ensures(ntfs::dry_run, (source, target, &l, loader_len, &scan), r),
    ensures
        says(
            r@,
            "\n --dry-run (copy mode, NTFS fallback): would write a GPT ("@ + human::human(
                (512 * l.ntfs_sectors) as nat,
            ) + " NTFS data partition + "@ + human::human((512 * l.loader_sectors) as nat)
                + " UEFI:NTFS loader partition) to "@ + target@,
            " and copy "@ + human::human(scan.total_bytes as nat) + " across "@ + numbers::decimal(
                scan.file_count as nat,
            ) + " files from "@ + source@,
            ".\n\n"@,
        ),
{
    let a = "\n --dry-run (copy mode, NTFS fallback): would write a GPT ("@ + human::human(
        (512 * l.ntfs_sectors) as nat,
    ) + " NTFS data partition + "@ + human::human((512 * l.loader_sectors) as nat)
        + " UEFI:NTFS loader partition) to "@ + target@;
    let b = " and copy "@ + human::human(scan.total_bytes as nat) + " across "@ + numbers::decimal(
        scan.file_count as nat,
    ) + " files from "@ + source@;
    lemma_says(a, b, ".\n\n"@);
    assert(r@ =~= a + b + ".\n\n"@);
}

} // verus!
