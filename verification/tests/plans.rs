use libbuf::copy::{
    boot_ok, complete, needs_extraction, notes, partition_window, plan_layout, run, stream_copy,
    write_table, CopyError, Extraction, Layout, MountGuard, RunStep, StreamStep,
};
use libbuf::guid::{basic_data_type, esp_type};
use libbuf::mount::{
    busy_disk_message, busy_message, mount_script, no_node_message, ntfs_mount_options,
    unique_mountpoint, unmountable_message, Mounted,
};
use libbuf::ntfs::{self, round_up_sectors, NtfsError, NtfsLayout, NtfsStep};
use libbuf::partition::Transfer;
use libbuf::tree::Scan;
use libbuf::writer::ReadEvent;
use libbuf::Platform;

const GIB: u64 = 1 << 30;

fn scan(max_file: u64, has_efi_boot: bool) -> Scan {
    Scan { total_bytes: 3 * GIB, max_file, file_count: 7, has_efi_boot }
}

#[test]
fn layouts_of_devices() {
    let l = plan_layout(512, Some(GIB)).unwrap();
    assert_eq!(
        l,
        Layout { sector: 512, total_sectors: 2_097_152, align_lba: 2048, part_sectors: 2_097_152 - 2048 - 33 }
    );
    let l = plan_layout(4096, Some(GIB + 4095)).unwrap();
    assert_eq!(
        l,
        Layout { sector: 4096, total_sectors: 262_144, align_lba: 256, part_sectors: 262_144 - 256 - 5 }
    );
}

#[test]
fn devices_without_a_layout() {
    for sector in [0u64, 256, 513, 8192] {
        assert_eq!(plan_layout(sector, Some(GIB)), Err(CopyError::UnsupportedSector { sector }));
    }
    assert_eq!(plan_layout(512, None), Err(CopyError::SizeFailed));
    assert_eq!(plan_layout(512, Some(0)), Err(CopyError::SizeUnknown));
    let least = (2048 + 33 + 131_072) * 512;
    assert_eq!(plan_layout(512, Some(least)), Err(CopyError::TooSmall));
    assert_eq!(plan_layout(512, Some(least + 511)), Err(CopyError::TooSmall));
    assert!(plan_layout(512, Some(least + 512)).is_ok());
}

#[test]
fn copy_errors_in_words() {
    let t = "/dev/sdb";
    assert_eq!(
        CopyError::UnsupportedSector { sector: 520 }.message(t),
        "Fatal: Unsupported logical sector size 520 on /dev/sdb"
    );
    assert_eq!(CopyError::SizeFailed.message(t), "Could not determine size of target /dev/sdb");
    assert_eq!(CopyError::SizeUnknown.message(t), "Fatal: Could not determine size of target device /dev/sdb");
    assert_eq!(CopyError::TooSmall.message(t), "Fatal: Target /dev/sdb is too small for a FAT32 partition");
    assert_eq!(
        CopyError::FileTooLarge { max_file: 5 * GIB, platform: Platform::MacOs }.message(t),
        "Fatal: ISO contains a file larger than 4 GiB (5.00 GiB). FAT32 cannot store it, and \
         macOS has no native NTFS write support"
    );
    assert_eq!(
        CopyError::FileTooLarge { max_file: 5 * GIB, platform: Platform::Unix }.message(t),
        "Fatal: ISO contains a file larger than 4 GiB (5.00 GiB). FAT32 cannot store it, and \
         the NTFS fallback is only implemented for Linux and Windows."
    );
}

#[test]
fn tables_fit_their_layout() {
    for sector in [512u64, 1024, 2048, 4096] {
        let l = plan_layout(sector, Some(GIB)).unwrap();
        let plan = write_table(&l, "ARCH").unwrap();
        assert_eq!(plan.placements, vec![(l.align_lba, l.align_lba + l.part_sectors - 1)]);
        assert_eq!(&plan.writes[2].bytes[0..16], &esp_type());
        assert_eq!(&plan.writes[2].bytes[56..64], b"A\0R\0C\0H\0");
        let w = partition_window(&l);
        assert_eq!(w.read(10), Some(Transfer { offset: 1 << 20, count: 10 }));
        // the window ends where the backup table starts
        let end = (l.align_lba + l.part_sectors) * sector;
        assert_eq!(end, plan.writes[3].offset);
    }
}

fn step(dry: bool, label: &str, explicit: bool, platform: Platform, s: Scan) -> RunStep {
    let l = plan_layout(512, Some(GIB)).unwrap();
    run("a.iso", "/dev/sdb", dry, label, explicit, platform, &l, &s)
}

#[test]
fn labels_are_shortened_with_a_note() {
    match step(false, "way too long a label", true, Platform::Linux, scan(1, true)) {
        RunStep::Write { note, label } => {
            assert_eq!(label, "WAY TOO LON");
            assert_eq!(note, "note: FAT32 labels are 11 characters, using 'WAY TOO LON'\n");
        }
        _ => panic!(),
    }
    match step(false, "way too long a label", false, Platform::Linux, scan(1, true)) {
        RunStep::Write { note, label } => assert_eq!((note.as_str(), label.as_str()), ("", "WAY TOO LON")),
        _ => panic!(),
    }
    match step(false, "arch_202608", true, Platform::Linux, scan(1, true)) {
        RunStep::Write { note, label } => assert_eq!((note.as_str(), label.as_str()), ("", "arch_202608")),
        _ => panic!(),
    }
}

#[test]
fn dry_runs_tell_what_would_happen() {
    match step(true, "BUF", false, Platform::Linux, scan(1, true)) {
        RunStep::DryRun { note, text } => {
            assert_eq!(note, "");
            assert_eq!(
                text,
                "\n --dry-run (copy mode): would write a GPT (protective MBR + one 1022.98 MiB \
                 FAT32 data partition) to /dev/sdb and copy 3.00 GiB across 7 files from a.iso.\n\n"
            );
        }
        _ => panic!(),
    }
    match step(true, "BUF", false, Platform::Linux, scan(1, false)) {
        RunStep::DryRun { text, .. } => {
            assert!(text.ends_with("a.iso.\nnote: no /EFI/BOOT/BOOT*.EFI in the image\n\n"))
        }
        _ => panic!(),
    }
}

#[test]
fn large_files_fall_back_to_ntfs() {
    let limit = u32::MAX as u64;
    assert!(matches!(step(false, "B", false, Platform::Linux, scan(limit, true)), RunStep::Write { .. }));
    assert!(matches!(step(false, "B", false, Platform::Linux, scan(limit + 1, true)), RunStep::NtfsFallback));
    assert!(matches!(step(true, "B", false, Platform::Windows, scan(limit + 1, true)), RunStep::NtfsFallback));
    assert!(matches!(
        step(false, "B", false, Platform::MacOs, scan(limit + 1, true)),
        RunStep::Refuse(CopyError::FileTooLarge { platform: Platform::MacOs, .. })
    ));
    assert!(matches!(
        step(false, "B", false, Platform::Other, scan(limit + 1, true)),
        RunStep::Refuse(CopyError::FileTooLarge { platform: Platform::Other, .. })
    ));
}

#[test]
fn streams_are_copied_to_the_end() {
    assert_eq!(stream_copy(10, ReadEvent::Got(5)), StreamStep::Write { count: 5, total: 15 });
    assert_eq!(stream_copy(10, ReadEvent::Got(0)), StreamStep::Done { total: 10 });
    assert_eq!(stream_copy(10, ReadEvent::Interrupted), StreamStep::ReadAgain);
    assert_eq!(stream_copy(10, ReadEvent::Failed), StreamStep::Fail);
}

#[test]
fn last_words_of_a_copy() {
    let found = Extraction::Done { found: true };
    assert!(needs_extraction(&scan(1, false)));
    assert!(!needs_extraction(&scan(1, true)));
    assert!(boot_ok(&scan(1, true), Extraction::NotNeeded));
    assert!(boot_ok(&scan(1, false), found));
    assert!(!boot_ok(&scan(1, false), Extraction::Done { found: false }));
    assert!(!boot_ok(&scan(1, false), Extraction::Failed));
    assert_eq!(notes(0, Extraction::Failed), "");
    assert_eq!(
        notes(2, found),
        "note: EFI bootloader extracted from the ISO's El-Torito boot image\n\
         note: 2 file(s) could not be read from the ISO and were skipped\n"
    );
    assert_eq!(
        complete("/dev/sdb", &scan(1, true), true),
        "\n Copy complete: 3.00 GiB across 7 files written to a new FAT32 partition on /dev/sdb\n\n"
    );
    assert_eq!(
        complete("/dev/sdb", &scan(1, false), false),
        "warning: no EFI bootloader (/EFI/BOOT/BOOT*.EFI) found in the image or its El-Torito \
         boot image; it may not boot under UEFI\n\
         \n Copy complete: 3.00 GiB across 7 files written to a new FAT32 partition on /dev/sdb\n\n"
    );
}

#[test]
fn round_up_sectors_basic() {
    assert_eq!(round_up_sectors(0, 512), 0);
    assert_eq!(round_up_sectors(1, 512), 1);
    assert_eq!(round_up_sectors(512, 512), 1);
    assert_eq!(round_up_sectors(513, 512), 2);
}

#[test]
fn ntfs_layouts() {
    let l = ntfs::plan_layout(Some(GIB), 1_048_577).unwrap();
    assert_eq!(
        l,
        NtfsLayout { total_sectors: 2_097_152, ntfs_sectors: 2_097_152 - 2048 - 33 - 2049, loader_sectors: 2049 }
    );
    assert_eq!(ntfs::plan_layout(None, 512), Err(NtfsError::SizeFailed));
    assert_eq!(ntfs::plan_layout(Some(0), 512), Err(NtfsError::SizeUnknown));
    let least = (2048 + 33 + 1 + 131_072) * 512;
    assert_eq!(ntfs::plan_layout(Some(least), 512), Err(NtfsError::TooSmall));
    assert!(ntfs::plan_layout(Some(least + 512), 512).is_ok());
}

#[test]
fn ntfs_tables_and_loader() {
    let loader = vec![0xABu8; 700];
    let l = ntfs::plan_layout(Some(GIB), loader.len()).unwrap();
    let plan = ntfs::write_table(&l, "DATA", loader.len()).unwrap();
    assert_eq!(plan.placements[0], (2048, 2047 + l.ntfs_sectors));
    assert_eq!(plan.placements[1], (2048 + l.ntfs_sectors, 2047 + l.ntfs_sectors + 2));
    let arr = &plan.writes[2].bytes;
    assert_eq!(&arr[0..16], &basic_data_type());
    assert_eq!(&arr[128..144], &esp_type());
    assert_eq!(&arr[56..64], b"D\0A\0T\0A\0");
    assert_eq!(&arr[128 + 56..128 + 64], b"U\0E\0F\0I\0");
    let w = ntfs::loader_write(&l, &loader);
    assert_eq!(w.offset, plan.placements[1].0 * 512);
    assert_eq!(w.bytes.len(), 1024);
    assert_eq!(&w.bytes[..700], &loader[..]);
    assert!(w.bytes[700..].iter().all(|&b| b == 0));
}

#[test]
fn ntfs_in_words() {
    let l = ntfs::plan_layout(Some(GIB), 1 << 20).unwrap();
    assert_eq!(
        ntfs::dry_run("a.iso", "/dev/sdb", &l, 1 << 20, &scan(5 * GIB, true)),
        "\n --dry-run (copy mode, NTFS fallback): would write a GPT (1021.98 MiB NTFS data \
         partition + 1.00 MiB UEFI:NTFS loader partition) to /dev/sdb and copy 3.00 GiB across 7 files \
         from a.iso.\n\n"
    );
    assert_eq!(
        ntfs::complete("/dev/sdb", &scan(1, true), 0, Extraction::NotNeeded),
        "\n Copy complete (NTFS + UEFI:NTFS): 3.00 GiB across 7 files written to /dev/sdb\n\n"
    );
    assert_eq!(
        ntfs::complete("/dev/sdb", &scan(1, false), 3, Extraction::Done { found: true }),
        "note: 3 file(s) could not be read from the ISO and were skipped\n\
         note: EFI bootloader extracted from the ISO's El-Torito boot image\n\
         \n Copy complete (NTFS + UEFI:NTFS): 3.00 GiB across 7 files written to /dev/sdb\n\n"
    );
    assert!(ntfs::complete("/dev/sdb", &scan(1, false), 0, Extraction::Failed)
        .starts_with("warning: no EFI bootloader"));
    assert_eq!(ntfs::check_sector(512), Ok(()));
    let e = ntfs::check_sector(4096).unwrap_err();
    assert_eq!(
        e.message("/dev/sdb"),
        "Fatal: target reports a 4096-byte logical sector, the NTFS fallback currently only \
         supports 512-byte-logical devices. Use --mode dd instead."
    );
    assert_eq!(NtfsError::SizeFailed.message("/dev/sdb"), "Could not determine size of target /dev/sdb");
    assert_eq!(NtfsError::SizeUnknown.message("/dev/sdb"), "Could not determine size of target device /dev/sdb");
    assert_eq!(
        NtfsError::TooSmall.message("/dev/sdb"),
        "Target /dev/sdb is too small for an NTFS + UEFI:NTFS layout"
    );
}

#[test]
fn windows_format_script() {
    assert_eq!(
        ntfs::format_script(3, "MY STICK"),
        "$ErrorActionPreference='Stop'; \
         Update-HostStorageCache; \
         Get-Partition -DiskNumber 3 -PartitionNumber 1 | \
         Format-Volume -FileSystem NTFS -NewFileSystemLabel 'MY STICK' -Confirm:$false | Out-Null; \
         $p = Get-Partition -DiskNumber 3 -PartitionNumber 1; \
         if (-not $p.DriveLetter) { \
         $p | Add-PartitionAccessPath -AssignDriveLetter | Out-Null; \
         $p = Get-Partition -DiskNumber 3 -PartitionNumber 1; \
         }; \
         Write-Output $p.DriveLetter"
    );
}

#[test]
fn mounting() {
    let g = MountGuard::new("/tmp/x".to_string(), "C:\\a.iso".to_string());
    assert_eq!(g.mount_point(), "/tmp/x");
    assert_eq!(g.dismount_script(), "Dismount-DiskImage -ImagePath 'C:\\a.iso' | Out-Null");
    assert_eq!(
        mount_script("a.iso"),
        "$ErrorActionPreference='Stop'; \
         $v = (Mount-DiskImage -ImagePath 'a.iso' -PassThru | Get-Volume).DriveLetter; \
         Write-Output $v"
    );
    assert_eq!(unique_mountpoint(Mounted::Iso, 12, 345), "bufusb-iso-12-345");
    assert_ne!(unique_mountpoint(Mounted::Iso, 1, 2345), unique_mountpoint(Mounted::Iso, 12, 345));
    assert_eq!(
        unique_mountpoint(Mounted::Ntfs, 0, u128::MAX),
        "bufusb-ntfs-0-340282366920938463463374607431768211455"
    );
    assert_eq!(
        busy_message("/dev/sdb1"),
        "Fatal: /dev/sdb1 is mounted and could not be unmounted (still in use? a file \
         manager window or open file will hold it). Close whatever is \
         using it and retry."
    );
    assert_eq!(
        busy_disk_message("/dev/disk2"),
        "Fatal: diskutil unmountDisk /dev/disk2 failed; a volume on the target is still in use. \
         Close whatever is using it and retry."
    );
}

#[test]
fn ntfs_runs() {
    let s = scan(5 * GIB, true);
    assert!(matches!(ntfs::run("a", "b", false, None, 512, &s), Err(NtfsError::SizeFailed)));
    assert!(matches!(ntfs::run("a", "b", true, Some(0), 512, &s), Err(NtfsError::SizeUnknown)));
    let l = ntfs::plan_layout(Some(GIB), 512).unwrap();
    match ntfs::run("a", "b", false, Some(GIB), 512, &s) {
        Ok(NtfsStep::Write { layout }) => assert_eq!(layout, l),
        _ => panic!(),
    }
    match ntfs::run("a", "b", true, Some(GIB), 512, &s) {
        Ok(NtfsStep::DryRun { text }) => assert_eq!(text, ntfs::dry_run("a", "b", &l, 512, &s)),
        _ => panic!(),
    }
}

#[test]
fn ntfs_mounting() {
    assert_eq!(ntfs_mount_options(0).unwrap(), vec!["-t", "ntfs3", "-o", "rw"]);
    assert_eq!(ntfs_mount_options(1).unwrap(), vec!["-t", "ntfs-3g"]);
    assert_eq!(ntfs_mount_options(2), None);
    assert_eq!(
        unmountable_message("/dev/sdb1"),
        "Fatal: Could not mount /dev/sdb1 as NTFS (tried ntfs3 and ntfs-3g). Is one of them installed?"
    );
    assert_eq!(no_node_message("/dev/sdb1"), "Partition node /dev/sdb1 did not appear after writing the GPT");
}
