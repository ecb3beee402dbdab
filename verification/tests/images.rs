use libbuf::eltorito::{
    catalog_offset, efi_entry_offset, eltorito_efi_image, eltorito_efi_rba, embedded_window,
};
use libbuf::label::{
    fat_label, iso_volume_label, resolve_label, sanitize_label, shorten, DESCRIPTOR_AT,
};
use libbuf::partition::Transfer;
use libbuf::tree::{
    after_open, copy_action, is_dot_entry, is_efi_boot_comps, is_inside, link_target,
    resolve_symlink, scan_action, scan_tree, CopyAction, EntryKind, FoundFile, OpenStep, ScanAction,
};
use libbuf::walk::{BootStep, BootWalk, CopyStep, ScanStep, TreeWalk};

#[test]
fn label_resolution_and_fat_padding() {
    assert_eq!(&fat_label("arch")[..], b"ARCH       ");
    assert_eq!(&fat_label("ARCH_202608")[..], b"ARCH_202608");
    assert_eq!(&fat_label("way too long a label")[..], b"WAY TOO LON");

    assert_eq!(sanitize_label("Ubuntu 24.04'; rm -rf"), "Ubuntu 24_04__ rm -rf");
    assert_eq!(sanitize_label("  ***  "), "___");

    // an image with no ISO9660 PVD falls through to the default
    let mut image = vec![0u8; 1 << 16];
    assert_eq!(iso_volume_label(&image), None);
    assert_eq!(resolve_label(None, &image), ("BUF".to_string(), false));
    assert_eq!(resolve_label(Some("MYSTICK"), &image), ("MYSTICK".to_string(), true));

    // now stamp a minimal PVD in and check we read the identifier back
    let mut pvd = [b' '; 0x48];
    pvd[0] = 1;
    pvd[1..6].copy_from_slice(b"CD001");
    pvd[0x28..0x28 + 11].copy_from_slice(b"ARCH_202608");
    image[DESCRIPTOR_AT..DESCRIPTOR_AT + 0x48].copy_from_slice(&pvd);
    assert_eq!(iso_volume_label(&image).as_deref(), Some("ARCH_202608"));
    assert_eq!(resolve_label(None, &image), ("ARCH_202608".to_string(), false));
    assert_eq!(resolve_label(Some("MYSTICK"), &image), ("MYSTICK".to_string(), true));
}

fn with_identifier(id: &[u8]) -> Vec<u8> {
    let mut image = vec![0u8; DESCRIPTOR_AT + 0x48];
    image[DESCRIPTOR_AT] = 1;
    image[DESCRIPTOR_AT + 1..DESCRIPTOR_AT + 6].copy_from_slice(b"CD001");
    for b in &mut image[DESCRIPTOR_AT + 0x28..] {
        *b = b' ';
    }
    image[DESCRIPTOR_AT + 0x28..DESCRIPTOR_AT + 0x28 + id.len()].copy_from_slice(id);
    image
}

#[test]
fn volume_identifiers() {
    assert_eq!(iso_volume_label(&with_identifier(b"A.B\x00C\xFF")).as_deref(), Some("A.B_C_"));
    assert_eq!(resolve_label(None, &with_identifier(b"A.B C")).0, "A_B C");
    assert_eq!(iso_volume_label(&with_identifier(b"")), None);
    assert_eq!(resolve_label(None, &with_identifier(b"")).0, "BUF");
    let mut v = with_identifier(b"X");
    v[DESCRIPTOR_AT] = 2;
    assert_eq!(iso_volume_label(&v), None);
    let mut v = with_identifier(b"X");
    v.pop();
    assert_eq!(iso_volume_label(&v), None);
    assert_eq!(iso_volume_label(&[]), None);
    // an explicit label that leaves nothing gives the default, and counts as explicit
    assert_eq!(resolve_label(Some("   "), &with_identifier(b"X")), ("BUF".to_string(), true));
}

#[test]
fn sanitized_labels_hold_allowed_characters_only() {
    for t in ["a'b\"c$d`e;f\ng\\h", "\u{e9}\u{1F4BE}", " x\t", "", "ok-ok_ok 9"] {
        let s = sanitize_label(t);
        assert!(s.chars().all(|c| c.is_ascii_alphanumeric() || c == '_' || c == '-' || c == ' '));
        assert_eq!(sanitize_label(&s), s);
    }
    assert_eq!(sanitize_label(" x\t"), "x_");
}

#[test]
fn shortened_labels() {
    assert_eq!(shorten("way too long a label"), "WAY TOO LON");
    assert_eq!(shorten("0123456789 more"), "0123456789");
    assert_eq!(fat_label(&shorten("0123456789 more")), fat_label("0123456789 more"));
    assert_eq!(&fat_label("\u{e9}a")[..], b"\xC3\xA9A        ");
}

#[test]
fn eltorito_catalog_parsing() {
    // EFI advertised via a section header after a BIOS initial entry
    let mut cat = vec![0u8; 2048];
    cat[0] = 0x01; // validation header id
    cat[1] = 0x00; // platform: x86
    cat[0x1E] = 0x55;
    cat[0x1F] = 0xAA;
    cat[0x20] = 0x88; // BIOS initial entry, should be ignored
    cat[0x28..0x2C].copy_from_slice(&100u32.to_le_bytes());
    cat[0x40] = 0x91; // final section header
    cat[0x41] = 0xEF; // platform: EFI
    cat[0x42..0x44].copy_from_slice(&1u16.to_le_bytes());
    cat[0x60] = 0x88; // its bootable entry
    cat[0x68..0x6C].copy_from_slice(&7777u32.to_le_bytes());
    assert_eq!(eltorito_efi_rba(&cat), Some(7777));
    assert_eq!(eltorito_efi_image(&cat), Some(7777 * 2048));

    let mut cat2 = vec![0u8; 2048];
    cat2[0] = 0x01;
    cat2[1] = 0xEF;
    cat2[0x1E] = 0x55;
    cat2[0x1F] = 0xAA;
    cat2[0x20] = 0x88;
    cat2[0x28..0x2C].copy_from_slice(&42u32.to_le_bytes());
    assert_eq!(eltorito_efi_rba(&cat2), Some(42));

    assert_eq!(eltorito_efi_rba(&vec![0u8; 2048]), None);
    cat[0x41] = 0x00; // section platform no longer EFI
    assert_eq!(eltorito_efi_rba(&cat), None);
}

fn catalog(sections: &[(usize, u8, u8, u16)]) -> Vec<u8> {
    let mut cat = vec![0u8; 2048];
    cat[0] = 0x01;
    cat[0x1E] = 0x55;
    cat[0x1F] = 0xAA;
    for (off, id, platform, count) in sections {
        cat[*off] = *id;
        cat[*off + 1] = *platform;
        cat[*off + 2..*off + 4].copy_from_slice(&count.to_le_bytes());
    }
    cat
}

#[test]
fn sections_are_walked_over_their_entries() {
    let mut cat = catalog(&[(0x40, 0x90, 0x00, 2), (0xA0, 0x90, 0xEF, 0), (0xC0, 0x91, 0xEF, 3)]);
    cat[0xE0] = 0x88;
    cat[0xE8..0xEC].copy_from_slice(&u32::MAX.to_le_bytes());
    assert_eq!(efi_entry_offset(&cat), Some(0xE0));
    assert_eq!(eltorito_efi_rba(&cat), Some(u32::MAX as u64));
    cat[0xE0] = 0x00; // not bootable
    assert_eq!(eltorito_efi_rba(&cat), None);
    // no header after the entries of the first section
    assert_eq!(efi_entry_offset(&catalog(&[(0x40, 0x90, 0x00, 1), (0xA0, 0x91, 0xEF, 1)])), None);
    // so many entries that the next header would lie outside
    assert_eq!(efi_entry_offset(&catalog(&[(0x40, 0x90, 0x00, 0xFFFF)])), None);
    // nothing follows the last header
    assert_eq!(efi_entry_offset(&catalog(&[(0x40, 0x91, 0x00, 0), (0x60, 0x91, 0xEF, 1)])), None);
}

#[test]
fn entries_behind_the_catalog_name_no_image() {
    let mut cat = vec![0u8; 2048];
    for (at, b) in [
        (0, 1),
        (0x1E, 0x55),
        (0x1F, 0xAA),
        (0x40, 0x90),
        (0x42, 60),
        (0x7E0, 0x91),
        (0x7E1, 0xEF),
        (0x7E2, 1),
    ] {
        cat[at] = b;
    }
    assert_eq!(efi_entry_offset(&cat), Some(2048));
    assert_eq!(eltorito_efi_rba(&cat), None);
    assert_eq!(eltorito_efi_image(&cat), None);
    // bootable, but cut off within its sector number
    cat.extend_from_slice(&[0x88, 0, 0, 0, 0, 0, 0, 0, 7, 0, 0]);
    assert_eq!(eltorito_efi_rba(&cat), None);
    cat.push(0);
    assert_eq!(eltorito_efi_rba(&cat), Some(7));
    assert_eq!(eltorito_efi_image(&cat), Some(7 * 2048));
}

#[test]
fn boot_records_point_to_the_catalog() {
    let mut r = vec![0u8; 2048];
    r[1..6].copy_from_slice(b"CD001");
    r[7..30].copy_from_slice(b"EL TORITO SPECIFICATION");
    r[0x47..0x4B].copy_from_slice(&19u32.to_le_bytes());
    assert_eq!(catalog_offset(&r), Some(19 * 2048));
    let mut bad = r.clone();
    bad[0] = 1;
    assert_eq!(catalog_offset(&bad), None);
    let mut bad = r.clone();
    bad[10] = b'x';
    assert_eq!(catalog_offset(&bad), None);
    assert_eq!(catalog_offset(&r[..2047]), None);
}

#[test]
fn embedded_images_reach_to_the_end_of_the_file() {
    let p = embedded_window(4096, 10_000);
    assert_eq!(p.read(100_000), Some(Transfer { offset: 4096, count: 5904 }));
    assert_eq!(embedded_window(4096, 4096).read(1), None);
    assert_eq!(embedded_window(4096, 10).read(1), None);
}

fn comps(p: &str) -> Vec<String> {
    p.split('/').filter(|c| !c.is_empty()).map(|c| c.to_string()).collect()
}

#[test]
fn efi_boot_loaders() {
    assert!(is_efi_boot_comps(&comps("EFI/BOOT/BOOTX64.EFI")));
    assert!(is_efi_boot_comps(&comps("efi/Boot/bootaa64.efi")));
    assert!(is_efi_boot_comps(&comps("efi/boot/boot.efi")));
    assert!(!is_efi_boot_comps(&comps("EFI/BOOT/grubx64.efi")));
    assert!(!is_efi_boot_comps(&comps("EFI/BOOT/BOOTX64.EFI/x")));
    assert!(!is_efi_boot_comps(&comps("BOOT/BOOTX64.EFI")));
    assert!(!is_efi_boot_comps(&comps("EFI/BOOT/BOOTX64.EF")));
    assert!(!is_efi_boot_comps(&comps("EFI/BOOT/.efi")));
}

#[test]
fn scans_sum_up() {
    let f = |p: &str, len: u64| FoundFile { comps: comps(p), len };
    let s = scan_tree(&vec![f("a", 10), f("EFI/BOOT/BOOTX64.EFI", 30), f("b/c", 20)]);
    assert_eq!((s.total_bytes, s.max_file, s.file_count, s.has_efi_boot), (60, 30, 3, true));
    let s = scan_tree(&vec![f("a", 10), f("b", 0)]);
    assert_eq!((s.total_bytes, s.max_file, s.file_count, s.has_efi_boot), (10, 10, 2, false));
    let s = scan_tree(&vec![]);
    assert_eq!((s.total_bytes, s.max_file, s.file_count, s.has_efi_boot), (0, 0, 0, false));
}

#[test]
fn symlink_loop_is_detected_not_followed() {
    // a link that leads to a directory, such as the one that holds it
    assert_eq!(copy_action(EntryKind::Symlink, true, 1), CopyAction::SkipLinkedDirectory);
    assert_eq!(scan_action(EntryKind::Symlink), ScanAction::Count);
}

#[test]
fn entries_are_copied_or_entered() {
    assert_eq!(copy_action(EntryKind::Directory, true, 1), CopyAction::Descend);
    assert_eq!(copy_action(EntryKind::Symlink, false, 2), CopyAction::Copy);
    assert_eq!(copy_action(EntryKind::File, false, 2), CopyAction::Copy);
    assert_eq!(copy_action(EntryKind::Unknown, false, 2), CopyAction::Ignore);
    assert_eq!(copy_action(EntryKind::Directory, true, 0), CopyAction::Ignore);
    assert_eq!(scan_action(EntryKind::Directory), ScanAction::Descend);
    assert_eq!(scan_action(EntryKind::File), ScanAction::Count);
    assert_eq!(scan_action(EntryKind::Unknown), ScanAction::Ignore);
    assert!(is_dot_entry("."));
    assert!(is_dot_entry(".."));
    assert!(!is_dot_entry("..."));
}

fn names(p: &str) -> Vec<Vec<u8>> {
    comps(p).into_iter().map(|c| c.into_bytes()).collect()
}

#[test]
fn links_stay_inside_the_image() {
    let root = names("mnt/iso");
    assert_eq!(link_target(&root, &names("mnt/iso/a"), &names("boot/x"), true), names("mnt/iso/boot/x"));
    assert_eq!(link_target(&root, &names("mnt/iso/a"), &names("../x"), false), names("mnt/iso/a/../x"));
    assert!(is_inside(&names("mnt/iso/x"), &root));
    assert!(is_inside(&root, &root));
    assert!(!is_inside(&names("mnt/isolated/x"), &root));
    assert!(!is_inside(&names("mnt"), &root));
    assert_eq!(resolve_symlink(Some(names("mnt/iso/x")), Some(root.clone())), Some(names("mnt/iso/x")));
    assert_eq!(resolve_symlink(Some(names("etc/passwd")), Some(root.clone())), None);
    assert_eq!(resolve_symlink(None, Some(root.clone())), None);
    assert_eq!(resolve_symlink(Some(names("mnt/iso/x")), None), None);
}

#[test]
fn names_that_are_no_text_stay_as_they_are() {
    let odd = vec![b"mnt".to_vec(), vec![0xFF, b'a']];
    let other = vec![b"mnt".to_vec(), vec![0xFE, b'a']];
    let file = vec![vec![0x80]];
    let found = link_target(&odd, &other, &file, true);
    assert_eq!(found, vec![b"mnt".to_vec(), vec![0xFF, b'a'], vec![0x80]]);
    assert!(is_inside(&found, &odd));
    assert!(!is_inside(&found, &other));
}

#[test]
fn files_that_do_not_open_are_looked_up_and_skipped_last() {
    assert_eq!(after_open(true, None), OpenStep::Copy);
    assert_eq!(after_open(true, Some(false)), OpenStep::Copy);
    assert_eq!(after_open(false, None), OpenStep::TryTarget);
    assert_eq!(after_open(false, Some(true)), OpenStep::Copy);
    assert_eq!(after_open(false, Some(false)), OpenStep::Skip);
}

#[test]
fn walks_read_each_directory_once_and_count_what_they_skip() {
    let mut w = TreeWalk::new();
    assert!(w.can_count());
    assert_eq!(w.next_dir(), Some(0));
    assert_eq!(w.copy_entry(EntryKind::Directory, true, 1), CopyStep::Enter { dir: 1 });
    assert_eq!(w.copy_entry(EntryKind::Symlink, true, 1), CopyStep::SkipLinkedDirectory);
    assert_eq!(w.copy_entry(EntryKind::Directory, true, 1), CopyStep::Enter { dir: 2 });
    assert_eq!(w.copy_entry(EntryKind::Unknown, false, 1), CopyStep::Ignore);
    assert_eq!(w.copy_entry(EntryKind::File, false, 1), CopyStep::Copy);
    assert_eq!(w.after_open(true, None), OpenStep::Copy);
    assert_eq!(w.skipped(), 1);
    // the directory that was found last comes first
    assert_eq!(w.next_dir(), Some(2));
    assert_eq!(w.copy_entry(EntryKind::Directory, true, 2), CopyStep::Enter { dir: 3 });
    assert_eq!(w.next_dir(), Some(3));
    assert_eq!(w.copy_entry(EntryKind::Symlink, false, 3), CopyStep::Copy);
    assert_eq!(w.after_open(false, None), OpenStep::TryTarget);
    assert_eq!(w.skipped(), 1);
    assert_eq!(w.after_open(false, Some(false)), OpenStep::Skip);
    assert_eq!(w.skipped(), 2);
    assert_eq!(w.next_dir(), Some(1));
    assert_eq!(w.next_dir(), None);
    assert_eq!(w.next_dir(), None);

    let mut w = TreeWalk::new();
    assert_eq!(w.next_dir(), Some(0));
    assert_eq!(w.scan_entry(EntryKind::Symlink), ScanStep::Count);
    assert_eq!(w.scan_entry(EntryKind::Directory), ScanStep::Enter { dir: 1 });
    assert_eq!(w.scan_entry(EntryKind::Unknown), ScanStep::Ignore);
    assert_eq!(w.next_dir(), Some(1));
    assert_eq!((w.next_dir(), w.skipped()), (None, 0));
}

#[test]
fn boot_images_are_walked_directory_within_directory() {
    let store = |p: &str| BootStep::Store { path: comps(p) };
    let s = |name: &str| name.to_string();
    let mut w = BootWalk::new();
    assert_eq!(w.entry(s("."), true), BootStep::Ignore);
    assert_eq!(w.entry(s("EFI"), true), BootStep::Enter);
    assert_eq!(w.entry(s(".."), true), BootStep::Ignore);
    assert_eq!(w.entry(s("note"), false), store("EFI/note"));
    assert_eq!(w.entry(s("boot"), true), BootStep::Enter);
    assert!(!w.found_boot());
    assert_eq!(w.entry(s("bootx64.efi"), false), store("EFI/boot/bootx64.efi"));
    assert!(w.found_boot());
    w.leave();
    assert_eq!(w.entry(s("b"), false), store("EFI/b"));
    w.leave();
    assert_eq!(w.entry(s("bootx64.efi"), false), store("bootx64.efi"));
    assert!(w.found_boot());

    // a directory of that name is no loader
    let mut w = BootWalk::new();
    w.entry(s("EFI"), true);
    w.entry(s("BOOT"), true);
    assert_eq!(w.entry(s("BOOTX64.EFI"), true), BootStep::Enter);
    assert!(!w.found_boot());
}
