use libbuf::list::{
    diskutil_paths, human_bytes, is_usb_device, list_drives, sort_devices, sysfs_flag, sysfs_str,
    sysfs_u64, DiskutilDisk, Enumeration, ListError, SysfsEntry, UsbDevice, WindowsDisk,
};
use libbuf::plist::{plist_bool, plist_str, plist_u64};
use libbuf::table::device_table;
use libbuf::wide::{registry_text, text_of_units};

fn by_float(bytes: u64) -> String {
    const GIB: u64 = 1024 * 1024 * 1024;
    const MIB: u64 = 1024 * 1024;
    const KIB: u64 = 1024;
    if bytes >= GIB {
        format!("{:.2} GiB", bytes as f64 / GIB as f64)
    } else if bytes >= MIB {
        format!("{:.2} MiB", bytes as f64 / MIB as f64)
    } else if bytes >= KIB {
        format!("{:.2} KiB", bytes as f64 / KIB as f64)
    } else {
        format!("{} B", bytes)
    }
}

#[test]
fn human_bytes_examples() {
    assert_eq!(human_bytes(0), "0 B");
    assert_eq!(human_bytes(1023), "1023 B");
    assert_eq!(human_bytes(1024), "1.00 KiB");
    assert_eq!(human_bytes(1536), "1.50 KiB");
    assert_eq!(human_bytes(1_048_575), "1024.00 KiB");
    assert_eq!(human_bytes(1_048_576), "1.00 MiB");
    assert_eq!(human_bytes(1_073_741_824), "1.00 GiB");
    assert_eq!(human_bytes(1_000_204_886_016), "931.51 GiB");
    // halfway between two hundredths: the even one
    assert_eq!(human_bytes(1024 + 128), "1.12 KiB");
    assert_eq!(human_bytes(1024 + 384), "1.38 KiB");
}

#[test]
fn human_bytes_agrees_with_floats() {
    for n in 0..20_000u64 {
        assert_eq!(human_bytes(n), by_float(n));
    }
    let mut state: u64 = 0x1234_5678_9ABC_DEF1;
    for i in 0..40_000u64 {
        state ^= state << 13;
        state ^= state >> 7;
        state ^= state << 17;
        let n = state >> (i % 60);
        assert_eq!(human_bytes(n), by_float(n), "{}", n);
    }
    for n in [u64::MAX, u64::MAX - 1, u64::MAX - 1024, u64::MAX - 1025, 1 << 63, (1 << 53) + 1, (1 << 53) + 3, (1 << 54) + 2, (1 << 54) + 6] {
        assert_eq!(human_bytes(n), by_float(n), "{}", n);
    }
}

fn s(t: &str) -> Option<String> {
    Some(t.to_string())
}

fn entry(name: &str, size: &str, removable: &str) -> SysfsEntry {
    SysfsEntry {
        name: name.to_string(),
        ro: s("0\n"),
        size: s(size),
        removable: s(removable),
        vendor: s("SanDisk \n"),
        model: s(" Ultra   \n"),
    }
}

fn paths(v: &[UsbDevice]) -> Vec<String> {
    v.iter().map(|d| d.path.clone()).collect()
}

#[test]
fn sysfs_drives_are_listed_removable_first() {
    let mut all = vec![
        entry("sdc", "100\n", "0\n"),
        entry("sda", "200\n", "0\n"),
        entry("sdb", "120913920\n", "1\n"),
        entry("nvme0n1", "5\n", "0\n"),
    ];
    for skipped in ["loop0", "ram1", "dm-0", "sr0", "zram0"] {
        all.push(entry(skipped, "100\n", "0\n"));
    }
    let mut locked = entry("sdd", "100", "1");
    locked.ro = s("1\n");
    all.push(locked);
    all.push(entry("sde", "0\n", "1\n"));
    let mut unread = entry("sdf", "", "1");
    unread.size = None;
    all.push(unread);
    let v = list_drives(&Enumeration::Sysfs(all)).unwrap();
    assert_eq!(paths(&v), vec!["/dev/sdb", "/dev/nvme0n1", "/dev/sda", "/dev/sdc"]);
    assert_eq!(v[0].size_bytes, 120_913_920 * 512);
    assert_eq!(v[0].size_human, "57.66 GiB");
    assert_eq!(v[0].model, "SanDisk Ultra");
    assert!(v[0].removable);
}

#[test]
fn sysfs_models_and_sizes() {
    let mut e = entry("sda", "18446744073709551615", "x");
    e.vendor = None;
    e.model = None;
    let v = list_drives(&Enumeration::Sysfs(vec![e])).unwrap();
    assert_eq!(v[0].model, "Unknown");
    assert_eq!(v[0].size_bytes, u64::MAX);
    assert!(!v[0].removable);
    let mut e = entry("sda", "1", "1");
    e.vendor = None;
    let v = list_drives(&Enumeration::Sysfs(vec![e])).unwrap();
    assert_eq!(v[0].model, "Ultra");
}

#[test]
fn sysfs_files() {
    assert!(sysfs_flag(&s(" 1\n")));
    assert!(sysfs_flag(&s("+1")));
    assert!(!sysfs_flag(&s("0")));
    assert!(!sysfs_flag(&s("257")));
    assert!(!sysfs_flag(&s("yes")));
    assert!(!sysfs_flag(&None));
    assert_eq!(sysfs_u64(&s("42\n")), Some(42));
    assert_eq!(sysfs_u64(&s("18446744073709551616")), None);
    assert_eq!(sysfs_u64(&s("-1")), None);
    assert_eq!(sysfs_u64(&None), None);
    assert_eq!(sysfs_str(&s("\t name \n")), "name");
    assert_eq!(sysfs_str(&None), "");
}

#[test]
fn usb_subsystems() {
    assert!(is_usb_device(&[None, s("../../bus/scsi"), s("../../../bus/usb")]));
    assert!(!is_usb_device(&[None, s("../../bus/scsi")]));
    assert!(!is_usb_device(&[]));
}

fn disk(number: u32, size: Option<i64>, removable: bool, bus_type: u32) -> WindowsDisk {
    WindowsDisk { number, size, removable, bus_type, friendly_name: None, object_name: None }
}

#[test]
fn windows_disks() {
    let mut named = disk(1, Some(2048), true, 7);
    named.friendly_name = s("Stick");
    named.object_name = s("ignored");
    let mut object = disk(2, Some(1024), false, 11);
    object.object_name = s("\\Device\\0001");
    let all = vec![
        disk(10, Some(512), false, 17),
        object,
        named,
        disk(3, Some(512), false, 14),
        disk(4, Some(512), false, 16),
        disk(5, Some(0), true, 7),
        disk(6, None, true, 7),
    ];
    let v = list_drives(&Enumeration::Windows(all)).unwrap();
    assert_eq!(
        paths(&v),
        vec![r"\\.\PhysicalDrive1", r"\\.\PhysicalDrive10", r"\\.\PhysicalDrive2"]
    );
    assert_eq!(v[0].model, "Stick");
    assert_eq!(v[1].model, "Unknown");
    assert_eq!(v[2].model, "\\Device\\0001");
    let v = list_drives(&Enumeration::Windows(vec![disk(0, Some(-1), false, 7)])).unwrap();
    assert_eq!(v[0].size_bytes, u64::MAX);
}

const INFO: &str = "<dict>\n<key>Ejectable</key>\n\t<true/>\n<key>TotalSize</key>\n<integer> 4096 </integer>\n\
    <key>MediaName</key><string> USB Disk </string><key>RemovableMedia</key><false/></dict>";

#[test]
fn plist_values() {
    assert_eq!(plist_str(INFO, "MediaName").as_deref(), Some("USB Disk"));
    assert_eq!(plist_str(INFO, "Missing"), None);
    assert_eq!(plist_u64(INFO, "TotalSize"), Some(4096));
    assert_eq!(plist_u64(INFO, "RemovableMedia"), None);
    assert_eq!(plist_bool(INFO, "Ejectable"), Some(true));
    assert_eq!(plist_bool(INFO, "RemovableMedia"), Some(false));
    assert_eq!(plist_bool(INFO, "TotalSize"), None);
    assert_eq!(plist_u64("<key>a</key><integer>x</integer>", "a"), None);
    assert_eq!(plist_str("<key>a</key><string>open", "a"), None);
    // the value need not follow the key at once
    assert_eq!(plist_str("<key>a</key><true/><string>b</string>", "a").as_deref(), Some("b"));
}

#[test]
fn diskutil_disks() {
    let list = "/dev/disk0 (internal, physical):\n   #:  TYPE NAME\n  /dev/disk2 (external):\r\n\n/dev/other\n";
    assert_eq!(diskutil_paths(list), vec!["/dev/disk0", "/dev/disk2"]);
    let with = |path: &str, info: &str| DiskutilDisk { path: path.to_string(), info: info.to_string() };
    let v = list_drives(&Enumeration::Diskutil(vec![
        with("/dev/disk0", "<key>TotalSize</key><integer>10</integer><key>IORegistryEntryName</key><string>SSD</string>"),
        with("/dev/disk2", INFO),
        with("/dev/disk3", "<key>TotalSize</key><integer>0</integer>"),
        with("/dev/disk4", ""),
        with("/dev/disk1", "<key>TotalSize</key><integer>10</integer>"),
    ]))
    .unwrap();
    assert_eq!(paths(&v), vec!["/dev/disk2", "/dev/disk0", "/dev/disk1"]);
    assert_eq!(v[0].model, "USB Disk");
    assert_eq!(v[0].size_bytes, 4096);
    assert_eq!(v[1].model, "SSD");
    assert_eq!(v[2].model, "Unknown");
}

#[test]
fn unsupported_platforms_list_nothing() {
    let e = list_drives(&Enumeration::Unsupported).err().unwrap();
    assert_eq!(e, ListError::Unsupported);
    assert_eq!(e.message(), "--list is not supported on this platform");
}

fn device(path: &str, model: &str, removable: bool) -> UsbDevice {
    UsbDevice {
        path: path.to_string(),
        size_human: "1.00 KiB".to_string(),
        size_bytes: 1024,
        model: model.to_string(),
        removable,
    }
}

#[test]
fn sorting_agrees_with_the_standard_library() {
    let mut state: u64 = 99;
    let mut next = |m: u64| {
        state = state.wrapping_mul(6364136223846793005).wrapping_add(1442695040888963407);
        (state >> 33) % m
    };
    for _ in 0..50 {
        let n = next(12);
        let v: Vec<UsbDevice> = (0..n)
            .map(|i| {
                let path: String =
                    (0..next(4)).map(|_| ['a', 'b', '\u{e9}', '\u{1F4BE}', '\u{FFFD}'][next(5) as usize]).collect();
                device(&path, &format!("{}", i), next(2) == 0)
            })
            .collect();
        let mut want = v.clone();
        want.sort_by(|a, b| b.removable.cmp(&a.removable).then(a.path.cmp(&b.path)));
        let got = sort_devices(&v);
        let key = |v: &[UsbDevice]| -> Vec<(String, String)> {
            v.iter().map(|d| (d.path.clone(), d.model.clone())).collect()
        };
        assert_eq!(key(&got), key(&want));
    }
}

#[test]
fn tables_of_devices() {
    let t = device_table(&[device("/dev/sda", "Samsung SSD 870", false), device("/dev/nvme0n1", "x", true)], false);
    assert_eq!(
        t,
        "\n  DEVICE        SIZE      MODEL          \n\
         \x20 ------------  --------  ---------------\n\
         \x20 /dev/sda      1.00 KiB  Samsung SSD 870\n\
         \x20 /dev/nvme0n1  1.00 KiB  x              \n\n"
    );
    // widths count bytes, filling counts characters
    let t = device_table(&[device("/d", "\u{e9}\u{e9}\u{e9}", false)], false);
    assert!(t.contains("  /d      1.00 KiB  \u{e9}\u{e9}\u{e9}   \n"));
    assert_eq!(device_table(&[], false), "No storage devices found.\n");
    assert_eq!(
        device_table(&[], true),
        "No storage devices found.\nIf a drive is plugged in, re-run with --verbose to see why each device was skipped.\n"
    );
}

#[test]
fn utf16_texts() {
    let units: Vec<u16> = "a\u{e9}\u{1F4BE}z".encode_utf16().collect();
    assert_eq!(text_of_units(&units), "a\u{e9}\u{1F4BE}z");
    for bad in [vec![0xD800u16], vec![0xDC00, 0x41], vec![0xD83D, 0x41, 0xDCBE], vec![0xD83D, 0xD83D, 0xDCBE]] {
        assert_eq!(text_of_units(&bad), String::from_utf16_lossy(&bad));
    }
    let mut buf: Vec<u8> = Vec::new();
    for u in " USB stick \0hidden".encode_utf16() {
        buf.extend_from_slice(&u.to_le_bytes());
    }
    buf.push(0x41);
    assert_eq!(registry_text(&buf), "USB stick");
    assert_eq!(registry_text(&[0x41]), "");
}
