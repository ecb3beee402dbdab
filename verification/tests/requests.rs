use libbuf::device::{
    is_partition_of, mounted_partitions, needs_end, open_volume_name, partition_node, physical_drive_number,
    reread_partitions, volume_root, wait_for_node, FileKind, RereadReply, RereadStep, SizeFacts,
    WaitStep,
};
use libbuf::fields::{first_word_of, lines_of, split_chars};
use libbuf::logger::{
    home_dir, log_file_name, log_line, log_path, log_stamp, passwd_home, Level, LocalTime, LogPath, LogPlan,
};
use libbuf::numbers::{decimal_text, parse_text, two_digit_text};
use libbuf::privilege::{
    candidates, is_executable, places, requested_tool, unix_elevate, windows_elevate, Elevation,
    Places,
};
use libbuf::text::{char_is_white, trim_str};
use libbuf::validate::{
    check_params, SourceFacts, TargetFacts, ValidateError, MAX_BLOCK_SIZE,
};
use libbuf::{device_size, init_logger, is_privileged, validate, Platform, WriteParams};

fn params(block_size: usize, offset: u64) -> WriteParams {
    WriteParams { source: "a.iso".to_string(), target: "/dev/sdb".to_string(), block_size, offset }
}

fn source(size: u64) -> SourceFacts {
    SourceFacts { is_there: true, kind: Some(FileKind::Regular), size: Some(size) }
}

fn target(size: u64) -> TargetFacts {
    TargetFacts { is_there: true, has_metadata: true, opened: true, size: Some(size) }
}

fn ask(p: &WriteParams, s: &SourceFacts, t: &TargetFacts) -> Result<u64, ValidateError> {
    validate(p, Platform::Linux, 512, s, t)
}

#[test]
fn requests_that_pass() {
    assert_eq!(ask(&params(1 << 20, 0), &source(1000), &target(1000)), Ok(1000));
    assert_eq!(ask(&params(MAX_BLOCK_SIZE, 512), &source(488), &target(1000)), Ok(488));
    // a target whose size the platform cannot tell is not checked
    assert_eq!(ask(&params(1, 1 << 40), &source(1000), &target(0)), Ok(1000));
    let dev = SourceFacts { kind: Some(FileKind::CharDevice), ..source(5) };
    assert_eq!(ask(&params(1, 0), &dev, &target(5)), Ok(5));
}

fn refused(p: WriteParams, s: SourceFacts, t: TargetFacts, platform: Platform) -> (ValidateError, String) {
    let e = validate(&p, platform, 512, &s, &t).unwrap_err();
    (e, e.message(&p))
}

#[test]
fn bad_parameters() {
    let l = Platform::Linux;
    assert_eq!(
        refused(params(0, 1), source(0), target(0), l),
        (ValidateError::BlockSizeZero, "Block size must be greater than zero".to_string())
    );
    assert_eq!(
        refused(params(MAX_BLOCK_SIZE + 1, 0), source(1), target(1), l),
        (
            ValidateError::BlockSizeTooLarge,
            "Block size 268435457 is unreasonably large (max 256 MiB)".to_string()
        )
    );
    assert_eq!(
        refused(params(1, 513), source(1), target(10_000), l),
        (
            ValidateError::OffsetUnaligned { sector: 512 },
            "--offset 513 is not a multiple of the target's 512-byte sector size".to_string()
        )
    );
    assert_eq!(check_params(&params(1, 4096), 4096), Ok(()));
    assert!(check_params(&params(1, 512), 4096).is_err());
}

#[test]
fn bad_sources() {
    let (p, t, l) = (params(1, 0), target(10_000), Platform::Linux);
    let missing = SourceFacts { is_there: false, kind: None, size: None };
    assert_eq!(
        refused(p.clone(), missing, t, l),
        (ValidateError::SourceMissing, "Source file does not exist: a.iso".to_string())
    );
    assert_eq!(
        refused(p.clone(), SourceFacts { kind: None, ..source(1) }, t, l),
        (ValidateError::SourceMetadata, "Cannot read metadata for source: a.iso".to_string())
    );
    let dir = SourceFacts { kind: Some(FileKind::Other), ..source(1) };
    assert_eq!(
        refused(p.clone(), dir, t, l),
        (
            ValidateError::SourceNotFileOrDevice,
            "Source is not a regular file or block device: a.iso".to_string()
        )
    );
    let dev = SourceFacts { kind: Some(FileKind::BlockDevice), ..source(1) };
    assert_eq!(
        refused(p.clone(), dev, t, Platform::Windows),
        (ValidateError::SourceNotFile, "Source is not a regular file: a.iso".to_string())
    );
    assert_eq!(
        refused(p.clone(), SourceFacts { size: None, ..source(1) }, t, l),
        (ValidateError::SourceSize, "Cannot determine size of source: a.iso".to_string())
    );
    assert_eq!(
        refused(p, source(0), t, l),
        (ValidateError::SourceEmpty, "Source file is empty: a.iso".to_string())
    );
}

#[test]
fn bad_targets() {
    let (p, s, l) = (params(1, 0), source(2048), Platform::Linux);
    let gone = TargetFacts { is_there: false, has_metadata: false, opened: false, size: None };
    assert_eq!(
        refused(p.clone(), s, gone, l),
        (ValidateError::TargetMissing, "Target device does not exist: /dev/sdb".to_string())
    );
    // Windows is not asked whether a drive exists, nor for its metadata
    assert_eq!(
        refused(p.clone(), s, gone, Platform::Windows),
        (
            ValidateError::TargetOpen,
            "Cannot open target for writing: /dev/sdb (are you running as root/Administrator?)".to_string()
        )
    );
    assert_eq!(
        refused(p.clone(), s, TargetFacts { has_metadata: false, ..target(1) }, l),
        (ValidateError::TargetMetadata, "Cannot read metadata for target: /dev/sdb".to_string())
    );
    assert_eq!(
        refused(p.clone(), s, TargetFacts { opened: false, ..target(1) }, l).0,
        ValidateError::TargetOpen
    );
    for platform in [l, Platform::Windows] {
        assert_eq!(
            refused(p.clone(), s, TargetFacts { size: None, ..target(1) }, platform),
            (ValidateError::TargetSize, "Cannot determine size of target: /dev/sdb".to_string())
        );
    }
    assert_eq!(
        refused(params(1, 1024), s, target(3071), l),
        (
            ValidateError::SourceTooLarge { source_size: 2048, target_size: 3071, available: 2047 },
            "Source (2.00 KiB) is larger than available target space (3.00 KiB, 1.00 KiB offset, 2.00 KiB available)"
                .to_string()
        )
    );
    assert_eq!(
        refused(params(1, 1024), s, target(512), l).0,
        ValidateError::SourceTooLarge { source_size: 2048, target_size: 512, available: 0 }
    );
}

fn facts() -> SizeFacts {
    SizeFacts { metadata: None, device_bytes: None, device_blocks: None, end: None, geometry: None }
}

#[test]
fn sizes_of_devices() {
    let file = SizeFacts { metadata: Some((FileKind::Regular, 77)), ..facts() };
    assert_eq!(device_size(Platform::Linux, &file), Some(77));
    assert_eq!(device_size(Platform::Linux, &facts()), None);
    let dev = SizeFacts {
        metadata: Some((FileKind::BlockDevice, 0)),
        device_bytes: Some(4096),
        device_blocks: Some((10, 512)),
        end: Some(99),
        ..facts()
    };
    assert_eq!(device_size(Platform::Linux, &dev), Some(4096));
    assert_eq!(device_size(Platform::MacOs, &dev), Some(5120));
    assert_eq!(device_size(Platform::Unix, &dev), Some(99));
    assert_eq!(device_size(Platform::Linux, &SizeFacts { device_bytes: None, ..dev }), Some(99));
    assert_eq!(device_size(Platform::MacOs, &SizeFacts { device_blocks: Some((10, 0)), ..dev }), Some(99));
    assert_eq!(device_size(Platform::Linux, &SizeFacts { device_bytes: None, end: None, ..dev }), None);
    assert_eq!(device_size(Platform::Windows, &SizeFacts { geometry: Some(8), ..facts() }), Some(8));
    assert_eq!(device_size(Platform::Windows, &SizeFacts { geometry: Some(-8), ..facts() }), Some(0));
    assert_eq!(device_size(Platform::Windows, &facts()), Some(0));
    assert_eq!(device_size(Platform::Other, &file), Some(0));
}

#[test]
fn partition_node_naming() {
    assert_eq!(partition_node("/dev/sdb", 1), "/dev/sdb1");
    assert_eq!(partition_node("/dev/nvme0n1", 2), "/dev/nvme0n1p2");
}

#[test]
fn partitions_are_recognised() {
    for disk in ["/dev/sdb", "/dev/nvme0n1", "/dev/mmcblk0", ""] {
        for i in [0u32, 1, 9, 10, 128, u32::MAX] {
            assert!(is_partition_of(&partition_node(disk, i), disk));
        }
        assert!(!is_partition_of(disk, disk));
    }
    assert!(is_partition_of("/dev/sdb12", "/dev/sdb"));
    assert!(is_partition_of("/dev/sdbp1", "/dev/sdb"));
    assert!(!is_partition_of("/dev/sdbp", "/dev/sdb"));
    assert!(!is_partition_of("/dev/sdba1", "/dev/sdb"));
    assert!(!is_partition_of("/dev/sda1", "/dev/sdb"));
    assert!(!is_partition_of("/dev/sdb1x", "/dev/sdb"));
    let mounts = "/dev/sda1 / ext4 rw 0 0\n/dev/sdb2 /mnt vfat rw 0 0\n\n/dev/sdb /x y\n/dev/sdb1 /a b\n";
    assert_eq!(mounted_partitions(mounts, "/dev/sdb"), vec!["/dev/sdb2", "/dev/sdb1"]);
    assert!(mounted_partitions("", "/dev/sdb").is_empty());
}

#[test]
fn windows_names() {
    assert_eq!(physical_drive_number(r"\\.\PhysicalDrive3"), Some(3));
    assert_eq!(physical_drive_number(r"\\.\PhysicalDrive4294967295"), Some(u32::MAX));
    assert_eq!(physical_drive_number(r"\\.\PhysicalDrive4294967296"), None);
    assert_eq!(physical_drive_number("PhysicalDrive1 PhysicalDrive 12 "), Some(12));
    assert_eq!(physical_drive_number("7"), Some(7));
    assert_eq!(physical_drive_number(r"\\.\PhysicalDrive"), None);
    assert_eq!(physical_drive_number("C:"), None);
    assert_eq!(open_volume_name(r"\\?\Volume{1}\"), r"\\?\Volume{1}");
    assert_eq!(open_volume_name(r"\\"), "");
    assert_eq!(volume_root("  E\r\n").as_deref(), Some("E:\\"));
    assert_eq!(volume_root(" \n"), None);
}

#[test]
fn waiting_for_the_system() {
    for attempt in 0..4 {
        assert_eq!(reread_partitions(attempt, RereadReply::Failed(Some(16))), RereadStep::Retry);
    }
    assert_eq!(reread_partitions(4, RereadReply::Failed(Some(16))), RereadStep::GiveUp);
    assert_eq!(reread_partitions(0, RereadReply::Failed(Some(5))), RereadStep::GiveUp);
    assert_eq!(reread_partitions(0, RereadReply::Failed(None)), RereadStep::GiveUp);
    assert_eq!(reread_partitions(0, RereadReply::Done), RereadStep::Finished);
    assert_eq!(wait_for_node(0, true), WaitStep::Ready);
    assert_eq!(wait_for_node(39, false), WaitStep::Wait);
    assert_eq!(wait_for_node(39, true), WaitStep::Ready);
    assert_eq!(wait_for_node(40, true), WaitStep::GiveUp);
}

fn time(year: i32, month: u32, day: u32, hour: u32, minute: u32, second: u32) -> LocalTime {
    LocalTime { year, month, day, hour, minute, second }
}

#[test]
fn log_files_are_named_after_the_time() {
    let t = time(2026, 5, 30, 14, 22, 1);
    assert_eq!(log_file_name(&t, false), "bufusb-05-30-26-14:22:01.log");
    assert_eq!(log_file_name(&t, true), "bufusb-05-30-26-14-22-01.log");
    assert_eq!(log_file_name(&time(2000, 12, 1, 0, 0, 59), false), "bufusb-12-01-00-00:00:59.log");
    assert_eq!(log_file_name(&time(-1, 1, 2, 3, 4, 5), false), "bufusb-01-02-99-03:04:05.log");
    assert_eq!(log_file_name(&time(262142, 12, 31, 23, 59, 59), false), "bufusb-12-31-42-23:59:59.log");
    assert_eq!(log_file_name(&time(-262143, 1, 1, 0, 0, 0), true), "bufusb-01-01-57-00-00-00.log");
    let p = log_path(Some("/home/user".to_string()), &t, Platform::Windows).unwrap();
    assert_eq!((p.dir.as_str(), p.file.as_str()), ("/home/user", "bufusb-05-30-26-14-22-01.log"));
    let p = log_path(Some("/home/user".to_string()), &t, Platform::Linux).unwrap();
    assert_eq!(p.file, "bufusb-05-30-26-14:22:01.log");
    assert!(log_path(None, &t, Platform::Linux).is_none());
}

#[test]
fn calendar_dates_agree_with_chrono() {
    for year in [-262144, -262143, -400, -100, -4, -1, 0, 1, 1900, 2000, 2023, 2024, 2100, 262142, 262143] {
        for month in 0..=13 {
            for day in 0..=32 {
                assert_eq!(
                    time(year, month, day, 0, 0, 0).is_valid(),
                    chrono::NaiveDate::from_ymd_opt(year, month, day).is_some()
                );
            }
        }
    }
    assert!(!time(2024, 1, 1, 24, 0, 0).is_valid());
    assert!(!time(2024, 1, 1, 0, 60, 0).is_valid());
    assert!(!time(2024, 1, 1, 0, 0, 60).is_valid());
}

const PASSWD: &str = "root:x:0:0:root:/root:/bin/sh\nshort:x\nann:x:1000:1000:Ann,,,:/home/ann:/bin/zsh:extra\nann:x:1:1::/other:/bin/sh\n";

#[test]
fn home_directories() {
    assert_eq!(passwd_home(PASSWD, "ann").as_deref(), Some("/home/ann"));
    assert_eq!(passwd_home(PASSWD, "root").as_deref(), Some("/root"));
    assert_eq!(passwd_home(PASSWD, "short"), None);
    assert_eq!(passwd_home(PASSWD, "an"), None);
    assert_eq!(passwd_home("", "ann"), None);
    let home = |p, sudo, passwd| home_dir(p, sudo, passwd, Some("/root"), Some("C:\\U"));
    assert_eq!(home(Platform::Linux, Some("ann"), Some(PASSWD)).as_deref(), Some("/home/ann"));
    assert_eq!(home(Platform::Linux, Some("bob"), Some(PASSWD)).as_deref(), Some("/root"));
    assert_eq!(home(Platform::Linux, Some("ann"), None).as_deref(), Some("/root"));
    assert_eq!(home(Platform::Linux, None, Some(PASSWD)).as_deref(), Some("/root"));
    assert_eq!(home(Platform::Windows, Some("ann"), Some(PASSWD)).as_deref(), Some("/root"));
    assert_eq!(home_dir(Platform::Windows, None, None, None, Some("C:\\U")).as_deref(), Some("C:\\U"));
    assert_eq!(home_dir(Platform::Linux, None, None, None, None), None);
}

#[test]
fn log_plans() {
    let place = || Some(LogPath { dir: "/h".to_string(), file: "f".to_string() });
    let custom = || Some("/tmp/x.log".to_string());
    assert!(matches!(
        init_logger(false, true, custom(), place()),
        LogPlan::Stderr { level: Level::Warn, homeless: false }
    ));
    match init_logger(true, true, custom(), place()) {
        LogPlan::Custom { path, level } => assert_eq!((path.as_str(), level), ("/tmp/x.log", Level::Debug)),
        _ => panic!(),
    }
    match init_logger(true, false, None, place()) {
        LogPlan::Default { place, level } => assert_eq!((place.file.as_str(), level), ("f", Level::Info)),
        _ => panic!(),
    }
    assert!(matches!(
        init_logger(true, false, None, None),
        LogPlan::Stderr { level: Level::Info, homeless: true }
    ));
}

#[test]
fn privileges() {
    assert!(is_privileged(Platform::Linux, 0, false));
    assert!(!is_privileged(Platform::MacOs, 1000, true));
    assert!(is_privileged(Platform::Windows, 1000, true));
    assert!(!is_privileged(Platform::Windows, 0, false));
    assert!(is_privileged(Platform::Other, 1000, false));
    assert!(is_executable(true, 0o100));
    assert!(is_executable(true, 0o755));
    assert!(!is_executable(true, 0o644));
    assert!(!is_executable(false, 0o755));
}

#[test]
fn tools_are_looked_for() {
    assert_eq!(requested_tool(Some(" doas\n")).as_deref(), Some("doas"));
    assert_eq!(requested_tool(Some("  ")), None);
    assert_eq!(requested_tool(None), None);
    assert!(matches!(places("/usr/bin/sudo", Some("/bin")), Places::Itself));
    match places("sudo", Some("/bin:/usr/bin:")) {
        Places::Directories(d) => assert_eq!(d, vec!["/bin", "/usr/bin", ""]),
        _ => panic!(),
    }
    match places("sudo", None) {
        Places::Directories(d) => assert!(d.is_empty()),
        _ => panic!(),
    }
}

fn tool(e: Elevation) -> String {
    match e {
        Elevation::Relaunch { tool } => tool,
        Elevation::GiveUp { message } => message,
    }
}

#[test]
fn elevation_tries_sudo_then_pkexec() {
    let l = Platform::Linux;
    assert_eq!(candidates(l), vec!["sudo", "pkexec"]);
    assert_eq!(tool(unix_elevate(l, None, &vec![true, true])), "sudo");
    assert_eq!(tool(unix_elevate(l, None, &vec![false, true])), "pkexec");
    assert_eq!(
        tool(unix_elevate(l, None, &vec![false, false])),
        "No escalation tool found (tried sudo, pkexec). Re-run bufusb as root, or set BUF_SUDO to the one you use."
    );
    assert_eq!(tool(unix_elevate(l, Some(("run0".to_string(), true)), &vec![])), "run0");
    assert_eq!(
        tool(unix_elevate(l, Some(("su".to_string(), false)), &vec![true, true])),
        "BUF_SUDO is set to 'su' but that is not an executable."
    );
    assert_eq!(candidates(Platform::MacOs), vec!["doas", "sudo", "run0", "pkexec"]);
    assert_eq!(tool(unix_elevate(Platform::MacOs, None, &vec![false, true, true, true])), "sudo");
}

#[test]
fn windows_elevation_parameters() {
    let args = vec!["-s".to_string(), "a.iso".to_string()];
    assert_eq!(windows_elevate(r"C:\b.exe", &args), "/k \"C:\\b.exe\" -s a.iso");
    assert_eq!(windows_elevate("b", &vec![]), "/k \"b\" ");
}

#[test]
fn white_space_and_trimming() {
    for n in 0..=0x10FFFFu32 {
        if let Some(c) = char::from_u32(n) {
            assert_eq!(char_is_white(c), c.is_whitespace());
        }
    }
    for t in ["", " ", " a b ", "\u{3000}x\u{85}", "x"] {
        assert_eq!(trim_str(t), t.trim());
        assert_eq!(trim_str(&trim_str(t)), trim_str(t));
    }
}

#[test]
fn numbers_as_text() {
    for n in [0u64, 7, 10, 99, 100, 12_345, u64::MAX] {
        assert_eq!(decimal_text(n), format!("{}", n));
        assert_eq!(parse_text(&decimal_text(n), u64::MAX), Some(n));
    }
    for t in ["", "+", "-", "+5", "-5", "05", "5x", " 5", "18446744073709551615", "18446744073709551616"] {
        assert_eq!(parse_text(t, u64::MAX), t.parse::<u64>().ok());
        assert_eq!(parse_text(t, 255), t.parse::<u8>().ok().map(|v| v as u64));
    }
    assert_eq!(two_digit_text(7), "07");
    assert_eq!(two_digit_text(123), "23");
}

#[test]
fn lines_fields_and_words() {
    let chars = |t: &str| -> Vec<char> { t.chars().collect() };
    for t in ["", "a", "a\n", "a\r\nb", "\n\n", "a\rb\r\n\r", "x\n\ny"] {
        let got: Vec<String> = lines_of(&chars(t)).iter().map(|l| l.iter().collect()).collect();
        let want: Vec<String> = t.lines().map(|l| l.to_string()).collect();
        assert_eq!(got, want, "{:?}", t);
    }
    for t in ["", ":", "a:b::c", "abc"] {
        let got: Vec<String> = split_chars(&chars(t), ':').iter().map(|l| l.iter().collect()).collect();
        let want: Vec<String> = t.split(':').map(|l| l.to_string()).collect();
        assert_eq!(got, want);
    }
    for t in ["", "  a b", "\tword\n", " "] {
        let got: String = first_word_of(&chars(t)).iter().collect();
        assert_eq!(got, t.split_whitespace().next().unwrap_or(""));
    }
}

#[test]
fn the_end_of_a_device_is_sought_only_without_an_answer() {
    let dev = SizeFacts { metadata: Some((FileKind::BlockDevice, 0)), ..facts() };
    assert!(needs_end(Platform::Linux, &dev));
    assert!(!needs_end(Platform::Linux, &SizeFacts { device_bytes: Some(0), ..dev }));
    assert!(!needs_end(Platform::MacOs, &SizeFacts { device_blocks: Some((10, 512)), ..dev }));
    assert!(needs_end(Platform::MacOs, &SizeFacts { device_blocks: Some((10, 0)), ..dev }));
    assert!(!needs_end(Platform::Windows, &dev));
    let file = SizeFacts { metadata: Some((FileKind::Regular, 77)), ..facts() };
    assert!(!needs_end(Platform::Linux, &file));
    assert!(!needs_end(Platform::Linux, &facts()));
    let sought = SizeFacts { end: Some(9), ..dev };
    assert_eq!(device_size(Platform::Linux, &sought), Some(9));
    assert_eq!(device_size(Platform::Linux, &SizeFacts { end: Some(9), ..file }), Some(77));
}

#[test]
fn warnings_are_mirrored_beside_a_file() {
    let place = || Some(LogPath { dir: "/home/u".to_string(), file: "f".to_string() });
    let custom = Some("/tmp/x.log".to_string());
    assert_eq!(init_logger(true, true, custom, None).stderr_level(), Level::Warn);
    assert_eq!(init_logger(true, true, None, place()).stderr_level(), Level::Warn);
    assert_eq!(init_logger(false, true, None, place()).stderr_level(), Level::Warn);
    assert_eq!(init_logger(true, true, None, None).stderr_level(), Level::Debug);
    assert_eq!(init_logger(true, false, None, None).stderr_level(), Level::Info);
}

#[test]
fn log_lines_keep_the_level_in_a_column() {
    assert_eq!(log_line("T", "WARN", "libbuf::copy", "x y"), "[T] [WARN ] [libbuf::copy] x y");
    assert_eq!(log_line("T", "DEBUG", "a", ""), "[T] [DEBUG] [a] ");
}

#[test]
fn log_stamps_go_down_to_milliseconds() {
    assert_eq!(log_stamp(&time(2026, 5, 30, 14, 22, 1), 7), "2026-05-30 14:22:01.007");
    assert_eq!(log_stamp(&time(1999, 12, 31, 23, 59, 59), 999), "1999-12-31 23:59:59.999");
    assert_eq!(log_stamp(&time(0, 2, 29, 0, 0, 0), 0), "0000-02-29 00:00:00.000");
    assert_eq!(log_stamp(&time(987, 1, 2, 3, 4, 5), 60), "0987-01-02 03:04:05.060");
    assert_eq!(log_stamp(&time(9999, 1, 1, 0, 0, 0), 100), "9999-01-01 00:00:00.100");
    assert_eq!(log_stamp(&time(10000, 1, 1, 0, 0, 0), 0), "+10000-01-01 00:00:00.000");
    assert_eq!(log_stamp(&time(-1, 1, 1, 0, 0, 0), 0), "-0001-01-01 00:00:00.000");
    assert_eq!(log_stamp(&time(-262143, 1, 1, 0, 0, 0), 0), "-262143-01-01 00:00:00.000");
}
