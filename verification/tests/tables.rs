use libbuf::bytes::DiskWrite;
use libbuf::crc::crc32;
use libbuf::gpt::{entry_array_sectors, pad_sector, plan_gpt, write_gpt, GptError, PartSpec};
use libbuf::guid::{basic_data_type, esp_type, guid_le, random_guid, stamp_guid};

fn apply(disk: &mut Vec<u8>, writes: &[DiskWrite]) {
    for w in writes {
        let at = w.offset as usize;
        if disk.len() < at + w.bytes.len() {
            disk.resize(at + w.bytes.len(), 0);
        }
        disk[at..at + w.bytes.len()].copy_from_slice(&w.bytes);
    }
}

fn le64(b: &[u8]) -> u64 {
    u64::from_le_bytes(b.try_into().unwrap())
}

fn le32(b: &[u8]) -> u32 {
    u32::from_le_bytes(b.try_into().unwrap())
}

fn gpt_check(sector: u64) {
    let total_sectors: u64 = (256 * 1024 * 1024) / sector;
    let part_start = (1024 * 1024) / sector;
    let array_sectors = (16384 + sector - 1) / sector;
    let part_sectors = total_sectors - part_start - array_sectors - 1;

    let mut disk = vec![0u8; (total_sectors * sector) as usize];
    let plan = write_gpt(
        total_sectors,
        part_start,
        sector,
        &[PartSpec { name: "BUF", type_guid: esp_type(), sectors: part_sectors }],
    )
    .unwrap();
    apply(&mut disk, &plan.writes);
    assert_eq!(disk.len() as u64, total_sectors * sector);
    assert_eq!(plan.placements, vec![(part_start, part_start + part_sectors - 1)]);

    let read_lba = |lba: u64| -> Vec<u8> {
        let at = (lba * sector) as usize;
        disk[at..at + sector as usize].to_vec()
    };

    let pmbr = read_lba(0);
    assert_eq!(pmbr[450], 0xEE, "protective MBR partition type");
    assert_eq!([pmbr[510], pmbr[511]], [0x55, 0xAA]);

    let check_header = |hdr_lba: u64, arr_lba: u64, my_expect: u64| {
        let sec = read_lba(hdr_lba);
        let h = &sec[..92];
        assert_eq!(&h[0..8], b"EFI PART");
        let saved = le32(&h[16..20]);
        let mut z = h.to_vec();
        z[16..20].copy_from_slice(&[0; 4]);
        assert_eq!(crc32(&z), saved, "header self-CRC at LBA {}", hdr_lba);
        assert_eq!(le64(&h[24..32]), my_expect);
        let arr_crc = le32(&h[88..92]);
        let at = (arr_lba * sector) as usize;
        let arr = &disk[at..at + 128 * 128];
        assert_eq!(crc32(arr), arr_crc, "array CRC at LBA {}", arr_lba);
        assert_eq!(&arr[0..16], &esp_type());
        assert_eq!(le64(&arr[32..40]), part_start);
        assert_eq!(le64(&arr[40..48]), part_start + part_sectors - 1);
    };

    let last = total_sectors - 1;
    check_header(1, 2, 1); // primary
    check_header(last, last - array_sectors, last); // backup

    let prim = read_lba(1);
    let back = read_lba(last);
    assert_eq!(le64(&prim[32..40]), last);
    assert_eq!(le64(&back[32..40]), 1);
}

#[test]
fn gpt_roundtrips_and_validates() {
    for &sector in &[512u64, 4096] {
        gpt_check(sector);
    }
}

#[test]
fn esp_type_guid_on_disk_order() {
    let esp = guid_le([
        0xC1, 0x2A, 0x73, 0x28, 0xF8, 0x1F, 0x11, 0xD2, 0xBA, 0x4B, 0x00, 0xA0, 0xC9, 0x3E, 0xC9,
        0x3B,
    ]);
    assert_eq!(
        esp,
        [
            0x28, 0x73, 0x2A, 0xC1, 0x1F, 0xF8, 0xD2, 0x11, 0xBA, 0x4B, 0x00, 0xA0, 0xC9, 0x3E,
            0xC9, 0x3B
        ]
    );
    assert_eq!(esp, esp_type());
}

#[test]
fn basic_data_guid_on_disk_order() {
    assert_eq!(
        basic_data_type(),
        [
            0xA2, 0xA0, 0xD0, 0xEB, 0xE5, 0xB9, 0x33, 0x44, 0x87, 0xC0, 0x68, 0xB6, 0xB7, 0x26,
            0x99, 0xC7
        ]
    );
    // the order is its own inverse
    assert_eq!(guid_le(guid_le(esp_type())), esp_type());
}

#[test]
fn random_guids_are_version_4_and_differ() {
    let a = random_guid();
    let b = random_guid();
    for g in [a, b, stamp_guid(0, 0), stamp_guid(u64::MAX, u64::MAX)] {
        assert_eq!(g[7] >> 4, 4);
        assert_eq!(g[8] >> 6, 2);
    }
    assert_ne!(a, b);
    let g = stamp_guid(0x1122334455667788, 0x99AABBCCDDEEFF00);
    assert_eq!(
        g,
        [
            0x88, 0x77, 0x66, 0x55, 0x44, 0x33, 0x22, 0x41, 0x80, 0xFF, 0xEE, 0xDD, 0xCC, 0xBB,
            0xAA, 0x99
        ]
    );
}

#[test]
fn crc32_of_known_texts() {
    assert_eq!(crc32(b"123456789"), 0xCBF4_3926);
    assert_eq!(crc32(b""), 0);
    assert_eq!(crc32(b"The quick brown fox jumps over the lazy dog"), 0x414F_A339);
}

#[test]
fn two_partitions_lie_back_to_back() {
    let unique = vec![[1u8; 16], [2u8; 16]];
    let parts = [
        PartSpec { name: "first", type_guid: basic_data_type(), sectors: 1000 },
        PartSpec { name: "UEFI_NTFS", type_guid: esp_type(), sectors: 24 },
    ];
    let plan = plan_gpt(10_000, 2048, 512, &parts, &unique, &[9u8; 16]).unwrap();
    assert_eq!(plan.placements, vec![(2048, 3047), (3048, 3071)]);
    let mut disk = Vec::new();
    apply(&mut disk, &plan.writes);
    let e = 1024 + 128;
    assert_eq!(&disk[e..e + 16], &esp_type());
    assert_eq!(&disk[e + 16..e + 32], &[2u8; 16]);
    assert_eq!(le64(&disk[e + 32..e + 40]), 3048);
    assert_eq!(&disk[e + 56..e + 60], b"U\0E\0");
    assert_eq!(&disk[512 + 56..512 + 72], &[9u8; 16]);
    // the protective entry covers the whole disk
    assert_eq!(le32(&disk[446 + 12..446 + 16]), 9_999);
}

#[test]
fn names_are_cut_after_36_units() {
    let name = "0123456789012345678901234567890123456789";
    let parts = [PartSpec { name, type_guid: esp_type(), sectors: 1 }];
    let plan = plan_gpt(10_000, 2048, 512, &parts, &vec![[0u8; 16]], &[0u8; 16]).unwrap();
    let arr = &plan.writes[2].bytes;
    assert_eq!(&arr[56 + 70..128], b"5\0");
    assert_eq!(&arr[128..144], &[0u8; 16]);
    // a character outside the basic plane takes two units
    let parts = [PartSpec { name: "\u{1F4BE}", type_guid: esp_type(), sectors: 1 }];
    let plan = plan_gpt(10_000, 2048, 512, &parts, &vec![[0u8; 16]], &[0u8; 16]).unwrap();
    assert_eq!(&plan.writes[2].bytes[56..62], &[0x3D, 0xD8, 0xBE, 0xDC, 0, 0]);
}

#[test]
fn too_many_or_no_partitions() {
    let e = write_gpt(10_000, 2048, 512, &[]).err().unwrap();
    assert!(matches!(e, GptError::PartitionCount { requested: 0 }));
    assert_eq!(e.message(), "Fatal: write_gpt: 0 partitions requested, expected 1..=128");
    let mut many: Vec<PartSpec> = Vec::new();
    for _ in 0..129 {
        many.push(PartSpec { name: "x", type_guid: esp_type(), sectors: 1 });
    }
    let e = write_gpt(10_000, 2048, 512, &many).err().unwrap();
    assert!(matches!(e, GptError::PartitionCount { requested: 129 }));
    many.pop();
    assert!(write_gpt(10_000, 2048, 512, &many).is_ok());
}

#[test]
fn partitions_that_do_not_fit() {
    let part = |n: u64| [PartSpec { name: "x", type_guid: esp_type(), sectors: n }];
    // usable sectors: 34 to 9966
    assert!(write_gpt(10_000, 34, 512, &part(9_933)).is_ok());
    let e = write_gpt(10_000, 34, 512, &part(9_934)).err().unwrap();
    assert_eq!(
        e.message(),
        "Fatal: Partition layout [34, 9967] does not fit inside usable GPT range [34, 9966]"
    );
    assert!(matches!(
        write_gpt(10_000, 33, 512, &part(1)),
        Err(GptError::DoesNotFit { first_start: 33, last_end: 33, first_usable: 34, last_usable: 9966 })
    ));
}

#[test]
fn large_disks_saturate_the_protective_entry() {
    let parts = [PartSpec { name: "x", type_guid: esp_type(), sectors: 1 }];
    let plan = plan_gpt(1 << 33, 2048, 512, &parts, &vec![[0u8; 16]], &[0u8; 16]).unwrap();
    assert_eq!(&plan.writes[0].bytes[458..462], &[0xFF; 4]);
}

#[test]
fn array_sizes_and_padding() {
    assert_eq!(entry_array_sectors(512), 32);
    assert_eq!(entry_array_sectors(4096), 4);
    assert_eq!(entry_array_sectors(16384), 1);
    assert_eq!(entry_array_sectors(16385), 1);
    let p = pad_sector(&[1, 2, 3], 8);
    assert_eq!(p, vec![1, 2, 3, 0, 0, 0, 0, 0]);
}
