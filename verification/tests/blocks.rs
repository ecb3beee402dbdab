use libbuf::align::{is_power_of_two, round_up};
use libbuf::device::{get_sector_size, logical_sector_size};
use libbuf::writer::{fill_start, read_full, summary, DdSession, DdStep, FillStep, ReadEvent};
use libbuf::Platform;
use std::io::{self, Read};

struct Trickle<'a> {
    data: &'a [u8],
    interrupted: bool,
}

impl Read for Trickle<'_> {
    fn read(&mut self, buf: &mut [u8]) -> io::Result<usize> {
        if !self.interrupted {
            self.interrupted = true;
            return Err(io::ErrorKind::Interrupted.into());
        }
        let n = buf.len().min(3).min(self.data.len());
        buf[..n].copy_from_slice(&self.data[..n]);
        self.data = &self.data[n..];
        Ok(n)
    }
}

fn fill<R: Read>(r: &mut R, buf: &mut [u8]) -> io::Result<usize> {
    let mut step = fill_start(buf.len());
    loop {
        match step {
            FillStep::Done { got } => return Ok(got),
            FillStep::Fail => return Err(io::ErrorKind::Other.into()),
            FillStep::More { got } => {
                let event = match r.read(&mut buf[got..]) {
                    Ok(n) => ReadEvent::Got(n),
                    Err(e) if e.kind() == io::ErrorKind::Interrupted => ReadEvent::Interrupted,
                    Err(_) => ReadEvent::Failed,
                };
                step = read_full(buf.len(), got, event);
            }
        }
    }
}

#[test]
fn read_full_fills_across_short_reads_and_eintr() {
    let data: Vec<u8> = (0..20).collect();
    let mut r = Trickle { data: &data, interrupted: false };
    let mut buf = [0u8; 8];
    assert_eq!(fill(&mut r, &mut buf).unwrap(), 8);
    assert_eq!(buf, [0, 1, 2, 3, 4, 5, 6, 7]);
    assert_eq!(fill(&mut r, &mut buf).unwrap(), 8);
    assert_eq!(fill(&mut r, &mut buf).unwrap(), 4); // EOF mid block
    assert_eq!(&buf[..4], &[16, 17, 18, 19]);
    assert_eq!(fill(&mut r, &mut buf).unwrap(), 0);
}

#[test]
fn read_full_steps() {
    assert_eq!(fill_start(0), FillStep::Done { got: 0 });
    assert_eq!(fill_start(5), FillStep::More { got: 0 });
    assert_eq!(read_full(8, 2, ReadEvent::Got(0)), FillStep::Done { got: 2 });
    assert_eq!(read_full(8, 2, ReadEvent::Got(3)), FillStep::More { got: 5 });
    assert_eq!(read_full(8, 2, ReadEvent::Got(6)), FillStep::Done { got: 8 });
    assert_eq!(read_full(8, 2, ReadEvent::Interrupted), FillStep::More { got: 2 });
    assert_eq!(read_full(8, 2, ReadEvent::Failed), FillStep::Fail);
}

#[test]
fn rounding_up_to_sectors() {
    assert_eq!(round_up(0, 512), 0);
    assert_eq!(round_up(1, 512), 512);
    assert_eq!(round_up(512, 512), 512);
    assert_eq!(round_up(513, 512), 1024);
    assert_eq!(round_up(4097, 4096), 8192);
    // no power of two: the bits below are cleared all the same
    assert_eq!(round_up(10, 6), (10 + 5) & !5);
}

#[test]
fn powers_of_two() {
    for n in 0..5000u64 {
        assert_eq!(is_power_of_two(n), n.is_power_of_two());
    }
    assert!(is_power_of_two(1 << 63));
    assert!(!is_power_of_two(u64::MAX));
}

fn dd(src: &[u8], offset: usize, block_size: usize, sector: usize, disk: &mut Vec<u8>) -> (u64, u64) {
    let mut session = DdSession::new(block_size, sector);
    let mut buffer = vec![0xEEu8; session.buffer_len()];
    let mut r = src;
    let mut at = offset;
    loop {
        let n = {
            let block = session.block_len();
            fill(&mut r, &mut buffer[..block]).unwrap()
        };
        match session.write(&mut buffer, n) {
            DdStep::Finish => return (session.bytes_written(), session.blocks_written()),
            DdStep::Write { len } => {
                assert_eq!(len % sector, 0);
                if disk.len() < at + len {
                    disk.resize(at + len, 0);
                }
                disk[at..at + len].copy_from_slice(&buffer[..len]);
                at += len;
            }
        }
    }
}

#[test]
fn images_arrive_byte_for_byte() {
    let src: Vec<u8> = (0..5000u32).map(|i| (i * 7 + i / 256) as u8).collect();
    for (offset, block) in [(0usize, 1usize), (0, 512), (1024, 700), (512, 4096), (0, 100_000)] {
        let mut disk = vec![0x11u8; 20_000];
        let before = disk.clone();
        let (bytes, blocks) = dd(&src, offset, block, 512, &mut disk);
        assert_eq!(bytes, 5000);
        let aligned = (block + 511) / 512 * 512;
        assert_eq!(blocks as usize, (5000 + aligned - 1) / aligned);
        assert_eq!(&disk[..offset], &before[..offset]);
        assert_eq!(&disk[offset..offset + 5000], &src[..]);
        assert!(disk[offset + 5000..offset + 5120].iter().all(|&b| b == 0));
        assert_eq!(&disk[offset + 5120..], &before[offset + 5120..]);
    }
}

#[test]
fn an_empty_source_writes_nothing() {
    let mut disk = vec![1u8; 100];
    assert_eq!(dd(&[], 0, 4096, 512, &mut disk), (0, 0));
    assert_eq!(disk, vec![1u8; 100]);
}

#[test]
fn summaries_show_size_time_and_speed() {
    assert_eq!(
        summary(1536, "2.00", 768),
        "\n  Written : 1.50 KiB\n  Time    : 2.00s\n  Speed   : 768 B/s\n"
    );
}

#[test]
fn sector_sizes_from_replies() {
    assert_eq!(logical_sector_size(Platform::Linux, Some(4096)), 4096);
    assert_eq!(logical_sector_size(Platform::Linux, Some(0)), 512);
    assert_eq!(logical_sector_size(Platform::Linux, Some(-1)), 512);
    assert_eq!(logical_sector_size(Platform::Linux, None), 512);
    assert_eq!(logical_sector_size(Platform::MacOs, Some(2048)), 2048);
    assert_eq!(logical_sector_size(Platform::Windows, Some(4096)), 4096);
    assert_eq!(logical_sector_size(Platform::Windows, Some(520)), 512);
    assert_eq!(logical_sector_size(Platform::Windows, Some(256)), 512);
    assert_eq!(logical_sector_size(Platform::Other, Some(4096)), 512);
    assert_eq!(get_sector_size(Platform::Windows, Some(512), Some(4096)), 4096);
    assert_eq!(get_sector_size(Platform::Windows, Some(4096), Some(0)), 512);
    assert_eq!(get_sector_size(Platform::Windows, Some(4096), None), 512);
    assert_eq!(get_sector_size(Platform::Linux, Some(4096), Some(8192)), 4096);
}

#[test]
fn block_sizes_leave_the_same_device() {
    let src: Vec<u8> = (0..3001u32).map(|i| (i * 13) as u8).collect();
    for len in [0usize, 1, 511, 512, 513, 3001] {
        let mut expected = vec![0x22u8; 1500];
        dd(&src[..len], 1024, 1, 512, &mut expected);
        for block in [300usize, 512, 1025, 4096, 50_000] {
            let mut disk = vec![0x22u8; 1500];
            assert_eq!(dd(&src[..len], 1024, block, 512, &mut disk).0, len as u64);
            assert_eq!(disk, expected);
        }
    }
}
