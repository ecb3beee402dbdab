use libbuf::cache::{CacheNeed, SectorCache, CACHE_BYTES};
use libbuf::partition::{Partition, Transfer};
use libbuf::position::{can_seek, to_signed, SeekError, SeekTo};

/// A device in memory, reached through the cache only.
struct Dev {
    disk: Vec<u8>,
    writes: Vec<(usize, usize)>,
}

impl Dev {
    fn flush(&mut self, c: &mut SectorCache) {
        for w in c.flush_plan() {
            let at = w.offset as usize;
            let end = at + w.bytes.len();
            if self.disk.len() < end {
                self.disk.resize(end, 0);
            }
            self.disk[at..end].copy_from_slice(&w.bytes);
            self.writes.push((at, w.bytes.len()));
        }
        c.flushed();
    }

    fn meet(&mut self, c: &mut SectorCache, need: CacheNeed, sector: usize) -> bool {
        match need {
            CacheNeed::Nothing => return true,
            CacheNeed::Flush => self.flush(c),
            CacheNeed::Fetch { offset } => {
                let at = (offset as usize).min(self.disk.len());
                let end = (at + sector).min(self.disk.len());
                let data = self.disk[at..end].to_vec();
                c.install(&data);
            }
        }
        false
    }

    fn read(&mut self, c: &mut SectorCache, sector: usize, out: &mut [u8]) {
        let mut n = 0;
        while n < out.len() {
            let need = c.read_need(out.len() - n);
            if self.meet(c, need, sector) {
                n += c.read(&mut out[n..]);
            }
        }
    }

    fn write(&mut self, c: &mut SectorCache, sector: usize, data: &[u8]) {
        let mut n = 0;
        while n < data.len() {
            let need = c.write_need(data.len() - n);
            if self.meet(c, need, sector) {
                n += c.write(&data[n..]);
            }
        }
    }
}

#[test]
fn sector_cache_roundtrips() {
    let sector = 512u64;
    let size = (sector as usize) * 256;
    let mut mirror = vec![0u8; size];

    // deterministic xorshift so failures reproduce
    let mut state: u64 = 0x00C0FFEE;
    let mut next = |m: u64| -> u64 {
        state ^= state << 13;
        state ^= state >> 7;
        state ^= state << 17;
        state % m
    };

    let mut dev = Dev { disk: vec![0u8; size], writes: Vec::new() };
    let mut c = SectorCache::new(sector as usize);
    for i in 0..600 {
        let off = next(size as u64 - 1);
        let max_len = std::cmp::min(3000, size as u64 - off);
        let len = (1 + next(max_len)) as usize;
        assert_eq!(c.seek(SeekTo::Start(off)), Ok(off));
        if i % 3 == 0 {
            // read back through the cache, must match the mirror
            let mut got = vec![0u8; len];
            dev.read(&mut c, sector as usize, &mut got);
            assert_eq!(got, &mirror[off as usize..off as usize + len]);
        } else {
            let chunk: Vec<u8> = (0..len).map(|_| next(256) as u8).collect();
            dev.write(&mut c, sector as usize, &chunk);
            mirror[off as usize..off as usize + len].copy_from_slice(&chunk);
        }
    }
    dev.flush(&mut c);
    assert_eq!(dev.disk, mirror, "flushed device diverged from mirror");
    assert!(!c.has_dirty());
}

#[test]
fn neighbouring_sectors_are_flushed_in_one_write() {
    let mut dev = Dev { disk: vec![0u8; 512 * 64], writes: Vec::new() };
    let mut c = SectorCache::new(512);
    for lba in [9u64, 3, 4, 11, 5, 10, 20] {
        c.seek(SeekTo::Start(lba * 512)).unwrap();
        dev.write(&mut c, 512, &[lba as u8; 512]);
    }
    assert!(c.has_dirty());
    assert!(dev.writes.is_empty());
    dev.flush(&mut c);
    assert_eq!(dev.writes, vec![(3 * 512, 3 * 512), (9 * 512, 3 * 512), (20 * 512, 512)]);
    assert_eq!(dev.disk[4 * 512], 4);
    assert_eq!(dev.disk[11 * 512 + 511], 11);
}

#[test]
fn clean_sectors_are_not_written() {
    let mut dev = Dev { disk: vec![7u8; 2048], writes: Vec::new() };
    let mut c = SectorCache::new(512);
    let mut b = [0u8; 600];
    dev.read(&mut c, 512, &mut b);
    assert!(b.iter().all(|&x| x == 7));
    assert!(!c.has_dirty());
    assert!(c.flush_plan().is_empty());
}

#[test]
fn whole_sectors_need_no_fetch() {
    let mut c = SectorCache::new(512);
    assert_eq!(c.write_need(512), CacheNeed::Nothing);
    assert_eq!(c.write_need(511), CacheNeed::Fetch { offset: 0 });
    assert_eq!(c.read_need(1), CacheNeed::Fetch { offset: 0 });
    assert_eq!(c.read_need(0), CacheNeed::Nothing);
    assert_eq!(c.write(&[5u8; 2000]), 512);
    c.seek(SeekTo::Start(1024 + 8)).unwrap();
    assert_eq!(c.write_need(512), CacheNeed::Fetch { offset: 1024 });
    c.install(&[1, 2, 3]);
    assert_eq!(c.write(&[9u8; 600]), 504);
    c.seek(SeekTo::Start(1024)).unwrap();
    let mut b = [0xFFu8; 16];
    assert_eq!(c.read(&mut b), 16);
    assert_eq!(b, [1, 2, 3, 0, 0, 0, 0, 0, 9, 9, 9, 9, 9, 9, 9, 9]);
}

#[test]
fn a_full_cache_asks_for_a_flush() {
    let sector = CACHE_BYTES / 4;
    let mut c = SectorCache::new(sector);
    let data = vec![3u8; sector];
    for lba in 0..4u64 {
        c.seek(SeekTo::Start(lba * sector as u64)).unwrap();
        assert_eq!(c.write_need(sector), CacheNeed::Nothing);
        c.write(&data);
    }
    assert_eq!(c.write_need(sector), CacheNeed::Flush);
    assert_eq!(c.read_need(1), CacheNeed::Flush);
    assert_eq!(c.flush_plan().len(), 1);
    c.flushed();
    assert_eq!(c.write_need(sector), CacheNeed::Nothing);
}

#[test]
fn seeking_in_the_cache() {
    let mut c = SectorCache::new(512);
    assert_eq!(c.seek(SeekTo::Start(100)), Ok(100));
    assert_eq!(c.seek(SeekTo::Current(-40)), Ok(60));
    assert_eq!(c.seek(SeekTo::Current(-61)), Err(SeekError::Negative));
    assert_eq!(c.seek(SeekTo::Current(0)), Ok(60));
    assert_eq!(c.seek(SeekTo::End(0)), Err(SeekError::EndUnsupported));
    assert_eq!(c.seek(SeekTo::Start(u64::MAX)), Err(SeekError::Negative));
}

#[test]
fn windows_bound_their_transfers() {
    let mut p = Partition::new(1000, 100);
    assert_eq!(p.read(50), Some(Transfer { offset: 1000, count: 50 }));
    p.advance(80);
    assert_eq!(p.read(50), Some(Transfer { offset: 1080, count: 20 }));
    assert_eq!(p.write(5), Some(Transfer { offset: 1080, count: 5 }));
    p.advance(20);
    assert_eq!(p.read(1), None);
    assert_eq!(p.write(1), None);
}

#[test]
fn seeking_in_a_window() {
    let mut p = Partition::new(1000, 100);
    assert_eq!(p.seek(SeekTo::End(-10)), Ok(90));
    assert_eq!(p.read(50), Some(Transfer { offset: 1090, count: 10 }));
    assert_eq!(p.seek(SeekTo::Current(-90)), Ok(0));
    assert_eq!(p.seek(SeekTo::Current(-1)), Err(SeekError::Negative));
    assert_eq!(p.seek(SeekTo::Start(500)), Ok(500));
    assert_eq!(p.read(1), None);
    assert_eq!(p.seek(SeekTo::End(-101)), Err(SeekError::Negative));
}

#[test]
fn signed_reading_of_unsigned_numbers() {
    for n in [0u64, 1, i64::MAX as u64, i64::MAX as u64 + 1, u64::MAX, u64::MAX - 5] {
        assert_eq!(to_signed(n), n as i64);
    }
}

#[test]
fn positions_that_cannot_be_counted() {
    assert!(can_seek(SeekTo::Current(1), i64::MAX as u64 - 1, 0));
    assert!(!can_seek(SeekTo::Current(1), i64::MAX as u64, 0));
    assert!(!can_seek(SeekTo::End(i64::MIN), 0, u64::MAX));
    assert!(can_seek(SeekTo::End(i64::MIN), 0, 0));
    assert!(can_seek(SeekTo::Start(u64::MAX), 0, 0));
    let mut c = SectorCache::new(512);
    assert!(c.can_seek(SeekTo::End(5)));
    c.seek(SeekTo::Start(i64::MAX as u64)).unwrap();
    assert!(!c.can_seek(SeekTo::Current(1)));
    assert!(c.has_room(usize::MAX));
    let mut p = Partition::new(0, u64::MAX);
    assert!(!p.can_seek(SeekTo::End(i64::MIN)));
    assert_eq!(p.seek(SeekTo::End(-5)), Err(SeekError::Negative));
}

#[test]
fn writes_read_back_through_the_cache() {
    let mut dev = Dev { disk: vec![9u8; 4096], writes: Vec::new() };
    let mut c = SectorCache::new(512);
    c.seek(SeekTo::Start(1000)).unwrap();
    dev.write(&mut c, 512, &[1, 2, 3, 4, 5, 6, 7, 8, 9, 10, 11, 12, 13, 14, 15, 16, 17, 18, 19, 20, 21, 22, 23, 24, 25, 26]);
    c.seek(SeekTo::Current(-26)).unwrap();
    let mut b = [0u8; 28];
    dev.read(&mut c, 512, &mut b);
    assert_eq!(b[0], 1);
    assert_eq!(b[25], 26);
    assert_eq!(b[26..], [9, 9]);
    // the device still holds what it held
    assert!(dev.disk.iter().all(|&x| x == 9));
}
