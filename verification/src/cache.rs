//! A write-back cache of whole device sectors.
//!
//! Layers above read and write at any byte position; the device only ever sees whole sectors,
//! and neighbouring dirty sectors reach it in one write. The cache never touches the device
//! itself: `read_need` and `write_need` say what has to happen before a transfer can be served,
//! and the caller does it.

use std::collections::HashMap;
use vstd::prelude::*;

use crate::bytes;
use crate::bytes::DiskWrite;
use crate::position;
use crate::position::{SeekError, SeekTo};

verus! {

broadcast use vstd::std_specs::hash::group_hash_axioms;

/// How many bytes of sectors are held before everything is flushed; this covers the whole FAT
/// of a typical stick.
pub const CACHE_BYTES: usize = 33_554_432;

/// A sector that the cache holds.
pub struct CachedSector {
    pub data: Vec<u8>,
    pub dirty: bool,
}

pub struct SectorCache {
    sector: usize,
    cap: usize,
    map: HashMap<u64, CachedSector>,
    pos: u64,
}

/// What has to be done before a transfer can be served from the cache.
#[derive(Debug, Clone, Copy, PartialEq, Eq, Structural)]
pub enum CacheNeed {
    Nothing,
    /// Perform the writes of `flush_plan`, then call `flushed`.
    Flush,
    /// Read the sector at this byte offset, then hand it to `install`.
    Fetch { offset: u64 },
}

/// The abstract cache: which sectors are held, with their bytes and whether they are dirty.
#[verifier::ext_equal]
pub struct CacheView {
    pub sector: nat,
    pub cap: nat,
    pub held: Map<u64, (Seq<u8>, bool)>,
    pub pos: nat,
}

impl CacheView {
    /// The sector that the position lies in.
    pub open spec fn lba(self) -> u64 {
        (self.pos / self.sector) as u64
    }

    /// How far into its sector the position lies.
    pub open spec fn inner(self) -> nat {
        self.pos % self.sector
    }

    /// How many of `len` bytes one transfer moves: it stops at the end of the sector.
    pub open spec fn span(self, len: nat) -> nat {
        if len <= self.sector - self.inner() {
            len
        } else {
            (self.sector - self.inner()) as nat
        }
    }

    /// Whether a write of `len` bytes replaces a whole sector, so that its old bytes are not
    /// needed.
    pub open spec fn covers(self, len: nat) -> bool {
        self.inner() == 0 && len >= self.sector
    }

    pub open spec fn full(self) -> bool {
        self.held.dom().len() >= self.cap && self.held.dom().len() > 0
    }

    pub open spec fn valid(self) -> bool {
        &&& 0 < self.sector <= usize::MAX
        &&& self.cap == CACHE_BYTES as nat / self.sector
        &&& self.pos <= u64::MAX
        &&& self.held.dom().finite()
        &&& self.held.dom().len() <= self.cap || self.held.dom().len() <= 1
        &&& forall|l: u64| #[trigger]
            self.held.contains_key(l) ==> self.held[l].0.len() == self.sector && l * self.sector
                <= u64::MAX
    }

    pub open spec fn is_dirty(self, lba: u64) -> bool {
        self.held.contains_key(lba) && self.held[lba].1
    }

    // The operations.
    pub open spec fn need_for_read(self, len: nat) -> CacheNeed {
        if len == 0 || self.held.contains_key(self.lba()) {
            CacheNeed::Nothing
        } else if self.full() {
            CacheNeed::Flush
        } else {
            CacheNeed::Fetch { offset: (self.lba() * self.sector) as u64 }
        }
    }

    pub open spec fn need_for_write(self, len: nat) -> CacheNeed {
        if !self.covers(len) {
            self.need_for_read(len)
        } else if self.held.contains_key(self.lba()) || !self.full() {
            CacheNeed::Nothing
        } else {
            CacheNeed::Flush
        }
    }

    /// A sector fetched from the device is held, clean; bytes that the device did not have
    /// count as zeros.
    pub open spec fn installed(self, data: Seq<u8>) -> CacheView {
        let sector = Seq::new(self.sector, |i: int| bytes::byte_on(data, i));
        CacheView { held: self.held.insert(self.lba(), (sector, false)), ..self }
    }

    /// What a read of `len` bytes gives.
    pub open spec fn read_bytes(self, len: nat) -> Seq<u8> {
        if len == 0 {
            Seq::empty()
        } else {
            self.held[self.lba()].0.subrange(
                self.inner() as int,
                (self.inner() + self.span(len)) as int,
            )
        }
    }

    pub open spec fn moved(self, n: nat) -> CacheView {
        CacheView { pos: self.pos + n, ..self }
    }

    /// The cache after a write of `data`, of which it took the first `span` bytes.
    pub open spec fn written(self, data: Seq<u8>) -> CacheView {
        if data.len() == 0 {
            self
        } else {
            let n = self.span(data.len());
            let at = self.inner() as int;
            let old_data = self.held[self.lba()].0;
            let new_data = Seq::new(
                self.sector,
                |i: int|
                    if at <= i < at + n {
                        data[i - at]
                    } else {
                        old_data[i]
                    },
            );
            CacheView {
                held: self.held.insert(self.lba(), (new_data, true)),
                pos: self.pos + n,
                ..self
            }
        }
    }

    pub open spec fn emptied(self) -> CacheView {
        CacheView { held: Map::empty(), ..self }
    }

    // What a flush writes.
    /// The dirty sectors, in ascending order.
    pub open spec fn lists_dirty(self, l: Seq<u64>) -> bool {
        &&& forall|i: int, j: int| 0 <= i < j < l.len() ==> l[i] < l[j]
        &&& forall|i: int| 0 <= i < l.len() ==> self.is_dirty(#[trigger] l[i])
        &&& forall|b: u64| #[trigger] self.is_dirty(b) ==> l.contains(b)
    }

    /// The bytes of the sectors `l`, one after the other.
    pub open spec fn sectors(self, l: Seq<u64>) -> Seq<u8>
        decreases l.len(),
    {
        if l.len() == 0 {
            Seq::empty()
        } else {
            self.sectors(l.drop_last()) + self.held[l.last()].0
        }
    }

    /// One write for each run of neighbouring sectors.
    pub open spec fn flush_writes(self, l: Seq<u64>) -> Seq<(nat, Seq<u8>)>
        decreases l.len(),
        via Self::flush_writes_shrinks
    {
        if l.len() == 0 {
            Seq::empty()
        } else {
            let n = run_length(l);
            seq![(l[0] as nat * self.sector, self.sectors(l.take(n as int)))] + self.flush_writes(
                l.skip(n as int),
            )
        }
    }

    #[via_fn]
    proof fn flush_writes_shrinks(self, l: Seq<u64>) {
        lemma_run_length(l);
    }
}

/// How many of the first sectors of `l` follow each other without a gap.
pub open spec fn run_length(l: Seq<u64>) -> nat
    decreases l.len(),
{
    if l.len() <= 1 {
        l.len()
    } else if l[1] == l[0] + 1 {
        1 + run_length(l.drop_first())
    } else {
        1
    }
}

pub proof fn lemma_run_length(l: Seq<u64>)
    ensures
        l.len() > 0 ==> run_length(l) > 0,
        run_length(l) <= l.len(),
        forall|k: int| 0 <= k < run_length(l) ==> #[trigger] l[k] == l[0] + k,
        run_length(l) < l.len() ==> l[run_length(l) as int] != l[0] + run_length(l),
    decreases l.len(),
{
    if l.len() > 1 && l[1] == l[0] + 1 {
        let rest = l.drop_first();
        lemma_run_length(rest);
        assert forall|k: int| 0 <= k < run_length(l) implies #[trigger] l[k] == l[0] + k by {
            if k > 0 {
                assert(rest[k - 1] == l[k]);
            }
        }
    }
}

/// A run of `n` sectors that no further sector continues has that length.
proof fn lemma_is_run_length(l: Seq<u64>, n: int)
    requires
        0 < n <= l.len(),
        forall|k: int| 0 <= k < n ==> #[trigger] l[k] == l[0] + k,
        n < l.len() ==> l[n] != l[0] + n,
    ensures
        run_length(l) == n,
{
    lemma_run_length(l);
    if run_length(l) < n {
        assert(l[run_length(l) as int] == l[0] + run_length(l));
    } else if run_length(l) > n {
        assert(l[n] == l[0] + n);
    }
}

/// Calls `<[u64]>::sort_unstable`, which puts the numbers in ascending order and keeps each as
/// often as it was there.
#[verifier::external_body]
fn sort_ascending(v: &mut Vec<u64>)
    ensures
        forall|i: int, j: int| 0 <= i <= j < final(v)@.len() ==> final(v)@[i] <= final(v)@[j],
        final(v)@.to_multiset() == old(v)@.to_multiset(),
{
    v.sort_unstable();
}

impl View for SectorCache {
    type V = CacheView;

    closed spec fn view(&self) -> CacheView {
        CacheView {
            sector: self.sector as nat,
            cap: self.cap as nat,
            held: self.map@.map_values(|c: CachedSector| (c.data@, c.dirty)),
            pos: self.pos as nat,
        }
    }
}

impl SectorCache {
    pub fn new(sector: usize) -> (c: SectorCache)
        requires
            sector > 0,
        ensures
            c@.valid(),
            c@ == (CacheView {
                sector: sector as nat,
                cap: CACHE_BYTES as nat / sector as nat,
                held: Map::empty(),
                pos: 0,
            }),
    {
        let c = SectorCache { sector, cap: CACHE_BYTES / sector, map: HashMap::new(), pos: 0 };
        assert(c@.held =~= Map::<u64, (Seq<u8>, bool)>::empty());
        c
    }

    fn lba(&self) -> (l: u64)
        requires
            self@.valid(),
        ensures
            l == self@.lba(),
            l == self@.pos / self@.sector,
            l * self@.sector <= self@.pos,
    {
        proof {
            let (p, s) = (self.pos as int, self.sector as int);
            vstd::arithmetic::div_mod::lemma_fundamental_div_mod(p, s);
            assert(s * (p / s) == (p / s) * s) by (nonlinear_arith);
            assert(p / s <= p) by (nonlinear_arith)
                requires
                    s > 0,
                    p >= 0,
            ;
        }
        self.pos / self.sector as u64
    }

    fn inner(&self) -> (n: usize)
        requires
            self@.valid(),
        ensures
            n == self@.inner(),
            n < self@.sector,
    {
        (self.pos % self.sector as u64) as usize
    }

    fn is_full(&self) -> (r: bool)
        requires
            self@.valid(),
        ensures
            r == self@.full(),
    {
        proof {
            assert(self@.held.dom() =~= self.map@.dom());
        }
        self.map.len() >= self.cap && self.map.len() > 0
    }

    fn holds(&self, lba: u64) -> (r: bool)
        requires
            self@.valid(),
        ensures
            r == self@.held.contains_key(lba),
    {
        self.map.contains_key(&lba)
    }

    /// What must happen before `read` can serve up to `len` bytes.
    pub fn read_need(&self, len: usize) -> (need: CacheNeed)
        requires
            self@.valid(),
        ensures
            need == self@.need_for_read(len as nat),
    {
        let lba = self.lba();
        if len == 0 || self.holds(lba) {
            return CacheNeed::Nothing;
        }
        if self.is_full() {
            return CacheNeed::Flush;
        }
        CacheNeed::Fetch { offset: lba * self.sector as u64 }
    }

    /// What must happen before `write` can take the first of `len` bytes.
    pub fn write_need(&self, len: usize) -> (need: CacheNeed)
        requires
            self@.valid(),
        ensures
            need == self@.need_for_write(len as nat),
    {
        if !(self.inner() == 0 && len >= self.sector) {
            return self.read_need(len);
        }
        if self.holds(self.lba()) || !self.is_full() {
            CacheNeed::Nothing
        } else {
            CacheNeed::Flush
        }
    }

    /// Takes in the sector at the position, as the device gave it.
    pub fn install(&mut self, data: &[u8])
        requires
            old(self)@.valid(),
            !old(self)@.held.contains_key(old(self)@.lba()),
            !old(self)@.full(),
        ensures
            final(self)@.valid(),
            final(self)@ == old(self)@.installed(data@),
    {
        let mut sector: Vec<u8> = Vec::new();
        for i in 0..self.sector
            invariant
                sector@ == Seq::new(i as nat, |k: int| bytes::byte_on(data@, k)),
        {
            let b: u8 = if i < data.len() {
                data[i]
            } else {
                0
            };
            sector.push(b);
            assert(sector@ =~= Seq::new((i + 1) as nat, |k: int| bytes::byte_on(data@, k)));
        }
        let lba = self.lba();
        self.put(lba, sector, false);
    }

    fn put(&mut self, lba: u64, data: Vec<u8>, dirty: bool)
        requires
            old(self)@.valid(),
            old(self)@.held.contains_key(lba) || !old(self)@.full(),
            data@.len() == old(self)@.sector,
            lba * old(self)@.sector <= u64::MAX,
        ensures
            final(self)@.valid(),
            final(self)@ == (CacheView {
                held: old(self)@.held.insert(lba, (data@, dirty)),
                ..old(self)@
            }),
    {
        let ghost before = self@;
        assert(before.held.dom() =~= self.map@.dom());
        self.map.insert(lba, CachedSector { data, dirty });
        assert(self@.held =~= before.held.insert(lba, (data@, dirty)));
    }

    /// Reads into `out`, up to the end of the sector, and moves on by what was read.
    pub fn read(&mut self, out: &mut [u8]) -> (n: usize)
        requires
            old(self)@.valid(),
            old(self)@.need_for_read(old(out)@.len()) is Nothing,
            old(self)@.pos + old(self)@.span(old(out)@.len()) <= u64::MAX,
        ensures
            final(self)@.valid(),
            n == old(self)@.span(old(out)@.len()),
            final(self)@ == old(self)@.moved(n as nat),
            final(out)@ == old(self)@.read_bytes(old(out)@.len()) + old(out)@.skip(n as int),
    {
        let ghost len = out@.len();
        if out.len() == 0 {
            assert(out@ =~= self@.read_bytes(len) + out@.skip(0));
            return 0;
        }
        let lba = self.lba();
        let inner = self.inner();
        let room: usize = self.sector - inner;
        let n: usize = if out.len() <= room {
            out.len()
        } else {
            room
        };
        assert(self@.held.contains_key(lba));
        let ghost held = self@.held[lba].0;
        match self.map.get(&lba) {
            Some(c) => {
                let ghost before = out@;
                for i in 0..n
                    invariant
                        c.data@ == held,
                        inner + n <= held.len() == c.data.len(),
                        n <= out@.len() == before.len(),
                        out@ == held.subrange(inner as int, inner + i) + before.skip(i as int),
                {
                    out[i] = c.data[inner + i];
                    assert(out@ =~= held.subrange(inner as int, inner + i + 1) + before.skip(
                        i + 1,
                    ));
                }
            },
            None => {},
        }
        self.pos = self.pos + n as u64;
        n
    }

    /// Takes the first of `data`, up to the end of the sector, and moves on by that much.
    pub fn write(&mut self, data: &[u8]) -> (n: usize)
        requires
            old(self)@.valid(),
            old(self)@.need_for_write(data@.len()) is Nothing,
            old(self)@.pos + old(self)@.span(data@.len()) <= u64::MAX,
        ensures
            final(self)@.valid(),
            n == old(self)@.span(data@.len()),
            final(self)@ == old(self)@.written(data@),
    {
        if data.len() == 0 {
            return 0;
        }
        let ghost before = self@;
        let lba = self.lba();
        let inner = self.inner();
        let room: usize = self.sector - inner;
        let n: usize = if data.len() <= room {
            data.len()
        } else {
            room
        };
        let mut sector: Vec<u8> = Vec::new();
        let ghost old_data = before.held[lba].0;
        let ghost new_data = |i: int|
            if inner <= i < inner + n {
                data@[i - inner]
            } else {
                old_data[i]
            };
        let kept = self.map.get(&lba);
        for i in 0..self.sector
            invariant
                0 < n <= data@.len() == data.len(),
                inner + n <= self.sector,
                kept matches Some(c) ==> c.data@ == old_data && c.data.len() == self.sector,
                kept is None ==> n == self.sector && inner == 0,
                new_data == |i: int|
                    if inner <= i < inner + n {
                        data@[i - inner]
                    } else {
                        old_data[i]
                    },
                sector@ == Seq::new(i as nat, new_data),
        {
            let b: u8 = if inner <= i && i < inner + n {
                data[i - inner]
            } else {
                match kept {
                    Some(c) => c.data[i],
                    None => 0,
                }
            };
            sector.push(b);
            assert(sector@ =~= Seq::new((i + 1) as nat, new_data));
        }
        self.put(lba, sector, true);
        self.pos = self.pos + n as u64;
        assert(self@.held =~= before.written(data@).held);
        n
    }

    pub fn can_seek(&self, to: SeekTo) -> (r: bool)
        requires
            self@.valid(),
        ensures
            r == (to is End || position::seek_in_range(to, self@.pos as u64, 0)),
    {
        match to {
            SeekTo::End(_) => true,
            _ => position::can_seek(to, self.pos, 0),
        }
    }

    /// Whether a transfer of up to `len` bytes stays within the range of positions.
    pub fn has_room(&self, len: usize) -> (r: bool)
        requires
            self@.valid(),
        ensures
            r == (self@.pos + self@.span(len as nat) <= u64::MAX),
    {
        let room: usize = self.sector - self.inner();
        let n: usize = if len <= room {
            len
        } else {
            room
        };
        self.pos <= u64::MAX - n as u64
    }

    /// Moves to a position. Nothing is known of the device's end, so none can be counted from
    /// there.
    pub fn seek(&mut self, to: SeekTo) -> (r: Result<u64, SeekError>)
        requires
            old(self)@.valid(),
            to is End || position::seek_in_range(to, old(self)@.pos as u64, 0),
        ensures
            final(self)@.valid(),
            ({
                let target = position::seek_target(to, old(self)@.pos as u64, 0);
                if to is End {
                    &&& r == Err::<u64, SeekError>(SeekError::EndUnsupported)
                    &&& final(self)@ == old(self)@
                } else if target < 0 {
                    &&& r == Err::<u64, SeekError>(SeekError::Negative)
                    &&& final(self)@ == old(self)@
                } else {
                    &&& r == Ok::<u64, SeekError>(target as u64)
                    &&& final(self)@ == (CacheView { pos: target as nat, ..old(self)@ })
                }
            }),
    {
        match to {
            SeekTo::End(_) => Err(SeekError::EndUnsupported),
            _ => match position::resolve_seek(to, self.pos, 0) {
                Ok(np) => {
                    self.pos = np;
                    Ok(np)
                },
                Err(e) => Err(e),
            },
        }
    }

    /// The dirty sectors, in ascending order.
    fn dirty_lbas(&self) -> (l: Vec<u64>)
        requires
            self@.valid(),
        ensures
            self@.lists_dirty(l@),
    {
        let mut l: Vec<u64> = Vec::new();
        let ghost keys = vstd::std_specs::iter::IteratorSpec::remaining(
            &vstd::std_specs::hash::spec_keys_iter(&self.map),
        );
        assert(keys.unref().to_set() == self.map@.dom());
        for key in it: self.map.keys()
            invariant
                it.seq() == keys,
                keys.no_duplicates(),
                keys.unref().to_set() == self.map@.dom(),
                l@.no_duplicates(),
                forall|i: int|
                    0 <= i < l@.len() ==> self@.is_dirty(#[trigger] l@[i]) && exists|k: int|
                        0 <= k < it.index() && *keys[k] == l@[i],
                forall|k: int|
                    0 <= k < it.index() && self@.is_dirty(*#[trigger] keys[k]) ==> l@.contains(
                        *keys[k],
                    ),
        {
            let ghost before = l@;
            proof {
                assert(keys.unref().contains(keys.unref()[it.index() as int]));
            }
            if let Some(c) = self.map.get(key) {
                if c.dirty {
                    l.push(*key);
                    assert(l@[before.len() as int] == *key);
                }
            }
            assert forall|k: int|
                0 <= k < it.index() + 1 && self@.is_dirty(*#[trigger] keys[k]) implies l@.contains(
                *keys[k],
            ) by {
                if k < it.index() {
                    let at = before.index_of(*keys[k]);
                    assert(before.contains(*keys[k]));
                    assert(l@[at] == *keys[k]);
                }
            }
        }
        let ghost unsorted = l@;
        sort_ascending(&mut l);
        proof {
            lemma_sorted_listing(unsorted, l@);
            assert forall|b: u64| #[trigger] self@.is_dirty(b) implies l@.contains(b) by {
                assert(keys.unref().to_set().contains(b));
                let k = keys.unref().index_of(b);
                assert(*keys[k] == b);
                assert(unsorted.contains(b));
            }
            assert forall|i: int| 0 <= i < l@.len() implies self@.is_dirty(#[trigger] l@[i]) by {
                assert(l@.contains(l@[i]));
                let k = unsorted.index_of(l@[i]);
                assert(self@.is_dirty(unsorted[k]));
            }
        }
        l
    }

    /// The writes that bring every dirty sector to the device: one for each run of
    /// neighbouring sectors, in ascending order.
    pub fn flush_plan(&self) -> (w: Vec<DiskWrite>)
        requires
            self@.valid(),
        ensures
            exists|l: Seq<u64>|
                self@.lists_dirty(l) && bytes::write_views(w@) == self@.flush_writes(l),
    {
        let lbas = self.dirty_lbas();
        let ghost l = lbas@;
        let mut w: Vec<DiskWrite> = Vec::new();
        let mut i: usize = 0;
        assert(l.skip(0) =~= l);
        assert(bytes::write_views(w@) + self@.flush_writes(l) =~= self@.flush_writes(l));
        while i < lbas.len()
            invariant
                self@.valid(),
                self@.lists_dirty(l),
                l == lbas@,
                i <= lbas.len(),
                bytes::write_views(w@) + self@.flush_writes(l.skip(i as int))
                    == self@.flush_writes(l),
            decreases lbas.len() - i,
        {
            let start = lbas[i];
            let mut run: Vec<u8> = Vec::new();
            self.push_sector(&mut run, start);
            let mut j: usize = i + 1;
            let ghost rest = l.skip(i as int);
            proof {
                assert(rest.take(1).drop_last() =~= Seq::<u64>::empty());
                reveal_with_fuel(CacheView::sectors, 2);
                assert(run@ =~= self@.sectors(rest.take(1)));
            }
            while j < lbas.len() && lbas[j] == lbas[j - 1] + 1
                invariant
                    self@.valid(),
                    self@.lists_dirty(l),
                    l == lbas@,
                    i < j <= lbas.len(),
                    rest == l.skip(i as int),
                    forall|k: int| 0 <= k < j - i ==> #[trigger] rest[k] == rest[0] + k,
                    run@ == self@.sectors(rest.take(j - i)),
                decreases lbas.len() - j,
            {
                self.push_sector(&mut run, lbas[j]);
                assert(rest.take(j + 1 - i).drop_last() =~= rest.take(j - i));
                assert(rest[j - i - 1] == l[j - 1]);
                j = j + 1;
            }
            proof {
                assert(rest[j - i - 1] == l[j - 1]);
                lemma_is_run_length(rest, j - i);
                assert(rest.skip(j - i) =~= l.skip(j as int));
                assert(self@.is_dirty(l[i as int]));
            }
            let ghost before = bytes::write_views(w@);
            w.push(DiskWrite { offset: start * self.sector as u64, bytes: run });
            proof {
                assert(bytes::write_views(w@) =~= before.push(
                    (start as nat * self@.sector, self@.sectors(rest.take(j - i))),
                ));
                assert(bytes::write_views(w@) + self@.flush_writes(l.skip(j as int)) =~= before
                    + self@.flush_writes(rest));
            }
            i = j;
        }
        proof {
            assert(bytes::write_views(w@) =~= bytes::write_views(w@) + self@.flush_writes(
                l.skip(i as int),
            ));
        }
        w
    }

    fn push_sector(&self, run: &mut Vec<u8>, lba: u64)
        requires
            self@.valid(),
            self@.held.contains_key(lba),
        ensures
            final(run)@ == old(run)@ + self@.held[lba].0,
    {
        if let Some(c) = self.map.get(&lba) {
            bytes::push_all(run, c.data.as_slice());
        }
    }

    /// Whether anything waits for a flush.
    pub fn has_dirty(&self) -> (r: bool)
        requires
            self@.valid(),
        ensures
            r == exists|b: u64| self@.is_dirty(b),
    {
        let lbas = self.dirty_lbas();
        proof {
            if lbas@.len() > 0 {
                assert(self@.is_dirty(lbas@[0]));
            }
        }
        lbas.len() > 0
    }

    /// Lets go of every sector, once the writes of `flush_plan` have been performed.
    pub fn flushed(&mut self)
        requires
            old(self)@.valid(),
        ensures
            final(self)@.valid(),
            final(self)@ == old(self)@.emptied(),
    {
        self.map.clear();
        assert(self@.held =~= Map::<u64, (Seq<u8>, bool)>::empty());
    }
}

/// Sorting numbers that all differ puts them in strictly ascending order.
proof fn lemma_sorted_listing(unsorted: Seq<u64>, sorted: Seq<u64>)
    requires
        unsorted.no_duplicates(),
        sorted.to_multiset() == unsorted.to_multiset(),
        forall|i: int, j: int| 0 <= i <= j < sorted.len() ==> sorted[i] <= sorted[j],
    ensures
        forall|i: int, j: int| 0 <= i < j < sorted.len() ==> sorted[i] < sorted[j],
        forall|b: u64| sorted.contains(b) <==> unsorted.contains(b),
{
    broadcast use vstd::seq_lib::group_to_multiset_ensures;

    unsorted.lemma_multiset_has_no_duplicates();
    sorted.lemma_multiset_has_no_duplicates_conv();
    assert forall|b: u64| sorted.contains(b) <==> unsorted.contains(b) by {
        assert(sorted.to_multiset().count(b) > 0 <==> sorted.contains(b));
        assert(unsorted.to_multiset().count(b) > 0 <==> unsorted.contains(b));
    }
}

} // verus!
