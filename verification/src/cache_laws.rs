//! What the sector cache promises: whoever reads through it sees every write at once, and a
//! flush leaves the device with exactly what was seen.

use vstd::arithmetic::div_mod;
use vstd::prelude::*;

use crate::bytes;
use crate::cache;
use crate::cache::{CacheNeed, CacheView};

verus! {

/// The byte at position `i` that a reader sees through the cache: the cached one where its
/// sector is held, the device's otherwise.
pub open spec fn visible(v: CacheView, disk: Seq<u8>, i: int) -> u8 {
    let lba = i / v.sector as int;
    if 0 <= lba <= u64::MAX && v.held.contains_key(lba as u64) {
        v.held[lba as u64].0[i % v.sector as int]
    } else {
        bytes::byte_on(disk, i)
    }
}

/// Sectors that are held clean are what the device holds.
pub open spec fn coherent(v: CacheView, disk: Seq<u8>) -> bool {
    forall|l: u64, k: int|
        v.held.contains_key(l) && !v.held[l].1 && 0 <= k < v.sector ==> #[trigger] v.held[l].0[k]
            == bytes::byte_on(disk, l * v.sector + k)
}

proof fn lemma_place(v: CacheView, lba: int, k: int)
    requires
        v.sector > 0,
        0 <= k < v.sector,
    ensures
        (lba * v.sector + k) / v.sector as int == lba,
        (lba * v.sector + k) % v.sector as int == k,
{
    div_mod::lemma_fundamental_div_mod_converse(lba * v.sector + k, v.sector as int, lba, k);
}

proof fn lemma_position(v: CacheView)
    requires
        v.valid(),
    ensures
        v.pos == v.lba() * v.sector + v.inner(),
        v.inner() < v.sector,
{
    let (p, s) = (v.pos as int, v.sector as int);
    div_mod::lemma_fundamental_div_mod(p, s);
    assert(s * (p / s) == (p / s) * s) by (nonlinear_arith);
    assert(0 <= p / s <= p) by (nonlinear_arith)
        requires
            s > 0,
            p >= 0,
    ;
}

/// An empty cache shows the device.
pub proof fn empty_cache_shows_device(v: CacheView, disk: Seq<u8>, i: int)
    ensures
        coherent(v.emptied(), disk),
        visible(v.emptied(), disk, i) == bytes::byte_on(disk, i),
{
}

/// Fetching a sector changes nothing that a reader sees.
pub proof fn install_keeps_visible(v: CacheView, disk: Seq<u8>, data: Seq<u8>)
    requires
        v.valid(),
        coherent(v, disk),
        !v.held.contains_key(v.lba()),
        forall|k: int|
            0 <= k < v.sector ==> #[trigger] bytes::byte_on(data, k) == bytes::byte_on(
                disk,
                v.lba() * v.sector + k,
            ),
    ensures
        coherent(v.installed(data), disk),
        forall|i: int|
            0 <= i ==> #[trigger] visible(v.installed(data), disk, i) == visible(v, disk, i),
{
    let after = v.installed(data);
    assert forall|i: int| 0 <= i implies #[trigger] visible(after, disk, i) == visible(
        v,
        disk,
        i,
    ) by {
        let s = v.sector as int;
        div_mod::lemma_fundamental_div_mod(i, s);
        if i / s == v.lba() as int {
            assert(s * (i / s) == (i / s) * s) by (nonlinear_arith);
            assert(bytes::byte_on(data, i % s) == bytes::byte_on(disk, v.lba() * v.sector + i % s));
        }
    }
    assert forall|l: u64, k: int|
        after.held.contains_key(l) && !after.held[l].1 && 0 <= k
            < after.sector implies #[trigger] after.held[l].0[k] == bytes::byte_on(
        disk,
        l * after.sector + k,
    ) by {
        if l != v.lba() {
            assert(after.held[l] == v.held[l]);
            assert(v.held[l].0[k] == bytes::byte_on(disk, l * v.sector + k));
        } else {
            assert(after.held[l].0[k] == bytes::byte_on(data, k));
        }
    }
}

/// A read gives what is visible at the position, and makes progress.
pub proof fn read_gives_visible(v: CacheView, disk: Seq<u8>, len: nat)
    requires
        v.valid(),
        v.need_for_read(len) is Nothing,
    ensures
        v.read_bytes(len).len() == v.span(len) <= len,
        len > 0 ==> v.span(len) > 0,
        forall|k: int|
            0 <= k < v.span(len) ==> #[trigger] v.read_bytes(len)[k] == visible(
                v,
                disk,
                v.pos + k,
            ),
{
    lemma_position(v);
    if len > 0 {
        assert forall|k: int| 0 <= k < v.span(len) implies #[trigger] v.read_bytes(len)[k]
            == visible(v, disk, v.pos + k) by {
            lemma_place(v, v.lba() as int, v.inner() + k);
        }
    }
}

/// After a write a reader sees what was written, and everything else as before.
pub proof fn write_is_visible(v: CacheView, disk: Seq<u8>, data: Seq<u8>)
    requires
        v.valid(),
        coherent(v, disk),
        v.need_for_write(data.len()) is Nothing,
    ensures
        data.len() > 0 ==> v.span(data.len()) > 0,
        coherent(v.written(data), disk),
        v.written(data).pos == v.pos + v.span(data.len()),
        forall|i: int|
            0 <= i ==> #[trigger] visible(v.written(data), disk, i) == if v.pos <= i < v.pos
                + v.span(data.len()) {
                data[i - v.pos]
            } else {
                visible(v, disk, i)
            },
{
    lemma_position(v);
    let after = v.written(data);
    if data.len() > 0 {
        let n = v.span(data.len());
        assert forall|i: int| 0 <= i implies #[trigger] visible(after, disk, i) == if v.pos <= i
            < v.pos + n {
            data[i - v.pos]
        } else {
            visible(v, disk, i)
        } by {
            let s = v.sector as int;
            div_mod::lemma_fundamental_div_mod(i, s);
            assert(s * (i / s) == (i / s) * s) by (nonlinear_arith);
            if v.pos <= i < v.pos + n {
                lemma_place(v, v.lba() as int, v.inner() + (i - v.pos));
            }
        }
        assert forall|l: u64, k: int|
            after.held.contains_key(l) && !after.held[l].1 && 0 <= k
                < after.sector implies #[trigger] after.held[l].0[k] == bytes::byte_on(
            disk,
            l * after.sector + k,
        ) by {
            assert(l != v.lba());
            assert(after.held[l] == v.held[l]);
            assert(v.held[l].0[k] == bytes::byte_on(disk, l * v.sector + k));
        }
    }
}

// ---------------------------------------------------------------------------------------
// Flushing
// ---------------------------------------------------------------------------------------

/// Only one list holds the dirty sectors in ascending order, so a flush can only do one thing.
pub proof fn dirty_listing_is_unique(v: CacheView, a: Seq<u64>, b: Seq<u64>)
    requires
        v.lists_dirty(a),
        v.lists_dirty(b),
    ensures
        a == b,
{
    lemma_agree(v, a, b, a.len());
    assert(a.len() == b.len()) by {
        if a.len() < b.len() {
            let x = b[a.len() as int];
            assert(v.is_dirty(x));
            let k = a.index_of(x);
            assert(a[k] == x && b[k] == a[k]);
        } else if b.len() < a.len() {
            let x = a[b.len() as int];
            assert(v.is_dirty(x));
            let k = b.index_of(x);
            assert(b[k] == x && a[k] == b[k]);
        }
    }
    assert(a =~= b);
}

proof fn lemma_agree(v: CacheView, a: Seq<u64>, b: Seq<u64>, n: nat)
    requires
        v.lists_dirty(a),
        v.lists_dirty(b),
    ensures
        forall|k: int| 0 <= k < n && k < a.len() && k < b.len() ==> a[k] == b[k],
    decreases n,
{
    if n > 0 {
        lemma_agree(v, a, b, (n - 1) as nat);
        let k = n - 1;
        if k < a.len() && k < b.len() {
            assert(v.is_dirty(a[k]) && v.is_dirty(b[k]));
            let i = a.index_of(b[k]);
            let j = b.index_of(a[k]);
            assert(a[i] == b[k] && b[j] == a[k]);
            if i < k {
                assert(a[i] == b[i]);
            }
            if j < k {
                assert(a[j] == b[j]);
            }
        }
    }
}

pub open spec fn listed(l: Seq<u64>, lba: int) -> bool {
    exists|k: int| 0 <= k < l.len() && #[trigger] l[k] == lba
}

/// The bytes of a list of sectors: `k` sectors in stands the sector `l[k]`.
proof fn lemma_sectors(v: CacheView, l: Seq<u64>)
    requires
        v.valid(),
        forall|k: int| 0 <= k < l.len() ==> v.held.contains_key(#[trigger] l[k]),
    ensures
        v.sectors(l).len() == l.len() * v.sector,
        forall|k: int, j: int|
            #![trigger v.held[l[k]].0[j]]
            0 <= k < l.len() && 0 <= j < v.sector ==> v.sectors(l)[k * v.sector + j]
                == v.held[l[k]].0[j],
    decreases l.len(),
{
    let s = v.sector as int;
    if l.len() > 0 {
        let front = l.drop_last();
        lemma_sectors(v, front);
        let m = front.len() as int;
        assert(v.held.contains_key(l[m]));
        assert((m + 1) * s == m * s + s) by (nonlinear_arith);
        assert forall|k: int, j: int|
            #![trigger v.held[l[k]].0[j]]
            0 <= k < l.len() && 0 <= j < v.sector implies v.sectors(l)[k * v.sector + j]
            == v.held[l[k]].0[j] by {
            if k < m {
                assert(front[k] == l[k]);
                assert(v.held[front[k]].0[j] == v.sectors(front)[k * v.sector + j]);
                assert(0 <= k * s && k * s + j < m * s) by (nonlinear_arith)
                    requires
                        0 <= k < m,
                        0 <= j < s,
                ;
            }
        }
    } else {
        assert(0 * s == 0);
    }
}

/// After the writes for the sectors `l`, the device holds those sectors, and elsewhere what it
/// held before.
proof fn lemma_flushed_byte(v: CacheView, disk: Seq<u8>, l: Seq<u64>, i: int)
    requires
        v.valid(),
        0 <= i,
        forall|a: int, b: int| 0 <= a < b < l.len() ==> l[a] < l[b],
        forall|k: int| 0 <= k < l.len() ==> v.held.contains_key(#[trigger] l[k]),
    ensures
        bytes::byte_on(bytes::after_writes(disk, v.flush_writes(l)), i) == if listed(
            l,
            i / v.sector as int,
        ) {
            v.held[(i / v.sector as int) as u64].0[i % v.sector as int]
        } else {
            bytes::byte_on(disk, i)
        },
    decreases l.len(),
{
    if l.len() > 0 {
        cache::lemma_run_length(l);
        let s = v.sector as int;
        let n = cache::run_length(l) as int;
        let run = l.take(n);
        let rest = l.skip(n);
        let w = (l[0] as nat * v.sector, v.sectors(run));
        let lba = i / s;
        bytes::first_write_first(disk, w, v.flush_writes(rest));
        assert forall|k: int| 0 <= k < rest.len() implies v.held.contains_key(
            #[trigger] rest[k],
        ) by {
            assert(rest[k] == l[n + k]);
        }
        lemma_flushed_byte(v, bytes::after_write(disk, w), rest, i);
        bytes::read_after_write(disk, w, i);
        lemma_sectors(v, run);
        div_mod::lemma_fundamental_div_mod(i, s);
        assert(s * lba == lba * s) by (nonlinear_arith);
        if listed(rest, lba) {
            let k = choose|k: int| 0 <= k < rest.len() && #[trigger] rest[k] == lba;
            assert(l[n + k] == lba);
        } else if w.0 <= i < w.0 + w.1.len() {
            let k = lba - l[0];
            assert(0 <= k < n) by (nonlinear_arith)
                requires
                    l[0] * s <= i < l[0] * s + n * s,
                    i == lba * s + i % s,
                    0 <= i % s < s,
                    k == lba - l[0],
                    s > 0,
            ;
            assert(run[k] == lba);
            assert(l[k] == lba);
            assert(v.held[run[k]].0[i % s] == v.sectors(run)[k * v.sector + i % s]);
            assert(k * s == lba * s - l[0] * s) by (nonlinear_arith)
                requires
                    k == lba - l[0],
            ;
        } else {
            if listed(l, lba) {
                let k = choose|k: int| 0 <= k < l.len() && #[trigger] l[k] == lba;
                if k >= n {
                    assert(rest[k - n] == lba);
                } else {
                    assert(l[0] * s <= i < l[0] * s + n * s) by (nonlinear_arith)
                        requires
                            lba == l[0] + k,
                            0 <= k < n,
                            i == lba * s + i % s,
                            0 <= i % s < s,
                            s > 0,
                    ;
                }
            }
        }
    }
}

/// After a flush the device itself holds everything that was visible through the cache.
pub proof fn flush_brings_visible_to_device(v: CacheView, disk: Seq<u8>, l: Seq<u64>)
    requires
        v.valid(),
        coherent(v, disk),
        v.lists_dirty(l),
    ensures
        forall|i: int|
            0 <= i ==> #[trigger] bytes::byte_on(
                bytes::after_writes(disk, v.flush_writes(l)),
                i,
            ) == visible(v, disk, i),
{
    let after = bytes::after_writes(disk, v.flush_writes(l));
    assert forall|i: int| 0 <= i implies #[trigger] bytes::byte_on(after, i) == visible(
        v,
        disk,
        i,
    ) by {
        let s = v.sector as int;
        let lba = i / s;
        assert forall|k: int| 0 <= k < l.len() implies v.held.contains_key(#[trigger] l[k]) by {
            assert(v.is_dirty(l[k]));
        }
        lemma_flushed_byte(v, disk, l, i);
        div_mod::lemma_fundamental_div_mod(i, s);
        assert(s * lba == lba * s) by (nonlinear_arith);
        assert(0 <= lba) by (nonlinear_arith)
            requires
                lba == i / s,
                i >= 0,
                s > 0,
        ;
        if listed(l, lba) {
            let k = choose|k: int| 0 <= k < l.len() && #[trigger] l[k] == lba;
            assert(v.is_dirty(l[k]));
        } else if lba <= u64::MAX && v.held.contains_key(lba as u64) {
            if v.is_dirty(lba as u64) {
                assert(l[l.index_of(lba as u64)] == lba);
            }
            assert(v.held[lba as u64].0[i % s] == bytes::byte_on(
                disk,
                (lba as u64) * v.sector + i % s,
            ));
        }
    }
}

/// A flush puts each byte of a sector that was written to in its place, and leaves all others.
pub proof fn flush_brings_written_sectors(v: CacheView, disk: Seq<u8>, l: Seq<u64>, i: int)
    requires
        v.valid(),
        v.lists_dirty(l),
        0 <= i,
    ensures
        ({
            let d = bytes::after_writes(disk, v.flush_writes(l));
            let b = (i / v.sector as int) as u64;
            if i / v.sector as int <= u64::MAX && v.is_dirty(b) {
                bytes::byte_on(d, i) == v.held[b].0[i % v.sector as int]
            } else {
                bytes::byte_on(d, i) == bytes::byte_on(disk, i)
            }
        }),
{
    let s = v.sector as int;
    let lba = i / s;
    assert forall|k: int| 0 <= k < l.len() implies v.held.contains_key(#[trigger] l[k]) by {
        assert(v.is_dirty(l[k]));
    }
    lemma_flushed_byte(v, disk, l, i);
    assert(0 <= lba) by (nonlinear_arith)
        requires
            lba == i / s,
            i >= 0,
            s > 0,
    ;
    if listed(l, lba) {
        let k = choose|k: int| 0 <= k < l.len() && #[trigger] l[k] == lba;
        assert(v.is_dirty(l[k]));
    } else if lba <= u64::MAX && v.is_dirty(lba as u64) {
        assert(l[l.index_of(lba as u64)] == lba);
    }
}

// ---------------------------------------------------------------------------------------
// Whole runs
// ---------------------------------------------------------------------------------------

/// Going back to where a write started and reading gives the written bytes again.
pub proof fn writes_read_back(v: CacheView, data: Seq<u8>)
    requires
        v.valid(),
        data.len() > 0,
        v.need_for_write(data.len()) is Nothing,
    ensures
        (CacheView { pos: v.pos, ..v.written(data) }).read_bytes(data.len()) == data.take(
            v.span(data.len()) as int,
        ),
{
    let back = CacheView { pos: v.pos, ..v.written(data) };
    lemma_position(v);
    assert(back.read_bytes(data.len()) =~= data.take(v.span(data.len()) as int));
}

/// A cache and the device behind it.
pub struct Cached {
    pub cache: CacheView,
    pub disk: Seq<u8>,
}

/// What can be done with a cache.
pub enum CacheOp {
    Seek(nat),
    Read(nat),
    Write(Seq<u8>),
    /// Read the sector at the position from the device.
    Fetch,
    /// Write the dirty sectors, in the order given, and let go of all.
    Flush(Seq<u64>),
}

/// What the device holds of the sector at the position.
pub open spec fn device_sector(c: Cached) -> Seq<u8> {
    Seq::new(
        c.cache.sector,
        |k: int| bytes::byte_on(c.disk, c.cache.lba() * c.cache.sector + k),
    )
}

/// The operation is one that the cache is ready for.
pub open spec fn ready(c: Cached, op: CacheOp) -> bool {
    match op {
        CacheOp::Seek(p) => p <= u64::MAX,
        CacheOp::Read(len) => {
            &&& c.cache.need_for_read(len) is Nothing
            &&& c.cache.pos + c.cache.span(len) <= u64::MAX
        },
        CacheOp::Write(data) => {
            &&& c.cache.need_for_write(data.len()) is Nothing
            &&& c.cache.pos + c.cache.span(data.len()) <= u64::MAX
        },
        CacheOp::Fetch => !c.cache.held.contains_key(c.cache.lba()) && !c.cache.full(),
        CacheOp::Flush(l) => c.cache.lists_dirty(l),
    }
}

pub open spec fn after_op(c: Cached, op: CacheOp) -> Cached {
    match op {
        CacheOp::Seek(p) => Cached { cache: CacheView { pos: p, ..c.cache }, ..c },
        CacheOp::Read(len) => Cached { cache: c.cache.moved(c.cache.span(len)), ..c },
        CacheOp::Write(data) => Cached { cache: c.cache.written(data), ..c },
        CacheOp::Fetch => Cached { cache: c.cache.installed(device_sector(c)), ..c },
        CacheOp::Flush(l) => Cached {
            cache: c.cache.emptied(),
            disk: bytes::after_writes(c.disk, c.cache.flush_writes(l)),
        },
    }
}

pub open spec fn all_ready(c: Cached, ops: Seq<CacheOp>) -> bool
    decreases ops.len(),
{
    ops.len() == 0 || (ready(c, ops[0]) && all_ready(after_op(c, ops[0]), ops.drop_first()))
}

pub open spec fn after_ops(c: Cached, ops: Seq<CacheOp>) -> Cached
    decreases ops.len(),
{
    if ops.len() == 0 {
        c
    } else {
        after_ops(after_op(c, ops[0]), ops.drop_first())
    }
}

/// A mirror of what was written: the last write to a position, else what was there before.
pub open spec fn mirrored(c: Cached, ops: Seq<CacheOp>, i: int) -> u8
    decreases ops.len(),
{
    if ops.len() == 0 {
        visible(c.cache, c.disk, i)
    } else {
        let last = ops.last();
        let before = after_ops(c, ops.drop_last()).cache;
        match last {
            CacheOp::Write(data) => if before.pos <= i < before.pos + before.span(data.len()) {
                data[i - before.pos]
            } else {
                mirrored(c, ops.drop_last(), i)
            },
            _ => mirrored(c, ops.drop_last(), i),
        }
    }
}

proof fn lemma_position_fits(v: CacheView)
    requires
        v.valid(),
    ensures
        v.lba() * v.sector <= u64::MAX,
{
    lemma_position(v);
}

/// Every operation keeps the cache valid and in accord with the device, and changes what is
/// visible only where it writes.
proof fn lemma_op(c: Cached, op: CacheOp)
    requires
        c.cache.valid(),
        coherent(c.cache, c.disk),
        ready(c, op),
    ensures
        after_op(c, op).cache.valid(),
        coherent(after_op(c, op).cache, after_op(c, op).disk),
        forall|i: int|
            0 <= i ==> #[trigger] visible(after_op(c, op).cache, after_op(c, op).disk, i) == if op
                is Write && c.cache.pos <= i < c.cache.pos + c.cache.span(op->Write_0.len()) {
                op->Write_0[i - c.cache.pos]
            } else {
                visible(c.cache, c.disk, i)
            },
{
    let v = c.cache;
    let after = after_op(c, op).cache;
    lemma_position_fits(v);
    match op {
        CacheOp::Seek(_) => {
            assert(after.held == v.held);
        },
        CacheOp::Read(_) => {
            assert(after.held == v.held);
        },
        CacheOp::Write(data) => {
            write_is_visible(v, c.disk, data);
            assert forall|l: u64| #[trigger] after.held.contains_key(l) implies
                after.held[l].0.len() == after.sector && l * after.sector <= u64::MAX by {
                if l != v.lba() {
                    assert(v.held.contains_key(l));
                }
            }
        },
        CacheOp::Fetch => {
            let data = device_sector(c);
            install_keeps_visible(v, c.disk, data);
            assert forall|l: u64| #[trigger] after.held.contains_key(l) implies
                after.held[l].0.len() == after.sector && l * after.sector <= u64::MAX by {
                if l != v.lba() {
                    assert(v.held.contains_key(l));
                }
            }
        },
        CacheOp::Flush(l) => {
            flush_brings_visible_to_device(v, c.disk, l);
        },
    }
}

proof fn lemma_runs(c: Cached, ops: Seq<CacheOp>)
    requires
        c.cache.valid(),
        coherent(c.cache, c.disk),
        all_ready(c, ops),
    ensures
        after_ops(c, ops).cache.valid(),
        coherent(after_ops(c, ops).cache, after_ops(c, ops).disk),
    decreases ops.len(),
{
    if ops.len() > 0 {
        lemma_op(c, ops[0]);
        lemma_runs(after_op(c, ops[0]), ops.drop_first());
    }
}

/// The last operation of a run comes after the others.
proof fn lemma_last(c: Cached, ops: Seq<CacheOp>)
    requires
        ops.len() > 0,
        all_ready(c, ops),
    ensures
        all_ready(c, ops.drop_last()),
        ready(after_ops(c, ops.drop_last()), ops.last()),
        after_ops(c, ops) == after_op(after_ops(c, ops.drop_last()), ops.last()),
    decreases ops.len(),
{
    if ops.len() > 1 {
        let next = after_op(c, ops[0]);
        let rest = ops.drop_first();
        lemma_last(next, rest);
        assert(rest.drop_last() =~= ops.drop_last().drop_first());
    } else {
        assert(ops.drop_first() =~= Seq::<CacheOp>::empty());
        assert(ops.drop_last() =~= Seq::<CacheOp>::empty());
        assert(after_ops(after_op(c, ops[0]), ops.drop_first()) == after_op(c, ops[0]));
    }
}

/// Whatever is done with the cache, a reader sees the mirror of what was written.
pub proof fn cache_never_diverges(c: Cached, ops: Seq<CacheOp>, i: int)
    requires
        c.cache.valid(),
        coherent(c.cache, c.disk),
        all_ready(c, ops),
        0 <= i,
    ensures
        visible(after_ops(c, ops).cache, after_ops(c, ops).disk, i) == mirrored(c, ops, i),
    decreases ops.len(),
{
    if ops.len() > 0 {
        lemma_last(c, ops);
        let front = ops.drop_last();
        cache_never_diverges(c, front, i);
        lemma_runs(c, front);
        lemma_op(after_ops(c, front), ops.last());
    }
}

/// Once everything has been flushed, the device itself is the mirror of what was written.
pub proof fn flushed_device_is_the_mirror(c: Cached, ops: Seq<CacheOp>, i: int)
    requires
        c.cache.valid(),
        coherent(c.cache, c.disk),
        all_ready(c, ops),
        ops.len() > 0,
        ops.last() is Flush,
        0 <= i,
    ensures
        bytes::byte_on(after_ops(c, ops).disk, i) == mirrored(c, ops, i),
{
    cache_never_diverges(c, ops, i);
    lemma_last(c, ops);
    empty_cache_shows_device(after_ops(c, ops).cache, after_ops(c, ops).disk, i);
    assert(after_ops(c, ops).cache == after_ops(c, ops).cache.emptied());
}

// ---------------------------------------------------------------------------------------
// What the device sees
// ---------------------------------------------------------------------------------------

/// A transfer moves all that was asked for, or all up to the end of the sector.
pub proof fn transfers_stop_at_the_end_of_the_sector(v: CacheView, len: nat)
    requires
        v.valid(),
    ensures
        v.span(len) <= len,
        v.pos % v.sector + v.span(len) <= v.sector,
        v.span(len) == len || v.pos % v.sector + v.span(len) == v.sector,
{
}

/// A read needs nothing where its sector is held. Otherwise a cache that holds 32 MiB of sectors
/// is flushed first, and then the one sector is fetched that the position lies in.
pub proof fn reads_fetch_their_own_sector(v: CacheView, len: nat)
    requires
        v.valid(),
        len > 0,
    ensures
        v.held.contains_key((v.pos / v.sector) as u64) ==> v.need_for_read(len) is Nothing,
        !v.held.contains_key((v.pos / v.sector) as u64) ==> {
            let crowded = v.held.dom().len() >= 33_554_432nat / v.sector && v.held.dom().len() > 0;
            &&& v.need_for_read(len) is Flush <==> crowded
            &&& !crowded ==> (v.need_for_read(len) matches CacheNeed::Fetch { offset } && offset
                <= v.pos < offset + v.sector && offset as int % v.sector as int == 0)
        },
        v.need_for_read(0) is Nothing,
{
    lemma_position(v);
    let s = v.sector as int;
    div_mod::lemma_mod_multiples_basic(v.lba() as int, s);
    assert(v.lba() * v.sector == v.lba() as int * s);
}

/// A write that replaces a whole sector never fetches it; every other one needs what a read
/// does.
pub proof fn whole_sectors_are_written_without_a_fetch(v: CacheView, len: nat)
    requires
        v.valid(),
    ensures
        v.pos % v.sector == 0 && len >= v.sector ==> !(v.need_for_write(len) is Fetch),
        v.pos % v.sector == 0 && len >= v.sector && (v.held.contains_key(
            (v.pos / v.sector) as u64,
        ) || v.held.dom().len() == 0) ==> v.need_for_write(len) is Nothing,
        !(v.pos % v.sector == 0 && len >= v.sector) ==> v.need_for_write(len)
            == v.need_for_read(len),
{
}

/// A flush writes whole sectors only, in ascending order, and neighbouring ones in one write: no
/// write starts where the one before it ends.
pub proof fn flushes_write_whole_runs(v: CacheView, l: Seq<u64>, i: int)
    requires
        v.valid(),
        v.lists_dirty(l),
        0 <= i < v.flush_writes(l).len(),
    ensures
        ({
            let w = v.flush_writes(l);
            &&& w[i].0 as int % v.sector as int == 0
            &&& w[i].1.len() as int % v.sector as int == 0
            &&& w[i].1.len() > 0
            &&& i + 1 < w.len() ==> w[i].0 + w[i].1.len() < w[i + 1].0
        }),
{
    assert forall|k: int| 0 <= k < l.len() implies v.held.contains_key(#[trigger] l[k]) by {
        assert(v.is_dirty(l[k]));
    }
    lemma_runs_apart(v, l, i);
}

proof fn lemma_runs_apart(v: CacheView, l: Seq<u64>, i: int)
    requires
        v.valid(),
        forall|a: int, b: int| 0 <= a < b < l.len() ==> l[a] < l[b],
        forall|k: int| 0 <= k < l.len() ==> v.held.contains_key(#[trigger] l[k]),
        0 <= i < v.flush_writes(l).len(),
    ensures
        ({
            let w = v.flush_writes(l);
            &&& l.len() > 0 && w[0].0 == l[0] * v.sector
            &&& w[i].0 as int % v.sector as int == 0
            &&& w[i].1.len() as int % v.sector as int == 0
            &&& w[i].1.len() > 0
            &&& i + 1 < w.len() ==> w[i].0 + w[i].1.len() < w[i + 1].0
        }),
    decreases l.len(),
{
    let w = v.flush_writes(l);
    if l.len() > 0 {
        cache::lemma_run_length(l);
        let s = v.sector as int;
        let n = cache::run_length(l) as int;
        let run = l.take(n);
        let rest = l.skip(n);
        let later = v.flush_writes(rest);
        assert(w =~= seq![(l[0] as nat * v.sector, v.sectors(run))] + later);
        lemma_sectors(v, run);
        assert forall|k: int| 0 <= k < rest.len() implies v.held.contains_key(
            #[trigger] rest[k],
        ) by {
            assert(rest[k] == l[n + k]);
        }
        if i == 0 {
            div_mod::lemma_mod_multiples_basic(l[0] as int, s);
            div_mod::lemma_mod_multiples_basic(n, s);
            assert(n * s > 0) by (nonlinear_arith)
                requires
                    n > 0,
                    s > 0,
            ;
            if w.len() > 1 {
                lemma_runs_apart(v, rest, 0);
                assert(rest[0] == l[n]);
                let (x, y) = (l[0] as int, l[n] as int);
                assert(x + n < y) by {
                    assert(l[n - 1] == l[0] + (n - 1));
                    assert(l[n - 1] < l[n]);
                }
                assert(x * s + n * s < y * s) by (nonlinear_arith)
                    requires
                        x + n < y,
                        s > 0,
                ;
            }
        } else {
            lemma_runs_apart(v, rest, i - 1);
        }
    }
}

} // verus!
