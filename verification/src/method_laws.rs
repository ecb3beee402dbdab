//! What the methods that change a value do to it.

use vstd::arithmetic::div_mod;
use vstd::prelude::*;

use crate::bytes;
use crate::bytes::DiskWrite;
use crate::cache::SectorCache;
use crate::fields;
use crate::partition::{Partition, Transfer};
use crate::position::{SeekError, SeekTo};
use crate::tree;
use crate::tree::{EntryKind, OpenStep};
use crate::walk::{BootStep, BootWalk, CopyStep, ScanStep, TreeWalk};
use crate::writer::{DdSession, DdStep};

verus! {

// ---------------------------------------------------------------------------------------
// Windows
// ---------------------------------------------------------------------------------------

/// A window transfers what it has left, from where it stands, and nothing at its end.
pub proof fn windows_transfer_what_is_left(
    base: u64,
    len: u64,
    fresh: Partition,
    p: Partition,
    want: usize,
    r: Option<Transfer>,
    w: Option<Transfer>,
)
    requires
        call_ensures(Partition::new, (base, len), fresh),
        call_ensures(Partition::read, (&p, want), r),
        call_ensures(Partition::write, (&p, want), w),
    ensures
        fresh@.base == base && fresh@.len == len && fresh@.pos == 0,
        r is None <==> p@.pos >= p@.len,
        w is None <==> p@.pos >= p@.len,
        r matches Some(t) ==> t.offset == p@.base + p@.pos && t.count <= want && p@.pos + t.count
            <= p@.len && (t.count < want ==> p@.pos + t.count == p@.len),
        w matches Some(t) ==> t.offset == p@.base + p@.pos && t.count <= want && p@.pos + t.count
            <= p@.len && (t.count < want ==> p@.pos + t.count == p@.len),
{
}

/// A window moves on by what was transferred and stays where it is on the device.
pub proof fn windows_move_by_what_was_transferred(p: &mut Partition, n: usize)
    requires
        call_ensures(Partition::advance, (p, n), ()),
    ensures
        final(p)@.pos == old(p)@.pos + n,
        final(p)@.base == old(p)@.base,
        final(p)@.len == old(p)@.len,
{
}

/// Seeking moves the position alone: to where it says, or not at all where that lies before the
/// start.
pub proof fn windows_seek_inside_themselves(
    p: &mut Partition,
    x: u64,
    d: i64,
    q: &mut Partition,
    t: &mut Partition,
    a: Result<u64, SeekError>,
    b: Result<u64, SeekError>,
    c: Result<u64, SeekError>,
)
    requires
        call_ensures(Partition::seek, (p, SeekTo::Start(x)), a),
        call_ensures(Partition::seek, (q, SeekTo::End(d)), b),
        call_ensures(Partition::seek, (t, SeekTo::Current(d)), c),
        x < 0x8000_0000_0000_0000,
        old(q)@.len < 0x8000_0000_0000_0000,
        old(t)@.pos < 0x8000_0000_0000_0000,
    ensures
        a matches Ok(n) && n == x,
        final(p)@.pos == x,
        final(p)@.base == old(p)@.base && final(p)@.len == old(p)@.len,
        old(q)@.len + d >= 0 ==> (b matches Ok(n) && n == old(q)@.len + d) && final(q)@.pos
            == old(q)@.len + d,
        old(q)@.len + d < 0 ==> b is Err && final(q)@ == old(q)@,
        final(q)@.base == old(q)@.base && final(q)@.len == old(q)@.len,
        old(t)@.pos + d >= 0 ==> (c matches Ok(n) && n == old(t)@.pos + d) && final(t)@.pos
            == old(t)@.pos + d,
        old(t)@.pos + d < 0 ==> c is Err && final(t)@ == old(t)@,
        final(t)@.base == old(t)@.base && final(t)@.len == old(t)@.len,
{
}

// ---------------------------------------------------------------------------------------
// The cache
// ---------------------------------------------------------------------------------------

/// A new cache holds nothing and stands at the start; it may hold 32 MiB.
pub proof fn new_caches_are_empty(sector: usize, c: SectorCache)
    requires
        sector > 0,
        call_ensures(SectorCache::new, (sector,), c),
    ensures
        c@.sector == sector,
        c@.pos == 0,
        forall|b: u64| !#[trigger] c@.held.contains_key(b),
        c@.cap * sector <= 33_554_432 < (c@.cap + 1) * sector,
{
    div_mod::lemma_fundamental_div_mod(33_554_432, sector as int);
    let (q, s) = (c@.cap as int, sector as int);
    assert(q * s <= 33_554_432 < (q + 1) * s) by (nonlinear_arith)
        requires
            33_554_432 == s * q + 33_554_432int % s,
            0 <= 33_554_432int % s < s,
    ;
}

/// What was written is read back from where it was written, as far as it was taken: up to the end
/// of the sector.
pub proof fn written_bytes_are_read_back(
    c: &mut SectorCache,
    data: &[u8],
    n: usize,
    d: &mut SectorCache,
    sought: Result<u64, SeekError>,
    e: &mut SectorCache,
    out: &mut [u8],
    m: usize,
)
    requires
        old(c)@.valid(),
        old(c)@.pos < 0x8000_0000_0000_0000,
        call_ensures(SectorCache::write, (c, data), n),
        *old(d) == *final(c),
        call_ensures(SectorCache::seek, (d, SeekTo::Start(old(c)@.pos as u64)), sought),
        *old(e) == *final(d),
        call_ensures(SectorCache::read, (e, out), m),
        old(out)@.len() == data@.len(),
        data@.len() > 0,
    ensures
        m == n,
        0 < n <= data@.len(),
        n < data@.len() ==> (old(c)@.pos + n) % old(c)@.sector as int == 0,
        final(out)@.take(n as int) == data@.take(n as int),
        final(out)@.skip(n as int) == old(out)@.skip(n as int),
        sought == Ok::<u64, SeekError>(old(c)@.pos as u64),
        final(e)@.pos == old(c)@.pos + n,
{
    let v = old(c)@;
    let w = old(e)@;
    let at = v.inner() as int;
    assert(w.pos == v.pos && w.sector == v.sector);
    assert(w.held == final(c)@.held);
    assert(0 <= at < v.sector);
    if n < data@.len() {
        let (p, s) = (v.pos as int, v.sector as int);
        assert(n == s - at);
        div_mod::lemma_fundamental_div_mod(p, s);
        let q = p / s;
        assert(p + n == (q + 1) * s) by (nonlinear_arith)
            requires
                p == s * q + at,
                n == s - at,
        ;
        div_mod::lemma_mod_multiples_basic(q + 1, s);
    }
    assert(final(out)@.take(n as int) =~= data@.take(n as int));
    assert(final(out)@.skip(n as int) =~= old(out)@.skip(n as int));
}

/// A cache seeks from the start and from where it stands; it does not know the end.
pub proof fn caches_do_not_know_the_end(
    c: &mut SectorCache,
    d: &mut SectorCache,
    x: i64,
    a: Result<u64, SeekError>,
    b: Result<u64, SeekError>,
)
    requires
        call_ensures(SectorCache::seek, (c, SeekTo::End(x)), a),
        call_ensures(SectorCache::seek, (d, SeekTo::Current(x)), b),
        old(d)@.pos < 0x8000_0000_0000_0000,
    ensures
        a == Err::<u64, SeekError>(SeekError::EndUnsupported),
        final(c)@ == old(c)@,
        old(d)@.pos + x >= 0 ==> (b matches Ok(n) && n == old(d)@.pos + x) && final(d)@.pos
            == old(d)@.pos + x,
        old(d)@.pos + x < 0 ==> b == Err::<u64, SeekError>(SeekError::Negative) && final(d)@.pos
            == old(d)@.pos,
        final(d)@.held == old(d)@.held,
        final(d)@.sector == old(d)@.sector,
{
}

/// A sector that was fetched holds the bytes of the device and need not be written back. Only
/// sectors that were written to need be, and after a flush none does.
pub proof fn fetched_sectors_need_not_be_written(
    c: &mut SectorCache,
    data: &[u8],
    d: &mut SectorCache,
    b: u64,
    i: int,
)
    requires
        old(c)@.valid(),
        call_ensures(SectorCache::install, (c, data), ()),
        call_ensures(SectorCache::flushed, (d,), ()),
    ensures
        final(c)@.pos == old(c)@.pos,
        final(c)@.is_dirty(b) ==> old(c)@.is_dirty(b),
        old(c)@.is_dirty(b) && b != old(c)@.pos / old(c)@.sector ==> final(c)@.is_dirty(b),
        0 <= i < old(c)@.sector && i < data@.len() ==> final(c)@.held[(old(c)@.pos
            / old(c)@.sector) as u64].0[i] == data@[i],
        data@.len() <= i < old(c)@.sector ==> final(c)@.held[(old(c)@.pos / old(c)@.sector) as u64].0[i]
            == 0,
        !final(d)@.held.contains_key(b),
        final(d)@.pos == old(d)@.pos,
        final(d)@.sector == old(d)@.sector,
{
}

/// A flush brings every sector that was written to its place on the device, and changes nothing
/// else there.
pub proof fn flushes_write_what_was_written(
    c: SectorCache,
    w: Vec<DiskWrite>,
    dirty: bool,
    disk: Seq<u8>,
    i: int,
)
    requires
        c@.valid(),
        call_ensures(SectorCache::flush_plan, (&c,), w),
        0 <= i,
    ensures
        ({
            let d = bytes::after_writes(disk, bytes::write_views(w@));
            let b = (i / c@.sector as int) as u64;
            if i / c@.sector as int <= u64::MAX && c@.is_dirty(b) {
                bytes::byte_on(d, i) == c@.held[b].0[i % c@.sector as int]
            } else {
                bytes::byte_on(d, i) == bytes::byte_on(disk, i)
            }
        }),
{
    let l = choose|l: Seq<u64>|
        c@.lists_dirty(l) && bytes::write_views(w@) == c@.flush_writes(l);
    crate::cache_laws::flush_brings_written_sectors(c@, disk, l, i);
}

// ---------------------------------------------------------------------------------------
// Writing images
// ---------------------------------------------------------------------------------------

/// A session starts with blocks of the size that was asked for, rounded up to whole sectors, and
/// with nothing written.
pub proof fn sessions_start_with_whole_sectors(
    block_size: usize,
    sector: usize,
    d: DdSession,
    block: usize,
    buffer: usize,
    bytes: u64,
    blocks: u64,
)
    requires
        sector > 0,
        call_ensures(DdSession::new, (block_size, sector), d),
        call_ensures(DdSession::block_len, (&d,), block),
        call_ensures(DdSession::buffer_len, (&d,), buffer),
        call_ensures(DdSession::bytes_written, (&d,), bytes),
        call_ensures(DdSession::blocks_written, (&d,), blocks),
    ensures
        block_size <= block < block_size + sector,
        block % sector == 0,
        buffer == block + sector,
        bytes == 0,
        blocks == 0,
{
    lemma_padded(block_size as nat, sector as nat);
}

proof fn lemma_padded(n: nat, sector: nat)
    requires
        sector > 0,
    ensures
        n <= crate::align::padded_len(n, sector) < n + sector,
        crate::align::padded_len(n, sector) as int % sector as int == 0,
{
    let s = sector as int;
    let m = n + s - 1;
    div_mod::lemma_fundamental_div_mod(m, s);
    div_mod::lemma_mod_multiples_basic(m / s, s);
    let q = m / s;
    assert(n <= q * s < n + s) by (nonlinear_arith)
        requires
            m == s * q + m % s,
            0 <= m % s < s,
            m == n + s - 1,
    ;
}

/// Each turn writes the bytes that were read, filled up with zeros to whole sectors, and counts
/// the bytes of the source alone; a turn without bytes is the last one.
pub proof fn turns_write_what_was_read(
    d: &mut DdSession,
    buffer: &mut [u8],
    n: usize,
    s: DdStep,
    i: int,
)
    requires
        old(d).wf(),
        old(buffer)@.len() == old(d)@.block + old(d)@.sector,
        n <= old(d)@.block,
        call_ensures(DdSession::write, (d, buffer, n), s),
        0 <= i < old(buffer)@.len(),
    ensures
        s is Finish <==> n == 0,
        s matches DdStep::Write { len } ==> {
            &&& n <= len < n + old(d)@.sector
            &&& len as int % old(d)@.sector as int == 0
            &&& n <= i < len ==> final(buffer)@[i] == 0
        },
        i < n ==> final(buffer)@[i] == old(buffer)@[i],
        final(d)@.bytes_written == old(d)@.bytes_written + n,
        final(d)@.blocks_written == old(d)@.blocks_written + if n > 0 {
            1int
        } else {
            0
        },
        final(d)@.sector == old(d)@.sector,
        final(d)@.block == old(d)@.block,
{
    lemma_padded(n as nat, old(d)@.sector);
}

// ---------------------------------------------------------------------------------------
// Walks
// ---------------------------------------------------------------------------------------

/// A walk begins at its root, and each directory that it enters is the next one that it reads.
pub proof fn walks_read_what_they_entered(
    w: TreeWalk,
    first: &mut TreeWalk,
    root: Option<u64>,
    scan: &mut TreeWalk,
    kind: EntryKind,
    a: ScanStep,
    next: &mut TreeWalk,
    b: Option<u64>,
)
    requires
        call_ensures(TreeWalk::new, (), w),
        *old(first) == w,
        call_ensures(TreeWalk::next_dir, (first,), root),
        old(scan)@.found < u64::MAX,
        call_ensures(TreeWalk::scan_entry, (scan, kind), a),
        *old(next) == *final(scan),
        call_ensures(TreeWalk::next_dir, (next,), b),
    ensures
        root == Some(0u64),
        final(first)@.pending.len() == 0,
        a is Enter <==> kind is Directory,
        a is Ignore <==> kind is Unknown,
        a matches ScanStep::Enter { dir } ==> b == Some(dir) && dir == old(scan)@.found,
        final(next)@.pending.len() == if kind is Directory || old(scan)@.pending.len() == 0 {
            old(scan)@.pending.len() as int
        } else {
            old(scan)@.pending.len() - 1
        },
{
}

/// Copying enters directories, copies files and counts the links to directories that it leaves
/// out.
pub proof fn copying_counts_what_it_leaves_out(
    w: &mut TreeWalk,
    kind: EntryKind,
    leads: bool,
    depth: usize,
    s: CopyStep,
    v: &mut TreeWalk,
    opened: bool,
    target: Option<bool>,
    o: OpenStep,
    count: u64,
)
    requires
        old(w)@.found < u64::MAX,
        depth > 0,
        call_ensures(TreeWalk::copy_entry, (w, kind, leads, depth), s),
        call_ensures(TreeWalk::after_open, (v, opened, target), o),
        call_ensures(TreeWalk::skipped, (&*final(v),), count),
    ensures
        kind is Directory <==> s is Enter,
        kind is Unknown <==> s is Ignore,
        kind is Symlink && leads <==> s is SkipLinkedDirectory,
        kind is File || (kind is Symlink && !leads) <==> s is Copy,
        s matches CopyStep::Enter { dir } ==> dir == old(w)@.found && final(w)@.pending
            == old(w)@.pending.push(dir as nat),
        final(w)@.skipped == old(w)@.skipped + if s is SkipLinkedDirectory {
            1int
        } else {
            0
        },
        o is Skip <==> !opened && target == Some(false),
        o is TryTarget <==> !opened && target is None,
        count == old(v)@.skipped + if o is Skip {
            1int
        } else {
            0
        },
        final(v)@.pending == old(v)@.pending,
{
}

/// In the embedded image directories are entered and files stored under the path of the
/// directories around them; the entries `.` and `..` are neither. A boot loader that was stored is
/// remembered.
pub proof fn embedded_files_keep_their_path(
    w: &mut BootWalk,
    name: String,
    is_dir: bool,
    s: BootStep,
    fresh: BootWalk,
    found: bool,
)
    requires
        call_ensures(BootWalk::entry, (w, name, is_dir), s),
        call_ensures(BootWalk::new, (), fresh),
        call_ensures(BootWalk::found_boot, (&*final(w),), found),
    ensures
        fresh@.prefix.len() == 0 && !fresh@.found_boot,
        s is Ignore <==> name@ == seq!['.'] || name@ == seq!['.', '.'],
        s is Enter ==> is_dir && final(w)@.prefix == old(w)@.prefix.push(name@),
        s matches BootStep::Store { path } ==> !is_dir && fields::texts(path@)
            == old(w)@.prefix.push(name@),
        !(s is Enter) ==> final(w)@.prefix == old(w)@.prefix,
        found <==> old(w)@.found_boot || (s matches BootStep::Store { path } && tree::is_loader(
            fields::texts(path@),
        )),
{
    reveal_strlit(".");
    reveal_strlit("..");
    assert("."@ =~= seq!['.']);
    assert(".."@ =~= seq!['.', '.']);
}

/// Leaving a directory leads back to the one around it.
pub proof fn leaving_leads_back(w: &mut BootWalk, name: String, s: BootStep, v: &mut BootWalk)
    requires
        call_ensures(BootWalk::entry, (w, name, true), s),
        s is Enter,
        *old(v) == *final(w),
        call_ensures(BootWalk::leave, (v,), ()),
    ensures
        final(v)@.prefix == old(w)@.prefix,
        final(v)@.found_boot == old(w)@.found_boot,
{
    assert(old(w)@.prefix.push(name@).drop_last() =~= old(w)@.prefix);
}

} // verus!
