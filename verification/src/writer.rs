//! Writing an image to a device byte for byte, in blocks that are whole sectors.

use vstd::arithmetic::power2;
use vstd::prelude::*;

use crate::align;
use crate::bytes;
use crate::human;

verus! {

// ---------------------------------------------------------------------------------------
// Reading a whole block
// ---------------------------------------------------------------------------------------

/// What an attempt to read came back with.
#[derive(Debug, Clone, Copy, PartialEq, Eq, Structural)]
pub enum ReadEvent {
    /// This many bytes; none at the end of the source.
    Got(usize),
    /// A signal got in between; nothing was read.
    Interrupted,
    Failed,
}

#[derive(Debug, Clone, Copy, PartialEq, Eq, Structural)]
pub enum FillStep {
    /// Read on, behind the bytes that are there.
    More { got: usize },
    /// The block is as full as it gets.
    Done { got: usize },
    /// The last attempt failed.
    Fail,
}

/// Where reading stands with `got` of `want` bytes.
pub open spec fn fill_state(want: nat, got: nat) -> FillStep {
    if got < want {
        FillStep::More { got: got as usize }
    } else {
        FillStep::Done { got: got as usize }
    }
}

pub open spec fn fill_next(want: nat, got: nat, event: ReadEvent) -> FillStep {
    match event {
        ReadEvent::Got(k) => if k == 0 {
            FillStep::Done { got: got as usize }
        } else {
            fill_state(want, got + k as nat)
        },
        ReadEvent::Interrupted => FillStep::More { got: got as usize },
        ReadEvent::Failed => FillStep::Fail,
    }
}

/// What to do about a block of `want` bytes before anything was read.
pub fn fill_start(want: usize) -> (s: FillStep)
    ensures
        s == fill_state(want as nat, 0),
{
    if want > 0 {
        FillStep::More { got: 0 }
    } else {
        FillStep::Done { got: 0 }
    }
}

/// What to do after an attempt to read the rest of a block of `want` bytes, of which `got` are
/// there: short reads and interruptions are no reason to stop, only the end of the source is.
pub fn read_full(want: usize, got: usize, event: ReadEvent) -> (s: FillStep)
    requires
        got < want,
        event matches ReadEvent::Got(k) ==> k <= want - got,
    ensures
        s == fill_next(want as nat, got as nat, event),
{
    match event {
        ReadEvent::Got(k) => if k == 0 || k == want - got {
            FillStep::Done { got: got + k }
        } else {
            FillStep::More { got: got + k }
        },
        ReadEvent::Interrupted => FillStep::More { got },
        ReadEvent::Failed => FillStep::Fail,
    }
}

/// Where reading stands after the given attempts.
pub open spec fn fill_outcome(want: nat, at: FillStep, events: Seq<ReadEvent>) -> FillStep
    decreases events.len(),
{
    match at {
        FillStep::More { got } => if events.len() == 0 {
            at
        } else {
            fill_outcome(want, fill_next(want, got as nat, events[0]), events.drop_first())
        },
        _ => at,
    }
}

/// The attempts are those on a source with `left` bytes: each gives what was asked for at most,
/// and nothing only at the end.
pub open spec fn from_source(want: nat, got: nat, left: nat, events: Seq<ReadEvent>) -> bool
    decreases events.len(),
{
    events.len() == 0 || match events[0] {
        ReadEvent::Got(k) => {
            &&& k <= left
            &&& k <= want - got
            &&& k == 0 ==> left == 0 || want == got
            &&& from_source(want, got + k as nat, (left - k) as nat, events.drop_first())
        },
        _ => from_source(want, got, left, events.drop_first()),
    }
}

/// A block that was read is full, or holds all that was left of the source.
pub proof fn blocks_are_full_until_the_end(
    want: usize,
    got: usize,
    left: nat,
    events: Seq<ReadEvent>,
    n: usize,
)
    requires
        got <= want,
        from_source(want as nat, got as nat, left, events),
        fill_outcome(want as nat, fill_state(want as nat, got as nat), events) == (
        FillStep::Done { got: n }),
    ensures
        n - got == chunk_len(left, (want - got) as nat),
    decreases events.len(),
{
    reveal_with_fuel(fill_outcome, 2);
    if got < want {
        match events[0] {
            ReadEvent::Got(k) => {
                if k > 0 {
                    blocks_are_full_until_the_end(
                        want,
                        (got + k) as usize,
                        (left - k) as nat,
                        events.drop_first(),
                        n,
                    );
                }
            },
            ReadEvent::Interrupted => {
                blocks_are_full_until_the_end(want, got, left, events.drop_first(), n);
            },
            ReadEvent::Failed => {},
        }
    }
}

// ---------------------------------------------------------------------------------------
// Writing blocks
// ---------------------------------------------------------------------------------------

/// A run that writes an image block by block.
pub struct DdSession {
    sector: usize,
    block: usize,
    bytes_written: u64,
    blocks_written: u64,
}

pub struct DdView {
    pub sector: nat,
    /// The size of a block: a whole number of sectors.
    pub block: nat,
    pub bytes_written: nat,
    pub blocks_written: nat,
}

#[derive(Debug, Clone, Copy, PartialEq, Eq, Structural)]
pub enum DdStep {
    /// Nothing is left to write.
    Finish,
    /// Write the first `len` bytes of the buffer.
    Write { len: usize },
}

/// One turn of a run: what the session and the buffer were once the next bytes of the source had
/// been read into it, how many those were, and what came of it.
pub struct DdTurn {
    pub before: DdView,
    pub buffer: Seq<u8>,
    pub bytes_read: nat,
    pub step: DdStep,
    pub after: DdView,
    pub buffer_after: Seq<u8>,
}

impl DdTurn {
    /// Without any bytes the run is at its end. Others are filled up with zeros to whole
    /// sectors, which are then to be written, and are counted.
    pub open spec fn done(self) -> bool {
        let len = align::padded_len(self.bytes_read, self.before.sector);
        if self.bytes_read == 0 {
            &&& self.step is Finish
            &&& self.after == self.before
            &&& self.buffer_after == self.buffer
        } else {
            &&& self.step == (DdStep::Write { len: len as usize })
            &&& self.bytes_read <= len <= self.before.block
            &&& self.buffer_after == self.buffer.take(self.bytes_read as int) + bytes::zeros(
                (len - self.bytes_read) as nat,
            ) + self.buffer.skip(len as int)
            &&& self.buffer_after.take(len as int) == padded_block(
                self.buffer.take(self.bytes_read as int),
                self.before.sector,
            )
            &&& self.after == (DdView {
                bytes_written: self.before.bytes_written + self.bytes_read,
                blocks_written: self.before.blocks_written + 1,
                ..self.before
            })
        }
    }
}

impl View for DdSession {
    type V = DdView;

    closed spec fn view(&self) -> DdView {
        DdView {
            sector: self.sector as nat,
            block: self.block as nat,
            bytes_written: self.bytes_written as nat,
            blocks_written: self.blocks_written as nat,
        }
    }
}

impl DdSession {
    pub open spec fn wf(&self) -> bool {
        &&& power2::is_pow2(self@.sector as int)
        &&& 0 < self@.sector
        &&& 0 < self@.block
        &&& self@.block % self@.sector == 0
        &&& self@.block + self@.sector <= usize::MAX
        &&& self@.bytes_written <= u64::MAX
        &&& self@.blocks_written <= self@.bytes_written
    }

    /// A run with blocks of `block_size` bytes, rounded up to whole sectors.
    pub fn new(block_size: usize, sector: usize) -> (d: DdSession)
        requires
            block_size > 0,
            power2::is_pow2(sector as int),
            block_size + 2 * sector <= usize::MAX,
        ensures
            d.wf(),
            d@ == new_session(block_size as nat, sector as nat),
    {
        reveal(power2::is_pow2);
        let block: usize = align::round_up(block_size, sector);
        proof {
            align::rounded_is_padded_len(block_size, sector);
        }
        DdSession { sector, block, bytes_written: 0, blocks_written: 0 }
    }

    /// How many bytes to read for each block.
    pub fn block_len(&self) -> (n: usize)
        ensures
            n == self@.block,
    {
        self.block
    }

    /// How large the buffer has to be: a block, and a sector of room for padding.
    pub fn buffer_len(&self) -> (n: usize)
        requires
            self.wf(),
        ensures
            n == self@.block + self@.sector,
    {
        self.block + self.sector
    }

    pub fn bytes_written(&self) -> (n: u64)
        ensures
            n == self@.bytes_written,
    {
        self.bytes_written
    }

    pub fn blocks_written(&self) -> (n: u64)
        ensures
            n == self@.blocks_written,
    {
        self.blocks_written
    }

    /// What to write once `bytes_read` bytes of the source stand at the start of the buffer: they
    /// are filled up with zeros to whole sectors.
    pub fn write(&mut self, buffer: &mut [u8], bytes_read: usize) -> (s: DdStep)
        requires
            old(self).wf(),
            old(buffer)@.len() == old(self)@.block + old(self)@.sector,
            bytes_read <= old(self)@.block,
            old(self)@.bytes_written + bytes_read <= u64::MAX,
        ensures
            final(self).wf(),
            (DdTurn {
                before: old(self)@,
                buffer: old(buffer)@,
                bytes_read: bytes_read as nat,
                step: s,
                after: final(self)@,
                buffer_after: final(buffer)@,
            }).done(),
    {
        if bytes_read == 0 {
            return DdStep::Finish;
        }
        let len: usize = align::round_up(bytes_read, self.sector);
        proof {
            align::rounded_is_padded_len(bytes_read, self.sector);
            align::rounded_is_least_multiple(bytes_read, self.sector, self.block as int);
        }
        let ghost before = buffer@;
        for i in bytes_read..len
            invariant
                bytes_read <= len <= before.len() == buffer@.len(),
                buffer@ == before.take(bytes_read as int) + bytes::zeros((i - bytes_read) as nat)
                    + before.skip(i as int),
        {
            buffer[i] = 0;
            assert(buffer@ =~= before.take(bytes_read as int) + bytes::zeros(
                (i + 1 - bytes_read) as nat,
            ) + before.skip(i + 1));
        }
        assert(buffer@ =~= before.take(bytes_read as int) + bytes::zeros(
            (len - bytes_read) as nat,
        ) + before.skip(len as int));
        assert(buffer@.take(len as int) =~= padded_block(
            before.take(bytes_read as int),
            self.sector as nat,
        ));
        self.bytes_written = self.bytes_written + bytes_read as u64;
        self.blocks_written = self.blocks_written + 1;
        DdStep::Write { len }
    }
}

/// The lines that sum up a run.
pub open spec fn summary_text(written: u64, seconds: Seq<char>, per_second: u64) -> Seq<char> {
    "\n  Written : "@ + human::human(written as nat) + "\n  Time    : "@ + seconds
        + "s\n  Speed   : "@ + human::human(per_second as nat) + "/s\n"@
}

pub fn summary(written: u64, seconds: &str, per_second: u64) -> (r: String)
    ensures
        r@ == summary_text(written, seconds@, per_second),
{
    let mut s = "\n  Written : ".to_owned();
    s.append(human::human_bytes(written).as_str());
    s.append("\n  Time    : ");
    s.append(seconds);
    s.append("s\n  Speed   : ");
    s.append(human::human_bytes(per_second).as_str());
    s.append("/s\n");
    assert(s@ =~= summary_text(written, seconds@, per_second));
    s
}

// ---------------------------------------------------------------------------------------
// What ends up on the device
// ---------------------------------------------------------------------------------------

/// A block as it is written: filled up with zeros to whole sectors.
pub open spec fn padded_block(chunk: Seq<u8>, sector: nat) -> Seq<u8> {
    chunk + bytes::zeros((align::padded_len(chunk.len(), sector) - chunk.len()) as nat)
}

pub open spec fn chunk_len(left: nat, block: nat) -> nat {
    if left <= block {
        left
    } else {
        block
    }
}

/// The writes of a run: the source in blocks, one behind the other from `at` on.
pub open spec fn dd_writes(src: Seq<u8>, at: nat, block: nat, sector: nat) -> Seq<(nat, Seq<u8>)>
    decreases src.len(),
{
    if src.len() == 0 || block == 0 {
        Seq::empty()
    } else {
        let n = chunk_len(src.len(), block);
        let b = padded_block(src.take(n as int), sector);
        seq![(at, b)] + dd_writes(src.skip(n as int), at + b.len(), block, sector)
    }
}

/// The image arrives byte for byte: from the offset on the device holds the source, then zeros
/// up to the end of the last sector written, and everywhere else what it held before.
pub proof fn image_arrives_byte_for_byte(
    disk: Seq<u8>,
    src: Seq<u8>,
    at: nat,
    block: nat,
    sector: nat,
    i: int,
)
    requires
        sector > 0,
        block > 0,
        block % sector == 0,
        0 <= i,
    ensures
        bytes::byte_on(bytes::after_writes(disk, dd_writes(src, at, block, sector)), i) == if at
            <= i < at + src.len() {
            src[i - at]
        } else if at + src.len() <= i < at + align::padded_len(src.len(), sector) {
            0
        } else {
            bytes::byte_on(disk, i)
        },
    decreases src.len(),
{
    align::lemma_padded_len(src.len(), sector);
    if src.len() > 0 {
        let n = chunk_len(src.len(), block);
        let chunk = src.take(n as int);
        let rest = src.skip(n as int);
        let b = padded_block(chunk, sector);
        align::lemma_padded_len(n, sector);
        bytes::first_write_first(disk, (at, b), dd_writes(rest, at + b.len(), block, sector));
        image_arrives_byte_for_byte(
            bytes::after_write(disk, (at, b)),
            rest,
            at + b.len(),
            block,
            sector,
            i,
        );
        bytes::read_after_write(disk, (at, b), i);
        if n < src.len() {
            lemma_padded_sum(block, rest.len(), sector);
        } else {
            align::lemma_padded_len(0, sector);
        }
    }
}

/// The turns are a whole run of a session that starts out as `start` and is fed `src`: each turn
/// reads a block, or what is left of the source, and the run ends where nothing was left.
pub open spec fn is_run(start: DdView, src: Seq<u8>, turns: Seq<DdTurn>) -> bool
    decreases turns.len(),
{
    let n = chunk_len(src.len(), start.block);
    &&& turns.len() > 0
    &&& turns[0].before == start
    &&& turns[0].buffer.len() == start.block + start.sector
    &&& turns[0].bytes_read == n
    &&& turns[0].buffer.take(n as int) == src.take(n as int)
    &&& turns[0].done()
    &&& if turns[0].step is Finish {
        turns.len() == 1
    } else {
        is_run(turns[0].after, src.skip(n as int), turns.drop_first())
    }
}

/// What the turns write, one behind the other from `at` on.
pub open spec fn writes_of(turns: Seq<DdTurn>, at: nat) -> Seq<(nat, Seq<u8>)>
    decreases turns.len(),
{
    if turns.len() == 0 {
        Seq::empty()
    } else {
        match turns[0].step {
            DdStep::Finish => Seq::empty(),
            DdStep::Write { len } => seq![(at, turns[0].buffer_after.take(len as int))]
                + writes_of(turns.drop_first(), at + len as nat),
        }
    }
}

/// What `DdSession::new` gives.
pub open spec fn new_session(block_size: nat, sector: nat) -> DdView {
    DdView {
        sector,
        block: align::padded_len(block_size, sector),
        bytes_written: 0,
        blocks_written: 0,
    }
}

/// A whole run makes the writes of the image and no others, and counts the bytes of the source
/// and the blocks.
pub proof fn runs_write_the_image(
    block_size: usize,
    sector: usize,
    src: Seq<u8>,
    at: nat,
    turns: Seq<DdTurn>,
)
    requires
        block_size > 0,
        sector > 0,
        block_size + 2 * sector <= usize::MAX,
        is_run(new_session(block_size as nat, sector as nat), src, turns),
    ensures
        writes_of(turns, at) == dd_writes(
            src,
            at,
            align::padded_len(block_size as nat, sector as nat),
            sector as nat,
        ),
        turns.last().after.bytes_written == src.len(),
        turns.last().after.blocks_written == writes_of(turns, at).len(),
{
    align::lemma_padded_len(block_size as nat, sector as nat);
    lemma_run(new_session(block_size as nat, sector as nat), src, at, turns);
}

proof fn lemma_run(start: DdView, src: Seq<u8>, at: nat, turns: Seq<DdTurn>)
    requires
        start.sector > 0,
        start.block > 0,
        start.block <= usize::MAX,
        is_run(start, src, turns),
    ensures
        writes_of(turns, at) == dd_writes(src, at, start.block, start.sector),
        turns.last().after.bytes_written == start.bytes_written + src.len(),
        turns.last().after.blocks_written == start.blocks_written + writes_of(turns, at).len(),
    decreases turns.len(),
{
    reveal_with_fuel(is_run, 2);
    let (t, n) = (turns[0], chunk_len(src.len(), start.block));
    if n > 0 {
        let b = padded_block(src.take(n as int), start.sector);
        align::lemma_padded_len(n, start.sector);
        assert(t.step->len == b.len());
        lemma_run(t.after, src.skip(n as int), at + b.len(), turns.drop_first());
        assert(turns.drop_first().last() == turns.last());
    }
}

/// After a whole run the device holds the source from the offset on, then zeros up to the end of
/// the last sector written, and everywhere else what it held before.
pub proof fn runs_leave_the_image(
    disk: Seq<u8>,
    block_size: usize,
    sector: usize,
    src: Seq<u8>,
    at: nat,
    turns: Seq<DdTurn>,
    i: int,
)
    requires
        block_size > 0,
        sector > 0,
        block_size + 2 * sector <= usize::MAX,
        is_run(new_session(block_size as nat, sector as nat), src, turns),
        0 <= i,
    ensures
        bytes::byte_on(bytes::after_writes(disk, writes_of(turns, at)), i) == if at <= i < at
            + src.len() {
            src[i - at]
        } else if at + src.len() <= i < at + align::padded_len(src.len(), sector as nat) {
            0
        } else {
            bytes::byte_on(disk, i)
        },
{
    let block = align::padded_len(block_size as nat, sector as nat);
    align::lemma_padded_len(block_size as nat, sector as nat);
    runs_write_the_image(block_size, sector, src, at, turns);
    image_arrives_byte_for_byte(disk, src, at, block, sector as nat, i);
}

/// The block size has no influence on what the device holds in the end.
pub proof fn block_sizes_have_no_influence(
    disk: Seq<u8>,
    sizes: (usize, usize),
    sector: usize,
    src: Seq<u8>,
    at: nat,
    turns: (Seq<DdTurn>, Seq<DdTurn>),
)
    requires
        sizes.0 > 0,
        sizes.1 > 0,
        sector > 0,
        sizes.0 + 2 * sector <= usize::MAX,
        sizes.1 + 2 * sector <= usize::MAX,
        is_run(new_session(sizes.0 as nat, sector as nat), src, turns.0),
        is_run(new_session(sizes.1 as nat, sector as nat), src, turns.1),
    ensures
        bytes::after_writes(disk, writes_of(turns.0, at)) == bytes::after_writes(
            disk,
            writes_of(turns.1, at),
        ),
{
    let (s, t) = (writes_of(turns.0, at), writes_of(turns.1, at));
    let (x, y) = (bytes::after_writes(disk, s), bytes::after_writes(disk, t));
    align::lemma_padded_len(sizes.0 as nat, sector as nat);
    align::lemma_padded_len(sizes.1 as nat, sector as nat);
    runs_write_the_image(sizes.0, sector, src, at, turns.0);
    runs_write_the_image(sizes.1, sector, src, at, turns.1);
    let (a, b) = (
        align::padded_len(sizes.0 as nat, sector as nat),
        align::padded_len(sizes.1 as nat, sector as nat),
    );
    lemma_device_len(disk, src, at, a, sector as nat);
    lemma_device_len(disk, src, at, b, sector as nat);
    assert forall|i: int| 0 <= i < x.len() implies x[i] == y[i] by {
        runs_leave_the_image(disk, sizes.0, sector, src, at, turns.0, i);
        runs_leave_the_image(disk, sizes.1, sector, src, at, turns.1, i);
        assert(bytes::byte_on(x, i) == bytes::byte_on(y, i));
    }
    assert(x =~= y);
}

/// A run makes the device no longer than the padded image reaches.
proof fn lemma_device_len(disk: Seq<u8>, src: Seq<u8>, at: nat, block: nat, sector: nat)
    requires
        sector > 0,
        block > 0,
        block % sector == 0,
    ensures
        bytes::after_writes(disk, dd_writes(src, at, block, sector)).len() == if src.len() > 0
            && at + align::padded_len(src.len(), sector) > disk.len() {
            at + align::padded_len(src.len(), sector)
        } else {
            disk.len()
        },
    decreases src.len(),
{
    align::lemma_padded_len(src.len(), sector);
    if src.len() > 0 {
        let n = chunk_len(src.len(), block);
        let rest = src.skip(n as int);
        let b = padded_block(src.take(n as int), sector);
        align::lemma_padded_len(n, sector);
        bytes::first_write_first(disk, (at, b), dd_writes(rest, at + b.len(), block, sector));
        lemma_device_len(bytes::after_write(disk, (at, b)), rest, at + b.len(), block, sector);
        if n < src.len() {
            lemma_padded_sum(block, rest.len(), sector);
            align::lemma_padded_len(rest.len(), sector);
        }
    }
}

/// Padding behind a whole number of sectors pads the sum.
proof fn lemma_padded_sum(a: nat, b: nat, sector: nat)
    requires
        sector > 0,
        a % sector == 0,
    ensures
        align::padded_len(a + b, sector) == a + align::padded_len(b, sector),
{
    let s = sector as int;
    let (q, x) = (a as int / s, b + s - 1);
    vstd::arithmetic::div_mod::lemma_fundamental_div_mod(a as int, s);
    assert(a as int == s * q);
    vstd::arithmetic::div_mod::lemma_hoist_over_denominator(x, q, sector);
    assert(x / s + q == (x + q * s) / s);
    assert(q * s == s * q) by (nonlinear_arith);
    assert((x / s + q) * s == x / s * s + q * s) by (nonlinear_arith);
    align::lemma_padded_len(b, sector);
}

/// An image that fits behind the offset fits with its padding too, if the device is a whole
/// number of sectors.
pub proof fn padding_fits_where_the_image_fits(src: nat, offset: nat, target: nat, sector: nat)
    requires
        sector > 0,
        offset % sector == 0,
        target % sector == 0,
        offset + src <= target,
    ensures
        offset + align::padded_len(src, sector) <= target,
{
    lemma_padded_sum(offset, src, sector);
    align::lemma_padded_len(offset + src, sector);
    let s = sector as int;
    let (p, t) = (align::padded_len(offset + src, sector) as int, target as int);
    let (j, k) = (p / s, t / s);
    vstd::arithmetic::div_mod::lemma_fundamental_div_mod(p, s);
    vstd::arithmetic::div_mod::lemma_fundamental_div_mod(t, s);
    assert(p <= t) by (nonlinear_arith)
        requires
            p == s * j,
            t == s * k,
            p < offset + src + s,
            offset + src <= t,
            s > 0,
    ;
}

} // verus!
