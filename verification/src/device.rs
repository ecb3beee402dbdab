//! Devices and their partitions: names, sizes, and what the system's answers mean.

use vstd::arithmetic::power2;
use vstd::prelude::*;

use crate::align;
use crate::fields;
use crate::numbers;
use crate::platform::Platform;
use crate::text;

verus! {

// ---------------------------------------------------------------------------------------
// Sector sizes
// ---------------------------------------------------------------------------------------

/// What a device's answer to the question for its logical sector size means; where it gave
/// none, or one that makes no sense, sectors have 512 bytes.
pub open spec fn logical_size(platform: Platform, reply: Option<i64>) -> u64 {
    match (platform, reply) {
        (Platform::Linux, Some(n)) => if n > 0 {
            n as u64
        } else {
            512
        },
        (Platform::MacOs, Some(n)) => if n > 0 {
            n as u64
        } else {
            512
        },
        (Platform::Windows, Some(n)) => if n >= 512 && power2::is_pow2(n as int) {
            n as u64
        } else {
            512
        },
        _ => 512,
    }
}

/// The logical sector size of a device.
pub fn logical_sector_size(platform: Platform, reply: Option<i64>) -> (n: u64)
    ensures
        n == logical_size(platform, reply),
        n > 0,
{
    match reply {
        None => 512,
        Some(n) => match platform {
            Platform::Linux => if n > 0 {
                n as u64
            } else {
                512
            },
            Platform::MacOs => if n > 0 {
                n as u64
            } else {
                512
            },
            Platform::Windows => if n >= 512 && align::is_power_of_two(n as u64) {
                n as u64
            } else {
                512
            },
            _ => 512,
        },
    }
}

/// The sector size that direct writes have to respect: on Windows the physical one, elsewhere
/// the logical one.
pub open spec fn write_alignment(
    platform: Platform,
    logical: Option<i64>,
    physical: Option<u32>,
) -> u64 {
    match platform {
        Platform::Windows => match physical {
            Some(n) => if n > 0 {
                n as u64
            } else {
                512
            },
            None => 512,
        },
        _ => logical_size(platform, logical),
    }
}

pub fn get_sector_size(platform: Platform, logical: Option<i64>, physical: Option<u32>) -> (n: u64)
    ensures
        n == write_alignment(platform, logical, physical),
        n > 0,
{
    match platform {
        Platform::Windows => match physical {
            Some(n) => if n > 0 {
                n as u64
            } else {
                512
            },
            None => 512,
        },
        _ => logical_sector_size(platform, logical),
    }
}

// ---------------------------------------------------------------------------------------
// Device sizes
// ---------------------------------------------------------------------------------------

/// What a path leads to.
#[derive(Debug, Clone, Copy, PartialEq, Eq, Structural)]
pub enum FileKind {
    Regular,
    BlockDevice,
    CharDevice,
    Other,
}

/// What could be found out about the size of what a path leads to. `None` stands for a question
/// that failed.
#[derive(Debug, Clone, Copy)]
pub struct SizeFacts {
    /// Its kind and length, from its metadata.
    pub metadata: Option<(FileKind, u64)>,
    /// Linux: the size of a block device in bytes.
    pub device_bytes: Option<u64>,
    /// macOS: the number of blocks of a device, and the size of one.
    pub device_blocks: Option<(u64, u32)>,
    /// Where its end is, found by seeking there.
    pub end: Option<u64>,
    /// Windows: the size of the disk, from its geometry.
    pub geometry: Option<i64>,
}

pub open spec fn block_size_of(platform: Platform, f: SizeFacts) -> Option<u64> {
    match (platform, f.device_bytes, f.device_blocks) {
        (Platform::Linux, Some(n), _) => Some(n),
        (Platform::MacOs, _, Some((count, size))) => if size > 0 {
            Some((count * size) as u64)
        } else {
            f.end
        },
        _ => f.end,
    }
}

/// The size of what a path leads to; 0 where the platform has no way to tell.
pub open spec fn size_of(platform: Platform, f: SizeFacts) -> Option<u64> {
    if platform.unix() {
        match f.metadata {
            None => None,
            Some((kind, len)) => if kind is BlockDevice {
                block_size_of(platform, f)
            } else {
                Some(len)
            },
        }
    } else if platform is Windows {
        match f.geometry {
            Some(n) => if n > 0 {
                Some(n as u64)
            } else {
                Some(0)
            },
            None => Some(0),
        }
    } else {
        Some(0)
    }
}

/// Whether only the place of its end tells the size of what a path leads to: of a block device
/// that gave no size when asked.
pub open spec fn end_decides(platform: Platform, f: SizeFacts) -> bool {
    &&& platform.unix()
    &&& f.metadata matches Some((kind, _)) && kind is BlockDevice
    &&& !(platform is Linux && f.device_bytes is Some)
    &&& !(platform is MacOs && (f.device_blocks matches Some((_, size)) && size > 0))
}

/// Where the end of a device need not be sought, it has no part in the size; where it has to be,
/// it is the size.
pub proof fn the_end_is_sought_where_it_decides(
    platform: Platform,
    f: SizeFacts,
    end: Option<u64>,
)
    ensures
        size_of(platform, SizeFacts { end, ..f }) == if end_decides(platform, f) {
            end
        } else {
            size_of(platform, f)
        },
{
}

/// Whether the end of a device has to be sought to tell its size.
pub fn needs_end(platform: Platform, f: &SizeFacts) -> (r: bool)
    ensures
        r == end_decides(platform, *f),
{
    let block: bool = match f.metadata {
        Some((FileKind::BlockDevice, _)) => true,
        _ => false,
    };
    let answered: bool = match platform {
        Platform::Linux => f.device_bytes.is_some(),
        Platform::MacOs => match f.device_blocks {
            Some((_, size)) => size > 0,
            None => false,
        },
        _ => false,
    };
    platform.is_unix() && block && !answered
}

/// A device with so many blocks that 64 bits hold its size.
pub open spec fn blocks_fit(f: SizeFacts) -> bool {
    f.device_blocks matches Some((count, size)) ==> count * size <= u64::MAX
}

fn block_device_size(platform: Platform, f: &SizeFacts) -> (r: Option<u64>)
    requires
        blocks_fit(*f),
    ensures
        r == block_size_of(platform, *f),
{
    match platform {
        Platform::Linux => match f.device_bytes {
            Some(n) => Some(n),
            None => f.end,
        },
        Platform::MacOs => match f.device_blocks {
            Some((count, size)) => if size > 0 {
                Some(count * size as u64)
            } else {
                f.end
            },
            None => f.end,
        },
        _ => f.end,
    }
}

/// The size in bytes of what a path leads to, or `None` where a question that decides it failed.
pub fn device_size(platform: Platform, f: &SizeFacts) -> (r: Option<u64>)
    requires
        blocks_fit(*f),
    ensures
        r == size_of(platform, *f),
{
    if platform.is_unix() {
        return match f.metadata {
            None => None,
            Some((kind, len)) => match kind {
                FileKind::BlockDevice => block_device_size(platform, f),
                _ => Some(len),
            },
        };
    }
    match platform {
        Platform::Windows => match f.geometry {
            Some(n) => if n > 0 {
                Some(n as u64)
            } else {
                Some(0)
            },
            None => Some(0),
        },
        _ => Some(0),
    }
}

// ---------------------------------------------------------------------------------------
// Partitions by name
// ---------------------------------------------------------------------------------------

/// The name of a partition: behind a disk's name that ends with a digit, a `p` sets its number
/// off.
pub open spec fn node_name(disk: Seq<char>, index: nat) -> Seq<char> {
    if disk.len() > 0 && text::is_digit(disk.last()) {
        disk + "p"@ + numbers::decimal(index)
    } else {
        disk + numbers::decimal(index)
    }
}

pub fn partition_node(disk: &str, index: u32) -> (r: String)
    ensures
        r@ == node_name(disk@, index as nat),
{
    let chars = text::chars_of(disk);
    let n: usize = chars.len();
    let mut s = disk.to_owned();
    if n > 0 && text::char_is_digit(chars[n - 1]) {
        s.append("p");
    }
    s.append(numbers::decimal_text(index as u64).as_str());
    assert(s@ =~= node_name(disk@, index as nat));
    s
}

/// What may follow a disk's name in that of its partition: a number, with or without a `p`.
pub open spec fn is_partition_suffix(s: Seq<char>) -> bool {
    let d = if s.len() > 0 && s[0] == 'p' {
        s.drop_first()
    } else {
        s
    };
    d.len() > 0 && numbers::all_digits(d)
}

pub open spec fn names_partition(cand: Seq<char>, dev: Seq<char>) -> bool {
    text::starts_with(cand, dev) && is_partition_suffix(cand.skip(dev.len() as int))
}

/// Whether `cand` names a partition of the disk `dev`; the disk itself is none.
pub fn is_partition_of(cand: &str, dev: &str) -> (r: bool)
    ensures
        r == names_partition(cand@, dev@),
{
    let c = text::chars_of(cand);
    let d = text::chars_of(dev);
    if !text::chars_start_with(&c, &d) {
        return false;
    }
    let n: usize = c.len();
    let m: usize = d.len();
    let start: usize = if m < n && c[m] == 'p' {
        m + 1
    } else {
        m
    };
    let ghost rest = cand@.skip(m as int);
    let ghost digits = cand@.skip(start as int);
    proof {
        if m < n && c@[m as int] == 'p' {
            assert(rest.drop_first() =~= digits);
        }
    }
    if start == n {
        return false;
    }
    assert(names_partition(cand@, dev@) == numbers::all_digits(digits));
    for i in start..n
        invariant
            names_partition(cand@, dev@) == numbers::all_digits(digits),
            n == c@.len(),
            c@ == cand@,
            start <= n,
            digits == cand@.skip(start as int),
            forall|k: int| 0 <= k < i - start ==> text::is_digit(#[trigger] digits[k]),
    {
        if !text::char_is_digit(c[i]) {
            assert(!text::is_digit(digits[i - start]));
            return false;
        }
    }
    true
}

/// The name that a partition is given is recognised as that of a partition of its disk.
pub proof fn partition_names_are_recognised(disk: Seq<char>, index: nat)
    ensures
        names_partition(node_name(disk, index), disk),
{
    reveal_strlit("p");
    let node = node_name(disk, index);
    let d = numbers::decimal(index);
    numbers::lemma_decimal(index);
    assert(node.take(disk.len() as int) =~= disk);
    let rest = node.skip(disk.len() as int);
    if disk.len() > 0 && text::is_digit(disk.last()) {
        assert(rest =~= "p"@ + d);
        assert(rest.drop_first() =~= d);
    } else {
        assert(rest =~= d);
        assert(text::is_digit(d[0]));
    }
}

/// A disk is no partition of itself.
pub proof fn disks_are_not_their_partitions(disk: Seq<char>)
    ensures
        !names_partition(disk, disk),
{
    assert(disk.skip(disk.len() as int) =~= Seq::<char>::empty());
}

/// The mounted sources among the given lines of the mount table that are partitions of `dev`.
pub open spec fn mounted_in(lines: Seq<Seq<char>>, dev: Seq<char>) -> Seq<Seq<char>>
    decreases lines.len(),
{
    if lines.len() == 0 {
        Seq::empty()
    } else {
        let src = fields::first_word(lines.last());
        if names_partition(src, dev) {
            mounted_in(lines.drop_last(), dev).push(src)
        } else {
            mounted_in(lines.drop_last(), dev)
        }
    }
}

/// The partitions of `dev` that the mount table names, in its order: they have to be unmounted
/// before the device is written to.
pub fn mounted_partitions(mounts: &str, dev: &str) -> (r: Vec<String>)
    ensures
        fields::texts(r@) == mounted_in(fields::lines(mounts@), dev@),
{
    let chars = text::chars_of(mounts);
    let lines = fields::lines_of(&chars);
    let ghost all = fields::lines(mounts@);
    let mut r: Vec<String> = Vec::new();
    assert(fields::texts(r@) =~= Seq::<Seq<char>>::empty());
    assert(all.take(0) =~= Seq::<Seq<char>>::empty());
    for i in 0..lines.len()
        invariant
            fields::views(lines@) == all,
            fields::texts(r@) == mounted_in(all.take(i as int), dev@),
    {
        proof {
            assert(all.take(i + 1).drop_last() =~= all.take(i as int));
            assert(all[i as int] == lines@[i as int]@);
        }
        let src = text::string_of(&fields::first_word_of(&lines[i]));
        if is_partition_of(src.as_str(), dev) {
            let ghost before = r@;
            r.push(src);
            assert(fields::texts(r@) =~= fields::texts(before).push(src@));
        }
    }
    assert(all.take(all.len() as int) =~= all);
    r
}

// ---------------------------------------------------------------------------------------
// Windows names
// ---------------------------------------------------------------------------------------

/// `at` is the last position of `s` at which `p` stands.
pub open spec fn last_at(s: Seq<char>, p: Seq<char>, at: int) -> bool {
    &&& text::occurs_at(s, p, at)
    &&& forall|k: int| k > at ==> !#[trigger] text::occurs_at(s, p, k)
}

/// What follows the last occurrence of `p` in `s`: all of `s` if there is none.
pub open spec fn after_last(s: Seq<char>, p: Seq<char>) -> Seq<char> {
    if exists|at: int| last_at(s, p, at) {
        let at = choose|at: int| last_at(s, p, at);
        s.skip(at + p.len())
    } else {
        s
    }
}

/// The number in a name like `\\.\PhysicalDrive3`.
pub open spec fn drive_number(target: Seq<char>) -> Option<nat> {
    numbers::parse_unsigned(
        text::trim(after_last(target, "PhysicalDrive"@)),
        u32::MAX as nat,
    )
}

fn chars_after_last(s: &[char], p: &[char]) -> (r: Vec<char>)
    ensures
        r@ == after_last(s@, p@),
{
    let n: usize = s.len();
    let m: usize = p.len();
    if m > n {
        assert(forall|k: int| !text::occurs_at(s@, p@, k));
        assert(s@.subrange(0, n as int) =~= s@);
        return text::copy_range(s, 0, n);
    }
    let mut at: usize = n - m;
    loop
        invariant
            n == s@.len(),
            m == p@.len(),
            m <= n,
            at <= n - m,
            forall|k: int| k > at ==> !#[trigger] text::occurs_at(s@, p@, k),
        decreases at,
    {
        if text::chars_occur_at(s, p, at) {
            proof {
                assert(last_at(s@, p@, at as int));
                let w = choose|w: int| last_at(s@, p@, w);
                assert(w == at) by {
                    if w < at {
                        assert(text::occurs_at(s@, p@, at as int));
                    } else if w > at {
                        assert(text::occurs_at(s@, p@, w));
                    }
                }
                assert(s@.subrange(at + m, n as int) =~= s@.skip(at + m));
            }
            return text::copy_range(s, at + m, n);
        }
        if at == 0 {
            assert(forall|k: int| !text::occurs_at(s@, p@, k));
            assert(s@.subrange(0, n as int) =~= s@);
            return text::copy_range(s, 0, n);
        }
        at = at - 1;
    }
}

/// The number of a physical drive, told from its name.
pub fn physical_drive_number(target: &str) -> (r: Option<u32>)
    ensures
        match r {
            Some(n) => drive_number(target@) == Some(n as nat),
            None => drive_number(target@) is None,
        },
{
    let s = text::chars_of(target);
    let p = text::chars_of("PhysicalDrive");
    let tail = chars_after_last(&s, &p);
    let trimmed = text::trim_chars(&tail);
    match numbers::parse_chars(&trimmed, 0xFFFF_FFFF) {
        Some(n) => Some(n as u32),
        None => None,
    }
}

/// A volume's name without the backslashes at its end, by which it can be opened.
pub open spec fn volume_node(vol: Seq<char>) -> Seq<char>
    decreases vol.len(),
{
    if vol.len() > 0 && vol.last() == '\\' {
        volume_node(vol.drop_last())
    } else {
        vol
    }
}

pub fn open_volume_name(vol: &str) -> (r: String)
    ensures
        r@ == volume_node(vol@),
{
    let s = text::chars_of(vol);
    let mut n: usize = s.len();
    assert(vol@.take(n as int) =~= vol@);
    while n > 0 && s[n - 1] == '\\'
        invariant
            s@ == vol@,
            n <= s@.len(),
            volume_node(vol@) == volume_node(vol@.take(n as int)),
        decreases n,
    {
        assert(vol@.take(n as int).drop_last() =~= vol@.take(n - 1));
        n = n - 1;
    }
    assert(vol@.subrange(0, n as int) =~= vol@.take(n as int));
    text::string_of(&text::copy_range(&s, 0, n))
}

/// The drive letter in the output of a script: its first character that is no white space.
pub open spec fn letter_in(out: Seq<char>) -> Option<char> {
    if text::trim(out).len() > 0 {
        Some(text::trim(out)[0])
    } else {
        None
    }
}

/// The root of the volume whose drive letter a script printed.
pub fn volume_root(out: &str) -> (r: Option<String>)
    ensures
        match r {
            Some(s) => letter_in(out@) matches Some(c) && s@ == seq![c] + ":\\"@,
            None => letter_in(out@) is None,
        },
{
    let chars = text::chars_of(out);
    let t = text::trim_chars(&chars);
    if t.len() == 0 {
        return None;
    }
    let mut s = String::new();
    s.push(t[0]);
    s.append(":\\");
    assert(s@ =~= seq![t@[0]] + ":\\"@);
    Some(s)
}

// ---------------------------------------------------------------------------------------
// Waiting for the system
// ---------------------------------------------------------------------------------------

/// What a request to read the partition table again came back with.
#[derive(Debug, Clone, Copy, PartialEq, Eq, Structural)]
pub enum RereadReply {
    Done,
    /// It failed, with this error number if there was one.
    Failed(Option<i32>),
}

#[derive(Debug, Clone, Copy, PartialEq, Eq, Structural)]
pub enum RereadStep {
    Finished,
    /// Wait a moment and try again.
    Retry,
    /// Warn that the new table may not be seen yet.
    GiveUp,
}

/// The error number of a device that is in use.
pub const EBUSY: i32 = 16;

pub const REREAD_ATTEMPTS: u32 = 5;

/// What follows from an attempt, the first one having number 0.
pub open spec fn reread_step(attempt: u32, reply: RereadReply) -> RereadStep {
    match reply {
        RereadReply::Done => RereadStep::Finished,
        RereadReply::Failed(e) => if e == Some(EBUSY) && attempt != REREAD_ATTEMPTS - 1 {
            RereadStep::Retry
        } else {
            RereadStep::GiveUp
        },
    }
}

/// What to do after an attempt, the first one having number 0: a busy device is asked again,
/// five times in all.
pub fn reread_partitions(attempt: u32, reply: RereadReply) -> (s: RereadStep)
    ensures
        s == reread_step(attempt, reply),
{
    match reply {
        RereadReply::Done => RereadStep::Finished,
        RereadReply::Failed(e) => match e {
            Some(n) => if n == EBUSY && attempt != REREAD_ATTEMPTS - 1 {
                RereadStep::Retry
            } else {
                RereadStep::GiveUp
            },
            None => RereadStep::GiveUp,
        },
    }
}

#[derive(Debug, Clone, Copy, PartialEq, Eq, Structural)]
pub enum WaitStep {
    Ready,
    /// Wait a moment and look again.
    Wait,
    GiveUp,
}

pub const NODE_POLLS: u32 = 40;

/// What follows from a look at a device node, after `polls` looks in vain.
pub open spec fn wait_step(polls: u32, exists_now: bool) -> WaitStep {
    if polls >= NODE_POLLS {
        WaitStep::GiveUp
    } else if exists_now {
        WaitStep::Ready
    } else {
        WaitStep::Wait
    }
}

/// What to do about a device node that is still to appear, after `polls` looks in vain: the node
/// is looked for forty times.
pub fn wait_for_node(polls: u32, exists_now: bool) -> (s: WaitStep)
    ensures
        s == wait_step(polls, exists_now),
{
    if polls >= NODE_POLLS {
        WaitStep::GiveUp
    } else if exists_now {
        WaitStep::Ready
    } else {
        WaitStep::Wait
    }
}

} // verus!
