//! What holds of every answer of the system: sizes and names of devices, tools and directories,
//! positions and texts.

use vstd::arithmetic::power2;
use vstd::prelude::*;

use crate::copy;
use crate::copy::StreamStep;
use crate::device;
use crate::device::{FileKind, RereadReply, RereadStep, SizeFacts, WaitStep};
use crate::fields;
use crate::logger;
use crate::logger::{Level, LocalTime};
use crate::mount;
use crate::mount::Mounted;
use crate::numbers;
use crate::partition::Window;
use crate::platform::Platform;
use crate::position;
use crate::position::SeekTo;
use crate::privilege;
use crate::text;
use crate::text_laws;
use crate::tree::EntryKind;
use crate::walk;
use crate::walk::WalkEvent;
use crate::wide;
use crate::writer::ReadEvent;

verus! {

// ---------------------------------------------------------------------------------------
// Sizes of devices
// ---------------------------------------------------------------------------------------

/// A sector has the size that the device gave, where that makes sense, and 512 bytes elsewhere.
pub proof fn sectors_have_the_size_that_was_given(platform: Platform, n: i64)
    ensures
        (platform is Linux || platform is MacOs) && n > 0 ==> device::logical_size(
            platform,
            Some(n),
        ) == n,
        platform is Windows && n >= 512 && power2::is_pow2(n as int) ==> device::logical_size(
            platform,
            Some(n),
        ) == n,
        n <= 0 ==> device::logical_size(platform, Some(n)) == 512,
        platform is Windows && !(n >= 512 && power2::is_pow2(n as int)) ==> device::logical_size(
            platform,
            Some(n),
        ) == 512,
        platform is Unix || platform is Other ==> device::logical_size(platform, Some(n)) == 512,
        device::logical_size(platform, None) == 512,
{
}

/// Direct writes respect the physical sectors on Windows and the logical ones elsewhere.
pub proof fn writes_respect_the_right_sectors(
    platform: Platform,
    logical: Option<i64>,
    physical: Option<u32>,
)
    ensures
        !(platform is Windows) ==> device::write_alignment(platform, logical, physical)
            == device::logical_size(platform, logical),
        platform is Windows ==> match physical {
            Some(n) => if n > 0 {
                device::write_alignment(platform, logical, physical) == n
            } else {
                device::write_alignment(platform, logical, physical) == 512
            },
            None => device::write_alignment(platform, logical, physical) == 512,
        },
{
}

/// A file has the length that its metadata give; a device the size that it gives when asked, or
/// the place of its end.
pub proof fn sizes_are_those_that_were_given(platform: Platform, f: SizeFacts)
    requires
        device::blocks_fit(f),
    ensures
        platform is Linux || platform is MacOs || platform is Unix ==> match f.metadata {
            None => device::size_of(platform, f) is None,
            Some((FileKind::BlockDevice, _)) => {
                &&& platform is Linux && f.device_bytes is Some ==> device::size_of(platform, f)
                    == f.device_bytes
                &&& platform is MacOs && (f.device_blocks matches Some((_, size)) && size > 0)
                    ==> device::size_of(platform, f) is Some && device::size_of(platform, f)->0
                    == count_times_size(f)
                &&& platform is Unix || (platform is Linux && f.device_bytes is None) || (
                platform is MacOs && !(f.device_blocks matches Some((_, size)) && size > 0))
                    ==> device::size_of(platform, f) == f.end
            },
            Some((_, len)) => device::size_of(platform, f) == Some(len),
        },
        platform is Windows ==> match f.geometry {
            Some(n) => device::size_of(platform, f) is Some && device::size_of(platform, f)->0
                == if n > 0 {
                n as int
            } else {
                0
            },
            None => device::size_of(platform, f) == Some(0u64),
        },
        platform is Other ==> device::size_of(platform, f) == Some(0u64),
{
}

pub open spec fn count_times_size(f: SizeFacts) -> int {
    match f.device_blocks {
        Some((count, size)) => count * size,
        None => 0,
    }
}

// ---------------------------------------------------------------------------------------
// Names of devices
// ---------------------------------------------------------------------------------------

/// The name of a partition is that of its disk and its number in decimal, with a `p` between
/// them exactly where the disk's name ends with a digit.
pub proof fn partitions_are_named_after_their_disk(disk: Seq<char>, index: nat)
    ensures
        disk.len() > 0 && '0' <= disk.last() <= '9' ==> device::node_name(disk, index) == disk
            + seq!['p'] + numbers::decimal(index),
        !(disk.len() > 0 && '0' <= disk.last() <= '9') ==> device::node_name(disk, index) == disk
            + numbers::decimal(index),
{
    reveal_strlit("p");
    assert("p"@ =~= seq!['p']);
}

/// A name is that of a partition of a disk just where it is the disk's name and digits, with a
/// `p` between them or without.
pub proof fn partitions_are_told_by_their_number(cand: Seq<char>, dev: Seq<char>, d: Seq<char>)
    ensures
        d.len() > 0 && (forall|i: int| 0 <= i < d.len() ==> '0' <= #[trigger] d[i] <= '9') ==> {
            &&& device::names_partition(dev + d, dev)
            &&& device::names_partition(dev + seq!['p'] + d, dev)
        },
        device::names_partition(cand, dev) ==> {
            let rest = cand.skip(dev.len() as int);
            let digits = if rest[0] == 'p' {
                rest.drop_first()
            } else {
                rest
            };
            &&& cand == dev + rest
            &&& rest.len() > 0
            &&& digits.len() > 0
            &&& forall|i: int| 0 <= i < digits.len() ==> '0' <= #[trigger] digits[i] <= '9'
        },
{
    if d.len() > 0 && (forall|i: int| 0 <= i < d.len() ==> '0' <= #[trigger] d[i] <= '9') {
        let (x, y) = (dev + d, dev + seq!['p'] + d);
        let n = dev.len() as int;
        assert(x.take(n) =~= dev);
        assert(y.take(n) =~= dev);
        assert(x.skip(n) =~= d);
        assert(y.skip(n).drop_first() =~= d);
        assert('0' <= d[0] <= '9');
        assert(numbers::all_digits(d));
    }
    if device::names_partition(cand, dev) {
        text_laws::starts_and_ends_are_parts(cand, dev, Seq::empty());
        let rest = cand.skip(dev.len() as int);
        let digits = if rest[0] == 'p' {
            rest.drop_first()
        } else {
            rest
        };
        assert forall|i: int| 0 <= i < digits.len() implies '0' <= #[trigger] digits[i] <= '9' by {
            assert(text::is_digit(digits[i]));
        }
    }
}

/// Each line of the mount table whose first word names a partition of the device gives that
/// partition, in the order of the table, and no other line gives any.
pub proof fn every_mounted_partition_is_found(
    lines: Seq<Seq<char>>,
    line: Seq<char>,
    dev: Seq<char>,
)
    ensures
        device::mounted_in(Seq::empty(), dev) == Seq::<Seq<char>>::empty(),
        device::names_partition(fields::first_word(line), dev) ==> device::mounted_in(
            lines.push(line),
            dev,
        ) == device::mounted_in(lines, dev).push(fields::first_word(line)),
        !device::names_partition(fields::first_word(line), dev) ==> device::mounted_in(
            lines.push(line),
            dev,
        ) == device::mounted_in(lines, dev),
{
    assert(lines.push(line).drop_last() =~= lines);
}

/// The number of a physical drive is the one at the end of its name.
pub proof fn drive_numbers_read_back(a: Seq<char>, n: u32)
    ensures
        device::drive_number(a + "PhysicalDrive"@ + numbers::decimal(n as nat)) == Some(n as nat),
{
    let p = "PhysicalDrive"@;
    let d = numbers::decimal(n as nat);
    text_laws::numbers_are_written_in_decimal(n as nat);
    lemma_drive_name(p);
    last_place_cuts_a_text(a, p, d);
    assert('0' <= d[0] <= '9' && '0' <= d[d.len() - 1] <= '9');
    text_laws::trimmed_text_stays(d);
    text_laws::digits_read_as_their_value(d, u32::MAX as nat);
}

proof fn lemma_drive_name(p: Seq<char>)
    requires
        p == "PhysicalDrive"@,
    ensures
        p.len() == 13,
        p[0] == 'P',
        forall|i: int| 0 < i < 13 ==> #[trigger] p[i] != 'P',
{
    reveal_strlit("PhysicalDrive");
}

/// What follows the last place of `p` in a text is what stands behind it there, if `p` starts
/// with a character that stands nowhere behind that.
pub proof fn last_place_cuts_a_text(a: Seq<char>, p: Seq<char>, b: Seq<char>)
    requires
        p.len() > 0,
        forall|i: int| 0 < i < p.len() ==> #[trigger] p[i] != p[0],
        forall|i: int| 0 <= i < b.len() ==> #[trigger] b[i] != p[0],
    ensures
        device::after_last(a + p + b, p) == b,
{
    let s = a + p + b;
    let at = a.len() as int;
    assert(s.subrange(at, at + p.len()) =~= p);
    assert forall|k: int| k > at implies !#[trigger] text::occurs_at(s, p, k) by {
        if text::occurs_at(s, p, k) {
            assert(s.subrange(k, k + p.len())[0] == s[k]);
            if k < at + p.len() {
                assert(s[k] == p[k - at]);
            } else {
                assert(s[k] == b[k - at - p.len()]);
            }
        }
    }
    assert(device::last_at(s, p, at));
    let w = choose|w: int| device::last_at(s, p, w);
    assert(w == at) by {
        if w < at {
            assert(text::occurs_at(s, p, at));
        } else if w > at {
            assert(text::occurs_at(s, p, w));
        }
    }
    assert(s.skip(at + p.len()) =~= b);
}

/// A volume is opened by its name without the backslashes at its end.
pub proof fn volumes_are_opened_without_backslashes(name: Seq<char>, end: Seq<char>)
    requires
        name.len() > 0 ==> name.last() != '\\',
        forall|i: int| 0 <= i < end.len() ==> #[trigger] end[i] == '\\',
    ensures
        device::volume_node(name + end) == name,
    decreases end.len(),
{
    let s = name + end;
    if end.len() > 0 {
        assert(end[end.len() - 1] == '\\');
        assert(s.drop_last() =~= name + end.drop_last());
        volumes_are_opened_without_backslashes(name, end.drop_last());
    } else {
        assert(s =~= name);
    }
}

/// A drive letter is the first character that a script prints, white space apart.
pub proof fn drive_letters_are_printed_first(
    left: Seq<char>,
    c: char,
    rest: Seq<char>,
    white: Seq<char>,
)
    requires
        text_laws::all_white(left),
        !text::is_white(c),
        text_laws::all_white(white),
    ensures
        device::letter_in(left + (seq![c] + rest)) == Some(c),
        device::letter_in(white) is None,
{
    let none = Seq::<char>::empty();
    let t = seq![c] + rest;
    text_laws::leading_white_space_goes(left, t);
    lemma_keeps_first(t);
    assert(white =~= white + none + none);
    text_laws::trimming_leaves_the_middle(white, none, none);
}

proof fn lemma_keeps_first(s: Seq<char>)
    requires
        s.len() > 0,
        !text::is_white(s[0]),
    ensures
        text::trim_end(s).len() > 0,
        text::trim_end(s)[0] == s[0],
    decreases s.len(),
{
    if text::is_white(s.last()) {
        assert(s.len() > 1);
        lemma_keeps_first(s.drop_last());
    }
}

// ---------------------------------------------------------------------------------------
// Waiting
// ---------------------------------------------------------------------------------------

/// A busy device is asked five times in all; every other failure ends it at once.
pub proof fn busy_devices_are_asked_five_times(attempt: u32, e: Option<i32>)
    ensures
        device::reread_step(attempt, RereadReply::Done) == RereadStep::Finished,
        e == Some(16i32) && attempt < 4 ==> device::reread_step(attempt, RereadReply::Failed(e))
            == RereadStep::Retry,
        attempt == 4 || e != Some(16i32) ==> device::reread_step(attempt, RereadReply::Failed(e))
            == RereadStep::GiveUp,
{
}

/// A device node is looked for forty times.
pub proof fn nodes_are_looked_for_forty_times(polls: u32)
    ensures
        polls < 40 ==> device::wait_step(polls, true) == WaitStep::Ready && device::wait_step(
            polls,
            false,
        ) == WaitStep::Wait,
        polls >= 40 ==> device::wait_step(polls, true) == WaitStep::GiveUp && device::wait_step(
            polls,
            false,
        ) == WaitStep::GiveUp,
{
}

/// Every byte that was read is written and counted, in however many pieces it came; the end of
/// the file gives the count, and an interruption costs nothing.
pub proof fn streams_count_every_byte(total: u64, n: usize, m: usize)
    requires
        n > 0,
        m > 0,
        total + n + m <= u64::MAX,
    ensures
        copy::stream_step(total, ReadEvent::Got(n)) matches StreamStep::Write { count, total: t }
            && count == n && t == total + n,
        copy::stream_step((total + n) as u64, ReadEvent::Got(m)) matches StreamStep::Write {
            count,
            total: t,
        } && count == m && t == total + n + m,
        copy::stream_step(total, ReadEvent::Got(0)) == (StreamStep::Done { total }),
        copy::stream_step(total, ReadEvent::Interrupted) == StreamStep::ReadAgain,
        copy::stream_step(total, ReadEvent::Failed) == StreamStep::Fail,
{
}

// ---------------------------------------------------------------------------------------
// Positions
// ---------------------------------------------------------------------------------------

/// A seek leads to the position itself, or so far from the end or from where one is; positions
/// that 63 bits hold lose nothing.
pub proof fn seeks_lead_where_they_say(x: u64, d: i64, pos: u64, len: u64)
    requires
        x < 0x8000_0000_0000_0000,
        pos < 0x8000_0000_0000_0000,
        len < 0x8000_0000_0000_0000,
    ensures
        position::seek_target(SeekTo::Start(x), pos, len) == x,
        position::seek_target(SeekTo::End(d), pos, len) == len + d,
        position::seek_target(SeekTo::Current(d), pos, len) == pos + d,
{
}

/// Larger positions count as the negative numbers that their bits stand for.
pub proof fn large_positions_are_negative(n: u64)
    requires
        n >= 0x8000_0000_0000_0000,
    ensures
        position::as_signed(n) == n - 0x1_0000_0000_0000_0000,
        position::as_signed(n) < 0,
{
}

/// A transfer moves all that was asked for, or all that is left of the window.
pub proof fn transfers_move_all_that_is_left(w: Window, want: nat)
    ensures
        w.pos + want <= w.len ==> w.room(want) == want,
        w.pos <= w.len < w.pos + want ==> w.pos + w.room(want) == w.len,
        w.pos >= w.len ==> w.room(want) == 0,
{
}

// ---------------------------------------------------------------------------------------
// Walking a tree
// ---------------------------------------------------------------------------------------

/// A walk leaves out links to directories and files that open neither by themselves nor by what
/// they lead to, and finds each directory; nothing else counts as either.
pub proof fn walks_leave_out_only_what_cannot_be_copied(
    kind: EntryKind,
    leads: bool,
    depth: nat,
    opened: bool,
    target: Option<bool>,
)
    requires
        depth > 0,
    ensures
        walk::leaves_out(WalkEvent::Met { kind, leads_to_directory: leads, depth }) <==> kind
            is Symlink && leads,
        walk::leaves_out(WalkEvent::Tried { opened, target_opened: target }) <==> !opened && target
            == Some(false),
        !walk::leaves_out(WalkEvent::Next),
        !walk::leaves_out(WalkEvent::Scanned { kind }),
        walk::finds(WalkEvent::Met { kind, leads_to_directory: leads, depth }) <==> kind
            is Directory,
        walk::finds(WalkEvent::Scanned { kind }) <==> kind is Directory,
        !walk::finds(WalkEvent::Next),
        !walk::finds(WalkEvent::Tried { opened, target_opened: target }),
{
}

/// The directory that was found last is read first.
pub proof fn directories_found_last_are_read_first(events: Seq<WalkEvent>, e: WalkEvent)
    requires
        walk::finds(e),
    ensures
        walk::given_out(events.push(e).push(WalkEvent::Next)) == walk::given_out(events).push(
            walk::walked(events).found,
        ),
        walk::walked(events.push(e).push(WalkEvent::Next)).pending == walk::walked(events).pending,
        walk::walked(events.push(e)).found == walk::walked(events).found + 1,
{
    let (a, b) = (events.push(e), events.push(e).push(WalkEvent::Next));
    assert(a.drop_last() =~= events);
    assert(b.drop_last() =~= a);
    assert(walk::walked(a).pending == walk::walked(events).pending.push(
        walk::walked(events).found,
    ));
    assert(walk::walked(b).pending =~= walk::walked(events).pending);
    assert(walk::given_out(a) == walk::given_out(events));
    assert(walk::walked(a).pending.last() == walk::walked(events).found);
}

// ---------------------------------------------------------------------------------------
// Tools
// ---------------------------------------------------------------------------------------

/// The tool that is used is the first one that can be.
pub proof fn the_first_usable_tool_is_used(names: Seq<Seq<char>>, usable: Seq<bool>, k: int)
    requires
        names.len() == usable.len(),
        0 <= k <= names.len(),
        forall|i: int| 0 <= i < k ==> !#[trigger] usable[i],
        k < names.len() ==> usable[k],
    ensures
        privilege::first_usable(names, usable) == if k < names.len() {
            Some(names[k])
        } else {
            None
        },
    decreases names.len(),
{
    if names.len() > 0 && k > 0 {
        assert(!usable[0]);
        let (n, u) = (names.drop_first(), usable.drop_first());
        assert forall|i: int| 0 <= i < k - 1 implies !#[trigger] u[i] by {
            assert(!usable[i + 1]);
        }
        the_first_usable_tool_is_used(n, u, k - 1);
    }
}

/// The tools are `sudo` and `pkexec` on Linux, and `doas`, `sudo`, `run0` and `pkexec` elsewhere,
/// in that order.
pub proof fn tools_are_tried_in_order(platform: Platform)
    ensures
        platform is Linux ==> privilege::candidate_names(platform) == seq!["sudo"@, "pkexec"@],
        !(platform is Linux) ==> privilege::candidate_names(platform) == seq![
            "doas"@,
            "sudo"@,
            "run0"@,
            "pkexec"@,
        ],
{
}

/// A tool that was asked for is taken by its name, white space apart; a request of white space
/// only is none.
pub proof fn requests_for_a_tool_are_trimmed(left: Seq<char>, name: Seq<char>, right: Seq<char>)
    requires
        text_laws::all_white(left),
        text_laws::all_white(right),
        text_laws::is_trimmed(name),
    ensures
        name.len() > 0 ==> privilege::asked_for(Some(left + name + right)) == Some(name),
        name.len() == 0 ==> privilege::asked_for(Some(left + name + right)) is None,
        privilege::asked_for(None) is None,
{
    text_laws::trimming_leaves_the_middle(left, name, right);
}

/// Texts are joined with the separator between them, and nowhere else.
pub proof fn joining_puts_separators_between(parts: Seq<Seq<char>>, x: Seq<char>, sep: Seq<char>)
    ensures
        privilege::joined(Seq::empty(), sep) == Seq::<char>::empty(),
        parts.len() == 0 ==> privilege::joined(parts.push(x), sep) == x,
        parts.len() > 0 ==> privilege::joined(parts.push(x), sep) == privilege::joined(parts, sep)
            + sep + x,
{
    assert(parts.push(x).drop_last() =~= parts);
}

// ---------------------------------------------------------------------------------------
// Directories
// ---------------------------------------------------------------------------------------

/// A line of the password file whose first field is the user and whose sixth is `home`.
pub open spec fn entry_line(
    user: Seq<char>,
    f2: Seq<char>,
    f3: Seq<char>,
    f4: Seq<char>,
    f5: Seq<char>,
    home: Seq<char>,
    rest: Seq<char>,
) -> Seq<char> {
    user + seq![':'] + (f2 + seq![':'] + (f3 + seq![':'] + (f4 + seq![':'] + (f5 + seq![':'] + (home
        + seq![':'] + rest)))))
}

/// The home directory of a user is the sixth field of the first line that starts with the user's
/// name.
pub proof fn home_directories_are_the_sixth_field(
    passwd: Seq<char>,
    before: Seq<Seq<char>>,
    user: Seq<char>,
    f2: Seq<char>,
    f3: Seq<char>,
    f4: Seq<char>,
    f5: Seq<char>,
    home: Seq<char>,
    rest: Seq<char>,
    behind: Seq<Seq<char>>,
)
    requires
        fields::lines(passwd) == before + seq![entry_line(user, f2, f3, f4, f5, home, rest)]
            + behind,
        forall|i: int|
            0 <= i < before.len() ==> fields::split(#[trigger] before[i], ':')[0] != user,
        !user.contains(':'),
        !f2.contains(':'),
        !f3.contains(':'),
        !f4.contains(':'),
        !f5.contains(':'),
        !home.contains(':'),
    ensures
        logger::home_in_passwd(passwd, user) == Some(home),
{
    let line = entry_line(user, f2, f3, f4, f5, home, rest);
    let r6 = home + seq![':'] + rest;
    let r5 = f5 + seq![':'] + r6;
    let r4 = f4 + seq![':'] + r5;
    let r3 = f3 + seq![':'] + r4;
    let r2 = f2 + seq![':'] + r3;
    text_laws::splitting_cuts_at_each_separator(user, ':', r2);
    text_laws::splitting_cuts_at_each_separator(f2, ':', r3);
    text_laws::splitting_cuts_at_each_separator(f3, ':', r4);
    text_laws::splitting_cuts_at_each_separator(f4, ':', r5);
    text_laws::splitting_cuts_at_each_separator(f5, ':', r6);
    text_laws::splitting_cuts_at_each_separator(home, ':', rest);
    let f = fields::split(line, ':');
    assert(f[0] == user);
    assert(f[5] == home);
    lemma_entry(before, line, behind, user);
}

proof fn lemma_entry(
    before: Seq<Seq<char>>,
    line: Seq<char>,
    behind: Seq<Seq<char>>,
    user: Seq<char>,
)
    requires
        fields::split(line, ':')[0] == user,
        forall|i: int|
            0 <= i < before.len() ==> fields::split(#[trigger] before[i], ':')[0] != user,
    ensures
        logger::passwd_entry(before + seq![line] + behind, user) == Some(line),
    decreases before.len(),
{
    let all = before + seq![line] + behind;
    if before.len() > 0 {
        assert(all[0] == before[0]);
        let next = before.drop_first();
        assert(all.drop_first() =~= next + seq![line] + behind);
        assert forall|i: int| 0 <= i < next.len() implies fields::split(#[trigger] next[i], ':')[0]
            != user by {
            assert(fields::split(before[i + 1], ':')[0] != user);
        }
        lemma_entry(next, line, behind, user);
    } else {
        assert(all[0] == line);
    }
}

/// A user without a line has no home directory in the password file.
pub proof fn users_without_a_line_have_no_home(passwd: Seq<char>, user: Seq<char>)
    requires
        forall|i: int|
            0 <= i < fields::lines(passwd).len() ==> fields::split(
                #[trigger] fields::lines(passwd)[i],
                ':',
            )[0] != user,
    ensures
        logger::home_in_passwd(passwd, user) is None,
{
    lemma_no_entry(fields::lines(passwd), user);
}

proof fn lemma_no_entry(lines: Seq<Seq<char>>, user: Seq<char>)
    requires
        forall|i: int| 0 <= i < lines.len() ==> fields::split(#[trigger] lines[i], ':')[0] != user,
    ensures
        logger::passwd_entry(lines, user) is None,
    decreases lines.len(),
{
    if lines.len() > 0 {
        assert(fields::split(lines[0], ':')[0] != user);
        let next = lines.drop_first();
        assert forall|i: int| 0 <= i < next.len() implies fields::split(#[trigger] next[i], ':')[0]
            != user by {
            assert(fields::split(lines[i + 1], ':')[0] != user);
        }
        lemma_no_entry(next, user);
    }
}

/// Under `sudo` the home directory is that of the caller, on Unix; else the environment tells,
/// `HOME` before `USERPROFILE`.
pub proof fn callers_keep_their_home(
    platform: Platform,
    user: Seq<char>,
    passwd: Seq<char>,
    home: Option<Seq<char>>,
    profile: Option<Seq<char>>,
)
    ensures
        (platform is Linux || platform is MacOs || platform is Unix) && logger::home_in_passwd(
            passwd,
            user,
        ) is Some ==> logger::home_of(platform, Some(user), Some(passwd), home, profile)
            == logger::home_in_passwd(passwd, user),
        platform is Windows || platform is Other || logger::home_in_passwd(passwd, user) is None
            ==> logger::home_of(platform, Some(user), Some(passwd), home, profile)
            == logger::home_of(platform, None, None, home, profile),
        logger::home_of(platform, None, Some(passwd), home, profile) == logger::home_of(
            platform,
            None,
            None,
            home,
            profile,
        ),
        logger::home_of(platform, Some(user), None, home, profile) == logger::home_of(
            platform,
            None,
            None,
            home,
            profile,
        ),
        home is Some ==> logger::home_of(platform, None, None, home, profile) == home,
        home is None ==> logger::home_of(platform, None, None, home, profile) == profile,
{
}

/// A directory to mount at is named after what is mounted, the process and the time.
pub proof fn mount_directories_are_named_after_the_run(pid: u32, nanos: u128)
    ensures
        mount::mount_dir_name(Mounted::Iso, pid, nanos) == "bufusb-iso-"@ + numbers::decimal(
            pid as nat,
        ) + "-"@ + numbers::decimal(nanos as nat),
        mount::mount_dir_name(Mounted::Ntfs, pid, nanos) == "bufusb-ntfs-"@ + numbers::decimal(
            pid as nat,
        ) + "-"@ + numbers::decimal(nanos as nat),
{
}

/// Two drivers are tried for an NTFS volume, the kernel's own first and to be written to.
pub proof fn two_drivers_are_tried(attempt: nat)
    ensures
        mount::ntfs_options(0) == Some(seq!["-t"@, "ntfs3"@, "-o"@, "rw"@]),
        mount::ntfs_options(1) == Some(seq!["-t"@, "ntfs-3g"@]),
        attempt >= 2 ==> mount::ntfs_options(attempt) is None,
{
}

// ---------------------------------------------------------------------------------------
// The log
// ---------------------------------------------------------------------------------------

/// A date is one of the Gregorian calendar: a month has 31, 30 or, in February, 28 days, and 29
/// in years that 4 divides, except for those that 100 divides and 400 does not.
pub proof fn dates_are_those_of_the_calendar(t: LocalTime)
    ensures
        t.exists_in_calendar() <==> {
            &&& -262_143 <= t.year <= 262_142
            &&& 1 <= t.month <= 12
            &&& 1 <= t.day <= 31
            &&& t.month == 4 || t.month == 6 || t.month == 9 || t.month == 11 ==> t.day <= 30
            &&& t.month == 2 ==> t.day <= 29
            &&& t.month == 2 && t.day == 29 ==> t.year as int % 4 == 0 && (t.year as int % 100 != 0
                || t.year as int % 400 == 0)
            &&& t.hour <= 23
            &&& t.minute <= 59
            &&& t.second <= 59
        },
{
}

/// The name of a log file gives back the time by which it was named, two digits for each part.
pub proof fn log_names_give_back_the_time(t: LocalTime, windows: bool)
    requires
        t.exists_in_calendar(),
    ensures
        ({
            let n = logger::log_name(t, windows);
            let sep = if windows {
                '-'
            } else {
                ':'
            };
            &&& n.len() == 28
            &&& n.take(7) == "bufusb-"@
            &&& numbers::digits_value(n.subrange(7, 9)) == t.month
            &&& n[9] == '-'
            &&& numbers::digits_value(n.subrange(10, 12)) == t.day
            &&& n[12] == '-'
            &&& numbers::digits_value(n.subrange(13, 15)) == t.year as int % 100
            &&& n[15] == '-'
            &&& numbers::digits_value(n.subrange(16, 18)) == t.hour
            &&& n[18] == sep
            &&& numbers::digits_value(n.subrange(19, 21)) == t.minute
            &&& n[21] == sep
            &&& numbers::digits_value(n.subrange(22, 24)) == t.second
            &&& n.skip(24) == ".log"@
        }),
{
    reveal_strlit("-");
    reveal_strlit(":");
    let y = (t.year as int % 100) as nat;
    lemma_two_digits(t.month as nat);
    lemma_two_digits(t.day as nat);
    lemma_two_digits(y);
    lemma_two_digits(t.hour as nat);
    lemma_two_digits(t.minute as nat);
    lemma_two_digits(t.second as nat);
    lemma_parts_of_log_name(
        numbers::two_digits(t.month as nat),
        numbers::two_digits(t.day as nat),
        numbers::two_digits(y),
        numbers::two_digits(t.hour as nat),
        numbers::two_digits(t.minute as nat),
        numbers::two_digits(t.second as nat),
        if windows {
            "-"@
        } else {
            ":"@
        },
    );
}

proof fn lemma_two_digits(n: nat)
    requires
        n < 100,
    ensures
        numbers::two_digits(n).len() == 2,
        numbers::digits_value(numbers::two_digits(n)) == n,
{
    text_laws::filled_numbers_keep_their_value(n, 0);
}

proof fn lemma_three_digits(n: nat)
    requires
        n < 1000,
    ensures
        numbers::zero_filled(n, 3).len() == 3,
        numbers::digits_value(numbers::zero_filled(n, 3)) == n,
{
    text_laws::filled_numbers_keep_their_value(n, 3);
    lemma_few_digits(n, 3);
}

proof fn lemma_parts_of_log_name(
    a: Seq<char>,
    b: Seq<char>,
    c: Seq<char>,
    d: Seq<char>,
    e: Seq<char>,
    f: Seq<char>,
    colon: Seq<char>,
)
    requires
        a.len() == 2,
        b.len() == 2,
        c.len() == 2,
        d.len() == 2,
        e.len() == 2,
        f.len() == 2,
        colon.len() == 1,
    ensures
        ({
            let n = "bufusb-"@ + a + "-"@ + b + "-"@ + c + "-"@ + d + colon + e + colon + f
                + ".log"@;
            &&& n.len() == 28
            &&& n.take(7) == "bufusb-"@
            &&& n.subrange(7, 9) == a
            &&& n[9] == '-'
            &&& n.subrange(10, 12) == b
            &&& n[12] == '-'
            &&& n.subrange(13, 15) == c
            &&& n[15] == '-'
            &&& n.subrange(16, 18) == d
            &&& n[18] == colon[0]
            &&& n.subrange(19, 21) == e
            &&& n[21] == colon[0]
            &&& n.subrange(22, 24) == f
            &&& n.skip(24) == ".log"@
        }),
{
    reveal_strlit("bufusb-");
    reveal_strlit("-");
    reveal_strlit(".log");
}

/// A year is written in at least four digits of its value; with a sign where it is negative or
/// has more than four.
pub proof fn years_are_written_in_four_digits(y: int)
    ensures
        0 <= y <= 9999 ==> numbers::digits_value(logger::year_text(y)) == y && logger::year_text(
            y,
        ).len() == 4,
        y > 9999 ==> logger::year_text(y)[0] == '+' && numbers::digits_value(
            logger::year_text(y).drop_first(),
        ) == y,
        y < 0 ==> logger::year_text(y)[0] == '-' && numbers::digits_value(
            logger::year_text(y).drop_first(),
        ) == -y && logger::year_text(y).len() >= 5,
{
    let n = if y >= 0 {
        y as nat
    } else {
        (-y) as nat
    };
    text_laws::filled_numbers_keep_their_value(n, 4);
    let z = numbers::zero_filled(n, 4);
    if y < 0 || y > 9999 {
        assert(logger::year_text(y).drop_first() =~= z);
    } else {
        lemma_few_digits(n, 4);
    }
}

/// A number below a power of ten has no more digits than that power has zeros.
proof fn lemma_few_digits(n: nat, width: nat)
    requires
        width == 3 ==> n <= 999,
        width == 4 ==> n <= 9999,
        width == 3 || width == 4,
    ensures
        numbers::decimal(n).len() <= width,
{
    reveal_with_fuel(numbers::decimal, 5);
}

/// The time stamp of a line gives back the time: the date, a space, the time of day and, behind a
/// point, the thousandths of the second.
pub proof fn stamps_give_back_the_time(t: LocalTime, millis: u32)
    requires
        t.exists_in_calendar(),
        0 <= t.year <= 9999,
        millis <= 999,
    ensures
        ({
            let s = logger::stamp_text(t, millis);
            &&& s.len() == 23
            &&& numbers::digits_value(s.subrange(0, 4)) == t.year
            &&& s[4] == '-'
            &&& numbers::digits_value(s.subrange(5, 7)) == t.month
            &&& s[7] == '-'
            &&& numbers::digits_value(s.subrange(8, 10)) == t.day
            &&& s[10] == ' '
            &&& numbers::digits_value(s.subrange(11, 13)) == t.hour
            &&& s[13] == ':'
            &&& numbers::digits_value(s.subrange(14, 16)) == t.minute
            &&& s[16] == ':'
            &&& numbers::digits_value(s.subrange(17, 19)) == t.second
            &&& s[19] == '.'
            &&& numbers::digits_value(s.subrange(20, 23)) == millis
        }),
{
    years_are_written_in_four_digits(t.year as int);
    lemma_two_digits(t.month as nat);
    lemma_two_digits(t.day as nat);
    lemma_two_digits(t.hour as nat);
    lemma_two_digits(t.minute as nat);
    lemma_two_digits(t.second as nat);
    lemma_three_digits(millis as nat);
    lemma_parts_of_stamp(
        logger::year_text(t.year as int),
        numbers::two_digits(t.month as nat),
        numbers::two_digits(t.day as nat),
        numbers::two_digits(t.hour as nat),
        numbers::two_digits(t.minute as nat),
        numbers::two_digits(t.second as nat),
        numbers::zero_filled(millis as nat, 3),
    );
}

proof fn lemma_parts_of_stamp(
    y: Seq<char>,
    a: Seq<char>,
    b: Seq<char>,
    c: Seq<char>,
    d: Seq<char>,
    e: Seq<char>,
    m: Seq<char>,
)
    requires
        y.len() == 4,
        a.len() == 2,
        b.len() == 2,
        c.len() == 2,
        d.len() == 2,
        e.len() == 2,
        m.len() == 3,
    ensures
        ({
            let s = y + "-"@ + a + "-"@ + b + " "@ + c + ":"@ + d + ":"@ + e + (seq!['.'] + m);
            &&& s.len() == 23
            &&& s.subrange(0, 4) == y
            &&& s[4] == '-'
            &&& s.subrange(5, 7) == a
            &&& s[7] == '-'
            &&& s.subrange(8, 10) == b
            &&& s[10] == ' '
            &&& s.subrange(11, 13) == c
            &&& s[13] == ':'
            &&& s.subrange(14, 16) == d
            &&& s[16] == ':'
            &&& s.subrange(17, 19) == e
            &&& s[19] == '.'
            &&& s.subrange(20, 23) == m
        }),
{
    reveal_strlit("-");
    reveal_strlit(" ");
    reveal_strlit(":");
}

/// Debug messages go to the log only where they were asked for; messages for information always
/// do. A level shows its own messages and the more important ones.
pub proof fn logs_hold_what_was_asked_for(verbose: bool)
    ensures
        logger::shows(logger::file_level(verbose), Level::Debug) <==> verbose,
        logger::shows(logger::file_level(verbose), Level::Info),
        logger::shows(logger::file_level(verbose), Level::Warn),
        logger::shows(Level::Warn, Level::Warn),
        !logger::shows(Level::Warn, Level::Info),
        !logger::shows(Level::Warn, Level::Debug),
{
}

/// A line of the log holds the time stamp, the level, the target and the message, each whole.
pub proof fn log_lines_hold_every_part(
    stamp: Seq<char>,
    level: Seq<char>,
    target: Seq<char>,
    message: Seq<char>,
)
    requires
        level.len() <= 5,
    ensures
        ({
            let s = logger::line_text(stamp, level, target, message);
            let n = stamp.len() as int;
            &&& s.len() == n + target.len() + message.len() + 14
            &&& s[0] == '['
            &&& s.subrange(1, 1 + n) == stamp
            &&& s.subrange(n + 4, n + 4 + level.len()) == level
            &&& forall|i: int| n + 4 + level.len() <= i < n + 9 ==> #[trigger] s[i] == ' '
            &&& s.subrange(n + 12, n + 12 + target.len()) == target
            &&& s.skip(n + 14 + target.len()) == message
        }),
{
    reveal_strlit("[");
    reveal_strlit("] [");
    reveal_strlit("] ");
    let s = logger::line_text(stamp, level, target, message);
    let n = stamp.len() as int;
    let f = crate::table::filled(level, ' ', 5);
    assert(f.len() == 5);
    assert(s.subrange(1, 1 + n) =~= stamp);
    assert(s.subrange(n + 4, n + 4 + level.len()) =~= level);
    assert(s.subrange(n + 12, n + 12 + target.len()) =~= target);
    assert(s.skip(n + 14 + target.len()) =~= message);
}

// ---------------------------------------------------------------------------------------
// Text of Windows
// ---------------------------------------------------------------------------------------

/// A buffer holds code units up to the first zero, lowest byte first; what follows that is of no
/// account.
pub proof fn units_are_read_up_to_a_zero(lo: u8, hi: u8, rest: Seq<u8>, other: Seq<u8>)
    ensures
        lo + 0x100 * hi != 0 ==> wide::units_in(seq![lo, hi] + rest) == seq![
            (lo + 0x100 * hi) as u16,
        ] + wide::units_in(rest),
        wide::units_in(seq![0u8, 0u8] + rest) == Seq::<u16>::empty(),
        other.len() < 2 ==> wide::units_in(other) == Seq::<u16>::empty(),
{
    let (a, b) = (seq![lo, hi] + rest, seq![0u8, 0u8] + rest);
    assert(a.take(2) =~= seq![lo, hi]);
    assert(b.take(2) =~= seq![0u8, 0u8]);
    assert(a.skip(2) =~= rest);
    text_laws::numbers_stand_lowest_byte_first(a.take(2));
    text_laws::numbers_stand_lowest_byte_first(b.take(2));
}

/// A code unit that is no surrogate is the character of that number, two surrogates that belong
/// together are one character, and a surrogate alone counts as damaged.
pub proof fn units_are_decoded_one_by_one(u: u16, v: u16, rest: Seq<u16>)
    ensures
        !(0xD800 <= u <= 0xDFFF) ==> wide::wide_text(seq![u] + rest) == seq![u as char]
            + wide::wide_text(rest),
        0xD800 <= u <= 0xDBFF && 0xDC00 <= v <= 0xDFFF ==> wide::wide_text(seq![u, v] + rest)
            == seq![(0x1_0000 + (u - 0xD800) * 0x400 + (v - 0xDC00)) as char] + wide::wide_text(
            rest,
        ),
        0xDC00 <= u <= 0xDFFF || (0xD800 <= u <= 0xDBFF && (rest.len() == 0 || !(0xDC00 <= rest[0]
            <= 0xDFFF))) ==> wide::wide_text(seq![u] + rest) == seq!['\u{fffd}']
            + wide::wide_text(rest),
        wide::wide_text(Seq::empty()) == Seq::<char>::empty(),
{
    let (a, b) = (seq![u] + rest, seq![u, v] + rest);
    assert(a.skip(1) =~= rest);
    assert(b.skip(2) =~= rest);
    assert(rest.len() > 0 ==> a[1] == rest[0]);
}

} // verus!
