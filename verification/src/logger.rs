//! Where the log goes, and what is written to it.

use vstd::prelude::*;

use crate::fields;
use crate::numbers;
use crate::platform::Platform;
use crate::table;
use crate::text;

verus! {

// ---------------------------------------------------------------------------------------
// Time stamps
// ---------------------------------------------------------------------------------------

/// A local date and time.
#[derive(Debug, Clone, Copy, PartialEq, Eq, Structural)]
pub struct LocalTime {
    pub year: i32,
    pub month: u32,
    pub day: u32,
    pub hour: u32,
    pub minute: u32,
    pub second: u32,
}

pub open spec fn is_leap(year: int) -> bool {
    year % 4 == 0 && (year % 100 != 0 || year % 400 == 0)
}

pub open spec fn days_in(year: int, month: int) -> int {
    if month == 2 {
        if is_leap(year) {
            29
        } else {
            28
        }
    } else if month == 4 || month == 6 || month == 9 || month == 11 {
        30
    } else {
        31
    }
}

impl LocalTime {
    /// The date is one of the calendar and the time one of the day.
    pub open spec fn exists_in_calendar(self) -> bool {
        &&& -262143 <= self.year <= 262142
        &&& 1 <= self.month <= 12
        &&& 1 <= self.day <= days_in(self.year as int, self.month as int)
        &&& self.hour < 24
        &&& self.minute < 60
        &&& self.second < 60
    }

    pub fn is_valid(&self) -> (r: bool)
        ensures
            r == self.exists_in_calendar(),
    {
        if self.year < -262143 || self.year > 262142 || self.month < 1 || self.month > 12 {
            return false;
        }
        // In 400 years the calendar repeats.
        let y: i32 = self.year + 262_400;
        let leap: bool = y % 4 == 0 && (y % 100 != 0 || y % 400 == 0);
        let days: u32 = if self.month == 2 {
            if leap {
                29
            } else {
                28
            }
        } else if self.month == 4 || self.month == 6 || self.month == 9 || self.month == 11 {
            30
        } else {
            31
        };
        1 <= self.day && self.day <= days && self.hour < 24 && self.minute < 60 && self.second < 60
    }

    /// The text that a letter behind a percent sign stands for.
    pub open spec fn field(self, c: char) -> Option<Seq<char>> {
        if c == 'Y' {
            Some(year_text(self.year as int))
        } else if c == 'm' {
            Some(numbers::two_digits(self.month as nat))
        } else if c == 'd' {
            Some(numbers::two_digits(self.day as nat))
        } else if c == 'y' {
            Some(numbers::two_digits((self.year as int % 100) as nat))
        } else if c == 'H' {
            Some(numbers::two_digits(self.hour as nat))
        } else if c == 'M' {
            Some(numbers::two_digits(self.minute as nat))
        } else if c == 'S' {
            Some(numbers::two_digits(self.second as nat))
        } else {
            None
        }
    }

    /// The time, `millis` thousandths into its second, in the given pattern: `%Y` gives the
    /// year, each `%m`, `%d`, `%y`, `%H`, `%M` and `%S` two digits and `%.3f` a point and the
    /// thousandths; every other character stands for itself. Nothing is said of other percent
    /// signs.
    pub open spec fn formatted(self, millis: u32, pattern: Seq<char>) -> Option<Seq<char>>
        decreases pattern.len(),
    {
        if pattern.len() == 0 {
            Some(Seq::empty())
        } else if pattern[0] != '%' {
            match self.formatted(millis, pattern.drop_first()) {
                Some(s) => Some(seq![pattern[0]] + s),
                None => None,
            }
        } else if asks_for_millis(pattern) {
            match self.formatted(millis, pattern.skip(4)) {
                Some(s) => Some(millis_text(millis) + s),
                None => None,
            }
        } else if pattern.len() == 1 || self.field(pattern[1]) is None {
            None
        } else {
            match self.formatted(millis, pattern.skip(2)) {
                Some(s) => Some(self.field(pattern[1])->0 + s),
                None => None,
            }
        }
    }
}

/// A year in four digits; one that does not lie between 0 and 9999 with a sign, and with as many
/// more digits as it has.
pub open spec fn year_text(year: int) -> Seq<char> {
    if 0 <= year <= 9999 {
        numbers::zero_filled(year as nat, 4)
    } else if year > 0 {
        seq!['+'] + numbers::zero_filled(year as nat, 4)
    } else {
        seq!['-'] + numbers::zero_filled((-year) as nat, 4)
    }
}

/// Whether a pattern starts with `%.3f`.
pub open spec fn asks_for_millis(pattern: Seq<char>) -> bool {
    &&& pattern.len() >= 4
    &&& pattern[0] == '%'
    &&& pattern[1] == '.'
    &&& pattern[2] == '3'
    &&& pattern[3] == 'f'
}

/// A point and three digits.
pub open spec fn millis_text(millis: u32) -> Seq<char> {
    seq!['.'] + numbers::zero_filled(millis as nat, 3)
}

/// Calls `chrono::NaiveDateTime::format` on the given time, `millis` thousandths into its second,
/// and prints what it gives. For a time of the calendar and a pattern in which only `%Y`, `%m`,
/// `%d`, `%y`, `%H`, `%M`, `%S` and `%.3f` stand behind percent signs, `%Y` prints as the year in
/// at least four digits (with a sign where it is negative or above 9999), `%.3f` as a point and
/// three digits, the others as two digits each (`%y` the year modulo 100), and the rest of the
/// pattern as it is.
#[verifier::external_body]
fn format_time(t: &LocalTime, millis: u32, pattern: &str) -> (r: String)
    requires
        t.exists_in_calendar(),
        millis < 1000,
        t.formatted(millis, pattern@) is Some,
    ensures
        Some(r@) == t.formatted(millis, pattern@),
{
    let date = chrono::NaiveDate::from_ymd_opt(t.year, t.month, t.day).unwrap();
    let time = date.and_hms_milli_opt(t.hour, t.minute, t.second, millis).unwrap();
    time.format(pattern).to_string()
}

/// The name of the log file of a run that started at the given time. Windows has no colons in
/// file names.
pub open spec fn log_name(t: LocalTime, windows: bool) -> Seq<char> {
    let colon = if windows {
        "-"@
    } else {
        ":"@
    };
    "bufusb-"@ + numbers::two_digits(t.month as nat) + "-"@ + numbers::two_digits(t.day as nat)
        + "-"@ + numbers::two_digits((t.year as int % 100) as nat) + "-"@ + numbers::two_digits(
        t.hour as nat,
    ) + colon + numbers::two_digits(t.minute as nat) + colon + numbers::two_digits(
        t.second as nat,
    ) + ".log"@
}

/// Puts the text of a field before what the rest of a pattern gives.
proof fn lemma_formatted_field(
    t: LocalTime,
    millis: u32,
    pattern: Seq<char>,
    c: char,
    rest: Seq<char>,
)
    requires
        pattern.len() >= 2,
        pattern[0] == '%',
        pattern[1] == c,
        t.field(c) is Some,
        t.formatted(millis, pattern.skip(2)) == Some(rest),
    ensures
        t.formatted(millis, pattern) == Some(t.field(c)->0 + rest),
{
}

/// Characters that are no percent signs stand for themselves.
proof fn lemma_formatted_plain(
    t: LocalTime,
    millis: u32,
    plain: Seq<char>,
    pattern: Seq<char>,
    rest: Seq<char>,
)
    requires
        forall|i: int| 0 <= i < plain.len() ==> plain[i] != '%',
        t.formatted(millis, pattern) == Some(rest),
    ensures
        t.formatted(millis, plain + pattern) == Some(plain + rest),
    decreases plain.len(),
{
    if plain.len() == 0 {
        assert(plain + pattern =~= pattern);
        assert(plain + rest =~= rest);
    } else {
        lemma_formatted_plain(t, millis, plain.drop_first(), pattern, rest);
        assert((plain + pattern).drop_first() =~= plain.drop_first() + pattern);
        assert(seq![plain[0]] + (plain.drop_first() + rest) =~= plain + rest);
    }
}

pub fn log_file_name(t: &LocalTime, windows: bool) -> (r: String)
    requires
        t.exists_in_calendar(),
    ensures
        r@ == log_name(*t, windows),
{
    let pattern = if windows {
        "bufusb-%m-%d-%y-%H-%M-%S.log"
    } else {
        "bufusb-%m-%d-%y-%H:%M:%S.log"
    };
    proof {
        lemma_log_pattern(*t, windows);
    }
    format_time(t, 0, pattern)
}

proof fn lemma_log_pattern(t: LocalTime, windows: bool)
    ensures
        t.formatted(
            0,
            if windows {
                "bufusb-%m-%d-%y-%H-%M-%S.log"@
            } else {
                "bufusb-%m-%d-%y-%H:%M:%S.log"@
            },
        ) == Some(log_name(t, windows)),
{
    reveal_strlit("bufusb-%m-%d-%y-%H-%M-%S.log");
    reveal_strlit("bufusb-%m-%d-%y-%H:%M:%S.log");
    reveal_strlit("bufusb-");
    reveal_strlit("-");
    reveal_strlit(":");
    reveal_strlit(".log");
    let p = if windows {
        "bufusb-%m-%d-%y-%H-%M-%S.log"@
    } else {
        "bufusb-%m-%d-%y-%H:%M:%S.log"@
    };
    let colon = if windows {
        "-"@
    } else {
        ":"@
    };
    let end = Seq::<char>::empty();
    // From the end of the pattern to its start.
    assert(p.skip(28) =~= end);
    assert(t.formatted(0, p.skip(28)) == Some(end));
    lemma_formatted_plain(t, 0, ".log"@, p.skip(28), end);
    let s6 = ".log"@ + end;
    assert(p.skip(24) =~= ".log"@ + p.skip(28));
    assert(p.skip(22).skip(2) =~= p.skip(24));
    lemma_formatted_field(t, 0, p.skip(22), 'S', s6);
    let s5 = numbers::two_digits(t.second as nat) + s6;
    lemma_formatted_plain(t, 0, colon, p.skip(22), s5);
    assert(p.skip(21) =~= colon + p.skip(22));
    assert(p.skip(19).skip(2) =~= p.skip(21));
    lemma_formatted_field(t, 0, p.skip(19), 'M', colon + s5);
    let s4 = numbers::two_digits(t.minute as nat) + (colon + s5);
    lemma_formatted_plain(t, 0, colon, p.skip(19), s4);
    assert(p.skip(18) =~= colon + p.skip(19));
    assert(p.skip(16).skip(2) =~= p.skip(18));
    lemma_formatted_field(t, 0, p.skip(16), 'H', colon + s4);
    let s3 = numbers::two_digits(t.hour as nat) + (colon + s4);
    lemma_formatted_plain(t, 0, "-"@, p.skip(16), s3);
    assert(p.skip(15) =~= "-"@ + p.skip(16));
    assert(p.skip(13).skip(2) =~= p.skip(15));
    lemma_formatted_field(t, 0, p.skip(13), 'y', "-"@ + s3);
    let s2 = numbers::two_digits((t.year as int % 100) as nat) + ("-"@ + s3);
    lemma_formatted_plain(t, 0, "-"@, p.skip(13), s2);
    assert(p.skip(12) =~= "-"@ + p.skip(13));
    assert(p.skip(10).skip(2) =~= p.skip(12));
    lemma_formatted_field(t, 0, p.skip(10), 'd', "-"@ + s2);
    let s1 = numbers::two_digits(t.day as nat) + ("-"@ + s2);
    lemma_formatted_plain(t, 0, "-"@, p.skip(10), s1);
    assert(p.skip(9) =~= "-"@ + p.skip(10));
    assert(p.skip(7).skip(2) =~= p.skip(9));
    lemma_formatted_field(t, 0, p.skip(7), 'm', "-"@ + s1);
    let s0 = numbers::two_digits(t.month as nat) + ("-"@ + s1);
    lemma_formatted_plain(t, 0, "bufusb-"@, p.skip(7), s0);
    assert(p =~= "bufusb-"@ + p.skip(7));
    assert("bufusb-"@ + s0 =~= log_name(t, windows));
}

/// A log file's name holds no colon on Windows, where none may stand in a file name.
pub proof fn windows_log_names_have_no_colon(t: LocalTime, i: int)
    requires
        0 <= i < log_name(t, true).len(),
    ensures
        log_name(t, true)[i] != ':',
{
    reveal_strlit("bufusb-");
    reveal_strlit("-");
    reveal_strlit(".log");
    lemma_two_digits_plain(t.month as nat);
    lemma_two_digits_plain(t.day as nat);
    lemma_two_digits_plain((t.year as int % 100) as nat);
    lemma_two_digits_plain(t.hour as nat);
    lemma_two_digits_plain(t.minute as nat);
    lemma_two_digits_plain(t.second as nat);
}

proof fn lemma_two_digits_plain(n: nat)
    ensures
        numbers::two_digits(n).len() == 2,
        numbers::two_digits(n)[0] != ':',
        numbers::two_digits(n)[1] != ':',
{
}

// ---------------------------------------------------------------------------------------
// The home directory
// ---------------------------------------------------------------------------------------

/// The entry of the password file for a user: the first line with that name.
pub open spec fn passwd_entry(lines: Seq<Seq<char>>, user: Seq<char>) -> Option<Seq<char>>
    decreases lines.len(),
{
    if lines.len() == 0 {
        None
    } else if fields::split(lines[0], ':')[0] == user {
        Some(lines[0])
    } else {
        passwd_entry(lines.drop_first(), user)
    }
}

/// The home directory in the password file: the sixth field of the user's entry.
pub open spec fn home_in_passwd(passwd: Seq<char>, user: Seq<char>) -> Option<Seq<char>> {
    match passwd_entry(fields::lines(passwd), user) {
        None => None,
        Some(line) => {
            let f = fields::split(line, ':');
            if f.len() > 5 {
                Some(f[5])
            } else {
                None
            }
        },
    }
}

pub fn passwd_home(passwd: &str, username: &str) -> (r: Option<String>)
    ensures
        match r {
            Some(s) => home_in_passwd(passwd@, username@) == Some(s@),
            None => home_in_passwd(passwd@, username@) is None,
        },
{
    let chars = text::chars_of(passwd);
    let user = text::chars_of(username);
    let lines = fields::lines_of(&chars);
    let ghost all = fields::lines(passwd@);
    assert(all.skip(0) =~= all);
    for i in 0..lines.len()
        invariant
            all == fields::lines(passwd@),
            fields::views(lines@) == all,
            user@ == username@,
            passwd_entry(all, username@) == passwd_entry(all.skip(i as int), username@),
    {
        let ghost rest = all.skip(i as int);
        proof {
            assert(rest[0] == lines@[i as int]@);
            assert(rest.drop_first() =~= all.skip(i + 1));
        }
        let f = fields::split_chars(&lines[i], ':');
        proof {
            fields::lemma_split_len(lines@[i as int]@, ':');
            assert(fields::views(f@)[0] == f@[0]@);
        }
        if text::chars_eq(&f[0], &user) {
            if f.len() > 5 {
                assert(fields::views(f@)[5] == f@[5]@);
                return Some(text::string_of(&f[5]));
            }
            return None;
        }
    }
    None
}

pub open spec fn opt_view(s: Option<&str>) -> Option<Seq<char>> {
    match s {
        Some(t) => Some(t@),
        None => None,
    }
}

/// The home directory of whoever runs the program. Under `sudo` that is the one of the user who
/// called it, on Unix; else the environment tells.
pub open spec fn home_of(
    platform: Platform,
    sudo_user: Option<Seq<char>>,
    passwd: Option<Seq<char>>,
    home: Option<Seq<char>>,
    user_profile: Option<Seq<char>>,
) -> Option<Seq<char>> {
    let caller = match (sudo_user, passwd) {
        (Some(u), Some(p)) => home_in_passwd(p, u),
        _ => None,
    };
    if platform.unix() && caller is Some {
        caller
    } else if home is Some {
        home
    } else {
        user_profile
    }
}

pub fn home_dir(
    platform: Platform,
    sudo_user: Option<&str>,
    passwd: Option<&str>,
    home: Option<&str>,
    user_profile: Option<&str>,
) -> (r: Option<String>)
    ensures
        match r {
            Some(s) => home_of(
                platform,
                opt_view(sudo_user),
                opt_view(passwd),
                opt_view(home),
                opt_view(user_profile),
            ) == Some(s@),
            None => home_of(
                platform,
                opt_view(sudo_user),
                opt_view(passwd),
                opt_view(home),
                opt_view(user_profile),
            ) is None,
        },
{
    if platform.is_unix() {
        if let Some(u) = sudo_user {
            if let Some(p) = passwd {
                if let Some(h) = passwd_home(p, u) {
                    return Some(h);
                }
            }
        }
    }
    if let Some(h) = home {
        return Some(h.to_owned());
    }
    match user_profile {
        Some(h) => Some(h.to_owned()),
        None => None,
    }
}

// ---------------------------------------------------------------------------------------
// Where the log goes
// ---------------------------------------------------------------------------------------

/// A file in a directory.
pub struct LogPath {
    pub dir: String,
    pub file: String,
}

/// The log file of a run: a file named after the time in the home directory.
pub fn log_path(home: Option<String>, t: &LocalTime, platform: Platform) -> (r: Option<LogPath>)
    requires
        t.exists_in_calendar(),
    ensures
        match r {
            Some(p) => home == Some(p.dir) && p.file@ == log_name(*t, platform is Windows),
            None => home is None,
        },
{
    let windows: bool = match platform {
        Platform::Windows => true,
        _ => false,
    };
    match home {
        Some(dir) => Some(LogPath { dir, file: log_file_name(t, windows) }),
        None => None,
    }
}

#[derive(Debug, Clone, Copy, PartialEq, Eq, Structural)]
pub enum Level {
    Warn,
    Info,
    Debug,
}

/// Whether messages of a level are shown where `limit` is the last level that is.
pub open spec fn shows(limit: Level, level: Level) -> bool {
    match limit {
        Level::Warn => level is Warn,
        Level::Info => level is Warn || level is Info,
        Level::Debug => true,
    }
}

/// Where messages go.
pub enum LogPlan {
    /// To the standard error stream, from this level on; `homeless` if only because there is no
    /// place for a file.
    Stderr { level: Level, homeless: bool },
    /// To the file at the path that was asked for, from this level on.
    Custom { path: String, level: Level },
    /// To the file named after the time, from this level on.
    Default { place: LogPath, level: Level },
}

impl LogPlan {
    /// The last level that reaches the standard error stream: beside a file, only warnings.
    pub open spec fn on_stderr(self) -> Level {
        match self {
            LogPlan::Stderr { level, .. } => level,
            _ => Level::Warn,
        }
    }

    pub fn stderr_level(&self) -> (l: Level)
        ensures
            l == self.on_stderr(),
    {
        match self {
            LogPlan::Stderr { level, .. } => *level,
            LogPlan::Custom { .. } => Level::Warn,
            LogPlan::Default { .. } => Level::Warn,
        }
    }
}

/// Wherever messages go, warnings reach the standard error stream.
pub proof fn warnings_reach_stderr(plan: LogPlan)
    ensures
        shows(plan.on_stderr(), Level::Warn),
{
}

pub open spec fn file_level(verbose: bool) -> Level {
    if verbose {
        Level::Debug
    } else {
        Level::Info
    }
}

/// Decides where messages go: to a file unless logging is off, to the one asked for or else to
/// the default one.
pub fn init(
    enabled: bool,
    verbose: bool,
    custom_path: Option<String>,
    default_path: Option<LogPath>,
) -> (p: LogPlan)
    ensures
        p == if !enabled {
            LogPlan::Stderr { level: Level::Warn, homeless: false }
        } else {
            match (custom_path, default_path) {
                (Some(path), _) => LogPlan::Custom { path, level: file_level(verbose) },
                (None, Some(place)) => LogPlan::Default { place, level: file_level(verbose) },
                (None, None) => LogPlan::Stderr { level: file_level(verbose), homeless: true },
            }
        },
{
    if !enabled {
        return LogPlan::Stderr { level: Level::Warn, homeless: false };
    }
    let level = if verbose {
        Level::Debug
    } else {
        Level::Info
    };
    match custom_path {
        Some(path) => LogPlan::Custom { path, level },
        None => match default_path {
            Some(place) => LogPlan::Default { place, level },
            None => LogPlan::Stderr { level, homeless: true },
        },
    }
}

/// The time stamp of a line of the log.
pub open spec fn stamp_text(t: LocalTime, millis: u32) -> Seq<char> {
    year_text(t.year as int) + "-"@ + numbers::two_digits(t.month as nat) + "-"@
        + numbers::two_digits(t.day as nat) + " "@ + numbers::two_digits(t.hour as nat) + ":"@
        + numbers::two_digits(t.minute as nat) + ":"@ + numbers::two_digits(t.second as nat)
        + millis_text(millis)
}

/// The time stamp of a line that is written at the given time, `millis` thousandths into its
/// second.
pub fn log_stamp(t: &LocalTime, millis: u32) -> (r: String)
    requires
        t.exists_in_calendar(),
        millis < 1000,
    ensures
        r@ == stamp_text(*t, millis),
{
    proof {
        lemma_stamp_pattern(*t, millis);
    }
    format_time(t, millis, "%Y-%m-%d %H:%M:%S%.3f")
}

proof fn lemma_stamp_pattern(t: LocalTime, millis: u32)
    ensures
        t.formatted(millis, "%Y-%m-%d %H:%M:%S%.3f"@) == Some(stamp_text(t, millis)),
{
    reveal_strlit("%Y-%m-%d %H:%M:%S%.3f");
    reveal_strlit("-");
    reveal_strlit(" ");
    reveal_strlit(":");
    let p = "%Y-%m-%d %H:%M:%S%.3f"@;
    let end = Seq::<char>::empty();
    // From the end of the pattern to its start.
    assert(p.skip(17).skip(4) =~= end);
    assert(t.formatted(millis, end) == Some(end));
    let s6 = millis_text(millis) + end;
    assert(t.formatted(millis, p.skip(17)) == Some(s6));
    assert(p.skip(15).skip(2) =~= p.skip(17));
    lemma_formatted_field(t, millis, p.skip(15), 'S', s6);
    let s5 = t.field('S')->0 + s6;
    lemma_formatted_plain(t, millis, ":"@, p.skip(15), s5);
    assert(p.skip(14) =~= ":"@ + p.skip(15));
    assert(p.skip(12).skip(2) =~= p.skip(14));
    lemma_formatted_field(t, millis, p.skip(12), 'M', ":"@ + s5);
    let s4 = t.field('M')->0 + (":"@ + s5);
    lemma_formatted_plain(t, millis, ":"@, p.skip(12), s4);
    assert(p.skip(11) =~= ":"@ + p.skip(12));
    assert(p.skip(9).skip(2) =~= p.skip(11));
    lemma_formatted_field(t, millis, p.skip(9), 'H', ":"@ + s4);
    let s3 = t.field('H')->0 + (":"@ + s4);
    lemma_formatted_plain(t, millis, " "@, p.skip(9), s3);
    assert(p.skip(8) =~= " "@ + p.skip(9));
    assert(p.skip(6).skip(2) =~= p.skip(8));
    lemma_formatted_field(t, millis, p.skip(6), 'd', " "@ + s3);
    let s2 = t.field('d')->0 + (" "@ + s3);
    lemma_formatted_plain(t, millis, "-"@, p.skip(6), s2);
    assert(p.skip(5) =~= "-"@ + p.skip(6));
    assert(p.skip(3).skip(2) =~= p.skip(5));
    lemma_formatted_field(t, millis, p.skip(3), 'm', "-"@ + s2);
    let s1 = t.field('m')->0 + ("-"@ + s2);
    lemma_formatted_plain(t, millis, "-"@, p.skip(3), s1);
    assert(p.skip(2) =~= "-"@ + p.skip(3));
    lemma_formatted_field(t, millis, p, 'Y', "-"@ + s1);
    assert(t.field('Y')->0 + ("-"@ + s1) =~= stamp_text(t, millis));
}

/// A line of the log, the level's name in a column of five.
pub open spec fn line_text(
    timestamp: Seq<char>,
    level: Seq<char>,
    target: Seq<char>,
    message: Seq<char>,
) -> Seq<char> {
    "["@ + timestamp + "] ["@ + table::filled(level, ' ', 5) + "] ["@ + target + "] "@ + message
}

pub fn log_line(timestamp: &str, level: &str, target: &str, message: &str) -> (r: String)
    ensures
        r@ == line_text(timestamp@, level@, target@, message@),
{
    let mut s = String::new();
    s.append("[");
    s.append(timestamp);
    s.append("] [");
    table::push_filled(&mut s, level, ' ', 5);
    s.append("] [");
    s.append(target);
    s.append("] ");
    s.append(message);
    assert(s@ =~= line_text(timestamp@, level@, target@, message@));
    s
}

} // verus!
