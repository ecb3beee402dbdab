//! Privileges: whether the program has what it needs, and how it starts itself again with more.

use vstd::prelude::*;

use crate::fields;
use crate::platform::Platform;
use crate::text;

verus! {

/// Whether the program may write to devices: as root on Unix, elevated on Windows. Elsewhere
/// there is no telling, and it is taken for granted.
pub fn is_privileged(platform: Platform, euid: u32, elevated: bool) -> (r: bool)
    ensures
        r == if platform.unix() {
            euid == 0
        } else if platform is Windows {
            elevated
        } else {
            true
        },
{
    if platform.is_unix() {
        return euid == 0;
    }
    match platform {
        Platform::Windows => elevated,
        _ => true,
    }
}

// ---------------------------------------------------------------------------------------
// Finding a tool
// ---------------------------------------------------------------------------------------

/// The tools that can start a program as root, in the order in which they are tried.
pub open spec fn candidate_names(platform: Platform) -> Seq<Seq<char>> {
    if platform is Linux {
        seq!["sudo"@, "pkexec"@]
    } else {
        seq!["doas"@, "sudo"@, "run0"@, "pkexec"@]
    }
}

pub fn candidates(platform: Platform) -> (r: Vec<String>)
    ensures
        fields::texts(r@) == candidate_names(platform),
{
    let mut v: Vec<String> = Vec::new();
    match platform {
        Platform::Linux => {
            v.push("sudo".to_owned());
            v.push("pkexec".to_owned());
        },
        _ => {
            v.push("doas".to_owned());
            v.push("sudo".to_owned());
            v.push("run0".to_owned());
            v.push("pkexec".to_owned());
        },
    }
    assert(fields::texts(v@) =~= candidate_names(platform));
    v
}

/// The tool that the environment asks for, if it names one.
pub open spec fn asked_for(var: Option<Seq<char>>) -> Option<Seq<char>> {
    match var {
        Some(s) => if text::trim(s).len() > 0 {
            Some(text::trim(s))
        } else {
            None
        },
        None => None,
    }
}

pub open spec fn opt_view(s: Option<&str>) -> Option<Seq<char>> {
    match s {
        Some(t) => Some(t@),
        None => None,
    }
}

pub fn requested_tool(var: Option<&str>) -> (r: Option<String>)
    ensures
        match r {
            Some(s) => asked_for(opt_view(var)) == Some(s@),
            None => asked_for(opt_view(var)) is None,
        },
{
    match var {
        Some(s) => {
            let t = text::trim_str(s);
            if t.as_str().is_empty() {
                None
            } else {
                Some(t)
            }
        },
        None => None,
    }
}

/// Where a command is looked for.
pub enum Places {
    /// It is a path already.
    Itself,
    /// In these directories.
    Directories(Vec<String>),
}

pub open spec fn has_slash(cmd: Seq<char>) -> bool {
    cmd.contains('/')
}

/// Where to look for a command, given the search path if there is one: a name with a slash in
/// it is a path already.
pub fn places(cmd: &str, path: Option<&str>) -> (r: Places)
    ensures
        match r {
            Places::Itself => has_slash(cmd@),
            Places::Directories(dirs) => !has_slash(cmd@) && fields::texts(dirs@) == match path {
                Some(p) => fields::split(p@, ':'),
                None => Seq::empty(),
            },
        },
{
    let chars = text::chars_of(cmd);
    for i in 0..chars.len()
        invariant
            chars@ == cmd@,
            forall|k: int| 0 <= k < i ==> cmd@[k] != '/',
    {
        if chars[i] == '/' {
            assert(cmd@[i as int] == '/');
            return Places::Itself;
        }
    }
    let mut dirs: Vec<String> = Vec::new();
    assert(fields::texts(dirs@) =~= Seq::<Seq<char>>::empty());
    if let Some(p) = path {
        let all = text::chars_of(p);
        let pieces = fields::split_chars(&all, ':');
        let ghost want = fields::split(p@, ':');
        for i in 0..pieces.len()
            invariant
                fields::views(pieces@) == want,
                fields::texts(dirs@) == want.take(i as int),
        {
            let ghost before = dirs@;
            dirs.push(text::string_of(&pieces[i]));
            assert(fields::texts(dirs@) =~= fields::texts(before).push(want[i as int]));
            assert(fields::texts(dirs@) =~= want.take(i + 1));
        }
        assert(want.take(want.len() as int) =~= want);
    }
    Places::Directories(dirs)
}

/// Whether a file can be executed, by its kind and permission bits.
pub fn is_executable(is_file: bool, mode: u32) -> (r: bool)
    ensures
        r == (is_file && mode & 0o111 != 0),
{
    is_file && mode & 0o111 != 0
}

// ---------------------------------------------------------------------------------------
// Starting again
// ---------------------------------------------------------------------------------------

pub enum Elevation {
    /// Start the program again with this tool.
    Relaunch { tool: String },
    /// Nothing can be done; say this.
    GiveUp { message: String },
}

/// The first candidate that can be executed.
pub open spec fn first_usable(names: Seq<Seq<char>>, usable: Seq<bool>) -> Option<Seq<char>>
    decreases names.len(),
{
    if names.len() == 0 {
        None
    } else if usable[0] {
        Some(names[0])
    } else {
        first_usable(names.drop_first(), usable.drop_first())
    }
}

pub open spec fn joined(parts: Seq<Seq<char>>, sep: Seq<char>) -> Seq<char>
    decreases parts.len(),
{
    if parts.len() == 0 {
        Seq::empty()
    } else if parts.len() == 1 {
        parts[0]
    } else {
        joined(parts.drop_last(), sep) + sep + parts.last()
    }
}

pub open spec fn bad_request_text(tool: Seq<char>) -> Seq<char> {
    "BUF_SUDO is set to '"@ + tool + "' but that is not an executable."@
}

pub open spec fn no_tool_text(platform: Platform) -> Seq<char> {
    "No escalation tool found (tried "@ + joined(candidate_names(platform), ", "@)
        + "). Re-run bufusb as root, or set BUF_SUDO to the one you use."@
}

pub fn join_texts(parts: &Vec<String>, sep: &str) -> (r: String)
    ensures
        r@ == joined(fields::texts(parts@), sep@),
{
    let ghost all = fields::texts(parts@);
    let mut s = String::new();
    assert(all.take(0) =~= Seq::<Seq<char>>::empty());
    for i in 0..parts.len()
        invariant
            all == fields::texts(parts@),
            s@ == joined(all.take(i as int), sep@),
    {
        let ghost before = s@;
        if i > 0 {
            s.append(sep);
        }
        s.append(parts[i].as_str());
        proof {
            assert(all[i as int] == parts@[i as int]@);
            assert(all.take(i + 1).drop_last() =~= all.take(i as int));
            assert(s@ =~= joined(all.take(i + 1), sep@));
        }
    }
    assert(all.take(all.len() as int) =~= all);
    s
}

/// How to start the program again as root. `requested` is the tool that was asked for, with
/// whether it can be executed; `usable` says the same of each candidate.
pub fn unix_elevate(
    platform: Platform,
    requested: Option<(String, bool)>,
    usable: &Vec<bool>,
) -> (r: Elevation)
    requires
        requested is None ==> usable@.len() == candidate_names(platform).len(),
    ensures
        match requested {
            Some((tool, true)) => r matches Elevation::Relaunch { tool: t } && t == tool,
            Some((tool, false)) => r matches Elevation::GiveUp { message } && message@
                == bad_request_text(tool@),
            None => match first_usable(candidate_names(platform), usable@) {
                Some(name) => r matches Elevation::Relaunch { tool } && tool@ == name,
                None => r matches Elevation::GiveUp { message } && message@ == no_tool_text(
                    platform,
                ),
            },
        },
{
    match requested {
        Some((tool, works)) => {
            if works {
                return Elevation::Relaunch { tool };
            }
            let mut m = "BUF_SUDO is set to '".to_owned();
            m.append(tool.as_str());
            m.append("' but that is not an executable.");
            assert(m@ =~= bad_request_text(tool@));
            return Elevation::GiveUp { message: m };
        },
        None => {},
    }
    let names = candidates(platform);
    let ghost all = candidate_names(platform);
    assert(all.skip(0) =~= all);
    assert(usable@.skip(0) =~= usable@);
    for i in 0..names.len()
        invariant
            requested is None,
            all == candidate_names(platform),
            fields::texts(names@) == all,
            usable@.len() == all.len(),
            first_usable(all, usable@) == first_usable(all.skip(i as int), usable@.skip(i as int)),
    {
        proof {
            assert(all.skip(i as int)[0] == names@[i as int]@);
            assert(usable@.skip(i as int)[0] == usable@[i as int]);
            assert(all.skip(i as int).drop_first() =~= all.skip(i + 1));
            assert(usable@.skip(i as int).drop_first() =~= usable@.skip(i + 1));
        }
        if usable[i] {
            return Elevation::Relaunch { tool: names[i].clone() };
        }
    }
    let mut m = "No escalation tool found (tried ".to_owned();
    m.append(join_texts(&names, ", ").as_str());
    m.append("). Re-run bufusb as root, or set BUF_SUDO to the one you use.");
    assert(m@ =~= no_tool_text(platform));
    Elevation::GiveUp { message: m }
}

/// On Linux `sudo` is used wherever it can be, and `pkexec` only where it cannot.
pub proof fn sudo_comes_before_pkexec(usable: Seq<bool>)
    requires
        usable.len() == 2,
    ensures
        first_usable(candidate_names(Platform::Linux), usable) == if usable[0] {
            Some("sudo"@)
        } else if usable[1] {
            Some("pkexec"@)
        } else {
            None
        },
{
    reveal_with_fuel(first_usable, 3);
    let names = candidate_names(Platform::Linux);
    assert(names.drop_first().drop_first() =~= Seq::<Seq<char>>::empty());
}

/// The arguments with which Windows is asked to start the program again: the shell stays open
/// so that its output can be read.
pub open spec fn windows_params_text(exe: Seq<char>, args: Seq<Seq<char>>) -> Seq<char> {
    "/k \""@ + exe + "\" "@ + joined(args, " "@)
}

pub fn windows_elevate(exe: &str, args: &Vec<String>) -> (r: String)
    ensures
        r@ == windows_params_text(exe@, fields::texts(args@)),
{
    let mut s = "/k \"".to_owned();
    s.append(exe);
    s.append("\" ");
    s.append(join_texts(args, " ").as_str());
    assert(s@ =~= windows_params_text(exe@, fields::texts(args@)));
    s
}

} // verus!
