//! The course of a walk over the tree of a mounted image: which directory is next, and how many
//! files were left out.

use vstd::prelude::*;

use crate::fields;
use crate::tree;
use crate::tree::{CopyAction, EntryKind, OpenStep, ScanAction};

verus! {

/// A walk. Directories go by numbers, in the order in which they are found; the root is 0.
pub struct TreeWalk {
    pending: Vec<u64>,
    found: u64,
    skipped: u64,
}

/// The directories that are still to be read, the next one last; how many were found; and how
/// many files were left out.
#[verifier::ext_equal]
pub struct WalkState {
    pub pending: Seq<nat>,
    pub found: nat,
    pub skipped: nat,
}

/// What a walk comes across.
pub enum WalkEvent {
    /// A directory was read, and the next one is wanted.
    Next,
    /// An entry, while scanning.
    Scanned { kind: EntryKind },
    /// An entry, while copying.
    Met { kind: EntryKind, leads_to_directory: bool, depth: nat },
    /// It was tried to open a file that is to be copied.
    Tried { opened: bool, target_opened: Option<bool> },
}

/// A file is left out: a link to a directory, or one that cannot be opened.
pub open spec fn leaves_out(e: WalkEvent) -> bool {
    match e {
        WalkEvent::Met { kind, leads_to_directory, depth } => tree::copy_action_for(
            kind,
            leads_to_directory,
            depth,
        ) is SkipLinkedDirectory,
        WalkEvent::Tried { opened, target_opened } => !opened && target_opened == Some(false),
        _ => false,
    }
}

/// A directory is found, which is to be read too.
pub open spec fn finds(e: WalkEvent) -> bool {
    match e {
        WalkEvent::Scanned { kind } => tree::scan_action_for(kind) is Descend,
        WalkEvent::Met { kind, leads_to_directory, depth } => tree::copy_action_for(
            kind,
            leads_to_directory,
            depth,
        ) is Descend,
        _ => false,
    }
}

impl WalkState {
    pub open spec fn start() -> WalkState {
        WalkState { pending: seq![0], found: 1, skipped: 0 }
    }

    pub open spec fn after(self, e: WalkEvent) -> WalkState {
        WalkState {
            pending: if finds(e) {
                self.pending.push(self.found)
            } else if e is Next && self.pending.len() > 0 {
                self.pending.drop_last()
            } else {
                self.pending
            },
            found: if finds(e) {
                self.found + 1
            } else {
                self.found
            },
            skipped: if leaves_out(e) {
                self.skipped + 1
            } else {
                self.skipped
            },
        }
    }
}

/// What a scan does with an entry.
#[derive(Debug, Clone, Copy, PartialEq, Eq, Structural)]
pub enum ScanStep {
    Ignore,
    /// A directory, which will come up under this number.
    Enter { dir: u64 },
    Count,
}

/// What copying does with an entry.
#[derive(Debug, Clone, Copy, PartialEq, Eq, Structural)]
pub enum CopyStep {
    Ignore,
    /// Create the directory on the target; it will come up under this number.
    Enter { dir: u64 },
    SkipLinkedDirectory,
    Copy,
}

impl TreeWalk {
    pub closed spec fn view(&self) -> WalkState {
        WalkState {
            pending: Seq::new(self.pending@.len(), |i: int| self.pending@[i] as nat),
            found: self.found as nat,
            skipped: self.skipped as nat,
        }
    }

    /// Starts a walk at the root.
    pub fn new() -> (w: TreeWalk)
        ensures
            w@ == WalkState::start(),
    {
        let mut pending: Vec<u64> = Vec::new();
        pending.push(0);
        let w = TreeWalk { pending, found: 1, skipped: 0 };
        assert(w@ =~= WalkState::start());
        w
    }

    /// The directory to read next; none at the end of the walk.
    pub fn next_dir(&mut self) -> (r: Option<u64>)
        ensures
            final(self)@ == old(self)@.after(WalkEvent::Next),
            match r {
                Some(d) => old(self)@.pending.len() > 0 && d == old(self)@.pending.last(),
                None => old(self)@.pending.len() == 0,
            },
    {
        let r = self.pending.pop();
        assert(self@ =~= old(self)@.after(WalkEvent::Next));
        r
    }

    /// Whether both counts can go on.
    pub fn can_count(&self) -> (r: bool)
        ensures
            r == (self@.found < u64::MAX && self@.skipped < u64::MAX),
    {
        self.found < u64::MAX && self.skipped < u64::MAX
    }

    fn enter(&mut self) -> (dir: u64)
        requires
            old(self)@.found < u64::MAX,
        ensures
            dir == old(self)@.found,
            final(self)@ == (WalkState {
                pending: old(self)@.pending.push(old(self)@.found),
                found: old(self)@.found + 1,
                skipped: old(self)@.skipped,
            }),
    {
        let dir: u64 = self.found;
        self.pending.push(dir);
        self.found = dir + 1;
        assert(self@.pending =~= old(self)@.pending.push(old(self)@.found));
        dir
    }

    /// What to do with an entry while scanning.
    pub fn scan_entry(&mut self, kind: EntryKind) -> (s: ScanStep)
        requires
            old(self)@.found < u64::MAX,
        ensures
            final(self)@ == old(self)@.after(WalkEvent::Scanned { kind }),
            s == match tree::scan_action_for(kind) {
                ScanAction::Ignore => ScanStep::Ignore,
                ScanAction::Descend => ScanStep::Enter { dir: old(self)@.found as u64 },
                ScanAction::Count => ScanStep::Count,
            },
    {
        match tree::scan_action(kind) {
            ScanAction::Ignore => ScanStep::Ignore,
            ScanAction::Descend => ScanStep::Enter { dir: self.enter() },
            ScanAction::Count => ScanStep::Count,
        }
    }

    /// What to do with an entry `depth` components below the root while copying.
    pub fn copy_entry(
        &mut self,
        kind: EntryKind,
        leads_to_directory: bool,
        depth: usize,
    ) -> (s: CopyStep)
        requires
            old(self)@.found < u64::MAX,
            old(self)@.skipped < u64::MAX,
        ensures
            final(self)@ == old(self)@.after(
                WalkEvent::Met { kind, leads_to_directory, depth: depth as nat },
            ),
            s == match tree::copy_action_for(kind, leads_to_directory, depth as nat) {
                CopyAction::Ignore => CopyStep::Ignore,
                CopyAction::Descend => CopyStep::Enter { dir: old(self)@.found as u64 },
                CopyAction::SkipLinkedDirectory => CopyStep::SkipLinkedDirectory,
                CopyAction::Copy => CopyStep::Copy,
            },
    {
        match tree::copy_action(kind, leads_to_directory, depth) {
            CopyAction::Ignore => CopyStep::Ignore,
            CopyAction::Descend => CopyStep::Enter { dir: self.enter() },
            CopyAction::SkipLinkedDirectory => {
                self.skipped = self.skipped + 1;
                CopyStep::SkipLinkedDirectory
            },
            CopyAction::Copy => CopyStep::Copy,
        }
    }

    /// What to do with a file once it was tried to open it.
    pub fn after_open(&mut self, opened: bool, target_opened: Option<bool>) -> (s: OpenStep)
        requires
            old(self)@.skipped < u64::MAX,
        ensures
            final(self)@ == old(self)@.after(WalkEvent::Tried { opened, target_opened }),
            s == if opened {
                OpenStep::Copy
            } else {
                match target_opened {
                    None => OpenStep::TryTarget,
                    Some(true) => OpenStep::Copy,
                    Some(false) => OpenStep::Skip,
                }
            },
    {
        let s = tree::after_open(opened, target_opened);
        match s {
            OpenStep::Skip => {
                self.skipped = self.skipped + 1;
            },
            _ => {},
        }
        s
    }

    /// How many files were left out.
    pub fn skipped(&self) -> (n: u64)
        ensures
            n == self@.skipped,
    {
        self.skipped
    }
}

// ---------------------------------------------------------------------------------------
// Whole walks
// ---------------------------------------------------------------------------------------

/// Where a walk stands after what it came across.
pub open spec fn walked(events: Seq<WalkEvent>) -> WalkState
    decreases events.len(),
{
    if events.len() == 0 {
        WalkState::start()
    } else {
        walked(events.drop_last()).after(events.last())
    }
}

/// The directories that a walk has given out for reading, in that order.
pub open spec fn given_out(events: Seq<WalkEvent>) -> Seq<nat>
    decreases events.len(),
{
    if events.len() == 0 {
        Seq::empty()
    } else {
        let before = walked(events.drop_last()).pending;
        if events.last() is Next && before.len() > 0 {
            given_out(events.drop_last()).push(before.last())
        } else {
            given_out(events.drop_last())
        }
    }
}

/// No directory is read twice, and none that was read is still to be read.
pub proof fn directories_are_read_once(events: Seq<WalkEvent>)
    ensures
        (given_out(events) + walked(events).pending).no_duplicates(),
        forall|i: int|
            0 <= i < given_out(events).len() ==> given_out(events)[i] < walked(events).found,
        forall|i: int|
            0 <= i < walked(events).pending.len() ==> walked(events).pending[i] < walked(
                events,
            ).found,
    decreases events.len(),
{
    let (out, s) = (given_out(events), walked(events));
    if events.len() > 0 {
        let e = events.last();
        let (out0, s0) = (given_out(events.drop_last()), walked(events.drop_last()));
        directories_are_read_once(events.drop_last());
        if finds(e) {
            assert(out + s.pending =~= (out0 + s0.pending).push(s0.found));
            assert forall|i: int| 0 <= i < (out0 + s0.pending).len() implies (out0
                + s0.pending)[i] < s0.found by {
                if i < out0.len() {
                    assert((out0 + s0.pending)[i] == out0[i]);
                } else {
                    assert((out0 + s0.pending)[i] == s0.pending[i - out0.len()]);
                }
            }
        } else if e is Next && s0.pending.len() > 0 {
            assert forall|i: int, j: int|
                0 <= i < j < (out + s.pending).len() implies (out + s.pending)[i] != (out
                + s.pending)[j] by {
                let last = out0.len() + s.pending.len();
                let k = place_before(out0.len() as int, last as int, i);
                let l = place_before(out0.len() as int, last as int, j);
                assert((out + s.pending)[i] == (out0 + s0.pending)[k]);
                assert((out + s.pending)[j] == (out0 + s0.pending)[l]);
            }
        } else {
            assert(out + s.pending =~= out0 + s0.pending);
        }
    }
}

/// Where the directory at place `i`, among those read and then those still to be read, stood
/// before the last one in line was read.
spec fn place_before(read: int, last: int, i: int) -> int {
    if i < read {
        i
    } else if i == read {
        last
    } else {
        i - 1
    }
}

/// Every directory that was found is either read or still to be read.
pub proof fn no_directory_is_lost(events: Seq<WalkEvent>, d: nat)
    requires
        d < walked(events).found,
    ensures
        given_out(events).contains(d) || walked(events).pending.contains(d),
    decreases events.len(),
{
    let (out, s) = (given_out(events), walked(events));
    if events.len() == 0 {
        assert(s.pending[0] == d);
    } else {
        let e = events.last();
        let (out0, s0) = (given_out(events.drop_last()), walked(events.drop_last()));
        if finds(e) && d == s0.found {
            assert(s.pending[s0.pending.len() as int] == d);
        } else {
            no_directory_is_lost(events.drop_last(), d);
            if out0.contains(d) {
                let i = choose|i: int| 0 <= i < out0.len() && out0[i] == d;
                assert(out[i] == d);
            } else {
                let i = choose|i: int| 0 <= i < s0.pending.len() && s0.pending[i] == d;
                if i < s.pending.len() {
                    assert(s.pending[i] == d);
                } else {
                    assert(out[out0.len() as int] == d);
                }
            }
        }
    }
}

/// At its end a walk has read every directory that was found.
pub proof fn finished_walks_have_read_everything(events: Seq<WalkEvent>, d: nat)
    requires
        walked(events).pending.len() == 0,
    ensures
        given_out(events).contains(d) <==> d < walked(events).found,
{
    directories_are_read_once(events);
    if d < walked(events).found {
        no_directory_is_lost(events, d);
    }
}

/// What a walk counts as skipped are the files that it left out, each once.
pub proof fn skipped_files_are_those_left_out(events: Seq<WalkEvent>)
    ensures
        walked(events).skipped == events.filter(|e: WalkEvent| leaves_out(e)).len(),
    decreases events.len(),
{
    reveal(Seq::filter);
    if events.len() > 0 {
        skipped_files_are_those_left_out(events.drop_last());
    }
}

// ---------------------------------------------------------------------------------------
// The embedded boot image
// ---------------------------------------------------------------------------------------

/// A walk over the embedded boot image, directory within directory.
pub struct BootWalk {
    prefix: Vec<String>,
    found_boot: bool,
}

/// The path of the directory that is being read, and whether a boot loader came by.
#[verifier::ext_equal]
pub struct BootState {
    pub prefix: Seq<Seq<char>>,
    pub found_boot: bool,
}

/// What a walk over the embedded boot image comes across.
pub enum BootEvent {
    Entry { name: Seq<char>, is_dir: bool },
    /// The directory was read to its end.
    Leave,
}

/// Whether an entry stands for the directory itself or its parent.
pub open spec fn is_dots(name: Seq<char>) -> bool {
    name == "."@ || name == ".."@
}

impl BootState {
    pub open spec fn start() -> BootState {
        BootState { prefix: Seq::empty(), found_boot: false }
    }

    /// The path of the file that is to be stored on the target, if any is.
    pub open spec fn stores(self, e: BootEvent) -> Option<Seq<Seq<char>>> {
        match e {
            BootEvent::Entry { name, is_dir } => if is_dots(name) || is_dir {
                None
            } else {
                Some(self.prefix.push(name))
            },
            BootEvent::Leave => None,
        }
    }

    pub open spec fn after(self, e: BootEvent) -> BootState {
        BootState {
            prefix: match e {
                BootEvent::Entry { name, is_dir } => if is_dir && !is_dots(name) {
                    self.prefix.push(name)
                } else {
                    self.prefix
                },
                BootEvent::Leave => self.prefix.drop_last(),
            },
            found_boot: self.found_boot || (self.stores(e) matches Some(path) && tree::is_loader(
                path,
            )),
        }
    }
}

/// What to do with an entry of the embedded boot image.
#[derive(Debug, Clone, PartialEq, Eq)]
pub enum BootStep {
    Ignore,
    /// Read this directory to its end, then leave it.
    Enter,
    /// Store the file on the target under this path.
    Store { path: Vec<String> },
}

impl BootWalk {
    pub closed spec fn view(&self) -> BootState {
        BootState { prefix: fields::texts(self.prefix@), found_boot: self.found_boot }
    }

    /// Starts a walk at the root of the boot image.
    pub fn new() -> (w: BootWalk)
        ensures
            w@ == BootState::start(),
    {
        let w = BootWalk { prefix: Vec::new(), found_boot: false };
        assert(w@ =~= BootState::start());
        w
    }

    fn path_to(&self, name: String) -> (path: Vec<String>)
        ensures
            fields::texts(path@) == self@.prefix.push(name@),
    {
        let mut path: Vec<String> = Vec::new();
        let ghost all = fields::texts(self.prefix@);
        assert(fields::texts(path@) =~= all.take(0));
        for i in 0..self.prefix.len()
            invariant
                all == fields::texts(self.prefix@),
                fields::texts(path@) == all.take(i as int),
        {
            let ghost last = path@;
            path.push(self.prefix[i].clone());
            assert(fields::texts(path@) =~= fields::texts(last).push(self.prefix@[i as int]@));
            assert(fields::texts(path@) =~= all.take(i + 1));
        }
        let ghost last = path@;
        assert(all.take(all.len() as int) =~= all);
        path.push(name);
        assert(fields::texts(path@) =~= fields::texts(last).push(name@));
        path
    }

    /// What to do with an entry of the directory that is being read.
    pub fn entry(&mut self, name: String, is_dir: bool) -> (s: BootStep)
        ensures
            final(self)@ == old(self)@.after(BootEvent::Entry { name: name@, is_dir }),
            match s {
                BootStep::Ignore => is_dots(name@),
                BootStep::Enter => !is_dots(name@) && is_dir,
                BootStep::Store { path } => old(self)@.stores(
                    BootEvent::Entry { name: name@, is_dir },
                ) == Some(fields::texts(path@)),
            },
    {
        if tree::is_dot_entry(name.as_str()) {
            return BootStep::Ignore;
        }
        if is_dir {
            let ghost text = name@;
            self.prefix.push(name);
            assert(self@.prefix =~= old(self)@.prefix.push(text));
            return BootStep::Enter;
        }
        let path = self.path_to(name);
        if tree::is_efi_boot_comps(path.as_slice()) {
            self.found_boot = true;
        }
        BootStep::Store { path }
    }

    /// Goes back to the directory that holds the one that was read to its end.
    pub fn leave(&mut self)
        requires
            old(self)@.prefix.len() > 0,
        ensures
            final(self)@ == old(self)@.after(BootEvent::Leave),
    {
        self.prefix.pop();
        assert(self@.prefix =~= old(self)@.prefix.drop_last());
    }

    /// Whether a boot loader came by.
    pub fn found_boot(&self) -> (r: bool)
        ensures
            r == self@.found_boot,
    {
        self.found_boot
    }
}

/// Where a walk over the boot image stands after what it came across.
pub open spec fn boot_walked(events: Seq<BootEvent>) -> BootState
    decreases events.len(),
{
    if events.len() == 0 {
        BootState::start()
    } else {
        boot_walked(events.drop_last()).after(events.last())
    }
}

/// The paths of the files that a walk over the boot image stores, in that order.
pub open spec fn stored(events: Seq<BootEvent>) -> Seq<Seq<Seq<char>>>
    decreases events.len(),
{
    if events.len() == 0 {
        Seq::empty()
    } else {
        match boot_walked(events.drop_last()).stores(events.last()) {
            Some(path) => stored(events.drop_last()).push(path),
            None => stored(events.drop_last()),
        }
    }
}

/// A boot loader was found exactly if one is among the files that were stored.
pub proof fn loaders_found_are_loaders_stored(events: Seq<BootEvent>)
    ensures
        boot_walked(events).found_boot <==> exists|i: int|
            0 <= i < stored(events).len() && tree::is_loader(#[trigger] stored(events)[i]),
    decreases events.len(),
{
    if events.len() > 0 {
        let (before, now) = (stored(events.drop_last()), stored(events));
        loaders_found_are_loaders_stored(events.drop_last());
        if boot_walked(events.drop_last()).found_boot {
            let i = choose|i: int|
                0 <= i < before.len() && tree::is_loader(#[trigger] before[i]);
            assert(tree::is_loader(now[i]));
        } else if boot_walked(events).found_boot {
            assert(tree::is_loader(now[before.len() as int]));
        } else {
            assert forall|i: int| 0 <= i < now.len() implies !tree::is_loader(
                #[trigger] now[i],
            ) by {
                if i < before.len() {
                    assert(now[i] == before[i]);
                }
            }
        }
    }
}

/// Leaving a directory leads back to the one from which it was entered.
pub proof fn leaving_undoes_entering(s: BootState, name: Seq<char>)
    requires
        !is_dots(name),
    ensures
        s.after(BootEvent::Entry { name, is_dir: true }).after(BootEvent::Leave) == s,
{
    assert(s.prefix.push(name).drop_last() =~= s.prefix);
}

} // verus!
