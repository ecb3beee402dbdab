//! Walking the tree of a mounted image: what is counted, what is copied, and what is left out.

use vstd::prelude::*;

use crate::bytes;
use crate::fields;
use crate::text;

verus! {

// ---------------------------------------------------------------------------------------
// EFI boot loaders
// ---------------------------------------------------------------------------------------

/// Whether a path, given by its components, is that of an EFI boot loader:
/// `EFI/BOOT/BOOT*.EFI`, in whatever case.
pub open spec fn is_loader(comps: Seq<Seq<char>>) -> bool {
    &&& comps.len() == 3
    &&& text::lower(comps[0]) == "efi"@
    &&& text::lower(comps[1]) == "boot"@
    &&& text::starts_with(text::lower(comps[2]), "boot"@)
    &&& text::ends_with(text::lower(comps[2]), ".efi"@)
}

fn lowered(s: &String) -> (r: Vec<char>)
    ensures
        r@ == text::lower(s@),
{
    let v = text::chars_of(s.as_str());
    text::lower_chars(&v)
}

pub fn is_efi_boot_comps(comps: &[String]) -> (r: bool)
    ensures
        r == is_loader(fields::texts(comps@)),
{
    if comps.len() != 3 {
        return false;
    }
    proof {
        assert(fields::texts(comps@)[0] == comps@[0]@);
        assert(fields::texts(comps@)[1] == comps@[1]@);
        assert(fields::texts(comps@)[2] == comps@[2]@);
    }
    let efi = text::chars_of("efi");
    let boot = text::chars_of("boot");
    let ext = text::chars_of(".efi");
    let dir = lowered(&comps[0]);
    let sub = lowered(&comps[1]);
    let file = lowered(&comps[2]);
    text::chars_eq(&dir, &efi) && text::chars_eq(&sub, &boot) && text::chars_start_with(
        &file,
        &boot,
    ) && text::chars_end_with(&file, &ext)
}

// ---------------------------------------------------------------------------------------
// Scanning
// ---------------------------------------------------------------------------------------

/// What an image's tree holds.
#[derive(Debug, Clone, Copy, PartialEq, Eq, Structural)]
pub struct Scan {
    pub total_bytes: u64,
    pub max_file: u64,
    pub file_count: u64,
    pub has_efi_boot: bool,
}

/// A file of the tree: its path below the root, by components, and its length.
pub struct FoundFile {
    pub comps: Vec<String>,
    pub len: u64,
}

pub open spec fn total_length(files: Seq<FoundFile>) -> nat
    decreases files.len(),
{
    if files.len() == 0 {
        0
    } else {
        total_length(files.drop_last()) + files.last().len as nat
    }
}

pub open spec fn is_scan_of(s: Scan, files: Seq<FoundFile>) -> bool {
    &&& s.total_bytes == total_length(files)
    &&& s.file_count == files.len()
    &&& forall|i: int| 0 <= i < files.len() ==> (#[trigger] files[i]).len <= s.max_file
    &&& s.max_file == 0 || exists|i: int|
        0 <= i < files.len() && (#[trigger] files[i]).len == s.max_file
    &&& s.has_efi_boot == exists|i: int|
        0 <= i < files.len() && is_loader(fields::texts((#[trigger] files[i]).comps@))
}

proof fn lemma_total_prefix(files: Seq<FoundFile>, i: int)
    requires
        0 <= i <= files.len(),
    ensures
        total_length(files.take(i)) <= total_length(files),
    decreases files.len(),
{
    if i == files.len() {
        assert(files.take(i) =~= files);
    } else {
        lemma_total_prefix(files.drop_last(), i);
        assert(files.drop_last().take(i) =~= files.take(i));
    }
}

/// Sums up the files of a tree.
pub fn scan_tree(files: &Vec<FoundFile>) -> (s: Scan)
    requires
        total_length(files@) <= u64::MAX,
    ensures
        is_scan_of(s, files@),
{
    let mut s = Scan { total_bytes: 0, max_file: 0, file_count: 0, has_efi_boot: false };
    for i in 0..files.len()
        invariant
            total_length(files@) <= u64::MAX,
            is_scan_of(s, files@.take(i as int)),
    {
        let ghost before = files@.take(i as int);
        let ghost after = files@.take(i + 1);
        proof {
            assert(after.drop_last() =~= before);
            lemma_total_prefix(files@, i + 1);
        }
        let f = &files[i];
        let ghost old_s = s;
        s.total_bytes = s.total_bytes + f.len;
        s.file_count = s.file_count + 1;
        if f.len > s.max_file {
            s.max_file = f.len;
        }
        if !s.has_efi_boot && is_efi_boot_comps(f.comps.as_slice()) {
            s.has_efi_boot = true;
        }
        proof {
            assert(after[i as int] == files@[i as int]);
            assert forall|k: int| 0 <= k < after.len() implies (#[trigger] after[k]).len
                <= s.max_file by {
                if k < i {
                    assert(before[k] == after[k]);
                }
            }
            if s.max_file == old_s.max_file && s.max_file != 0 {
                let k = choose|k: int| 0 <= k < before.len() && (#[trigger] before[k]).len
                    == old_s.max_file;
                assert(after[k].len == s.max_file);
            }
            if old_s.has_efi_boot {
                let k = choose|k: int|
                    0 <= k < before.len() && is_loader(
                        fields::texts((#[trigger] before[k]).comps@),
                    );
                assert(is_loader(fields::texts(after[k].comps@)));
            } else {
                assert forall|k: int| 0 <= k < i implies !is_loader(
                    fields::texts((#[trigger] after[k]).comps@),
                ) by {
                    assert(before[k] == after[k]);
                }
            }
        }
    }
    assert(files@.take(files@.len() as int) =~= files@);
    s
}

// ---------------------------------------------------------------------------------------
// Walking
// ---------------------------------------------------------------------------------------

/// What a directory entry is, itself and not what it may link to.
#[derive(Debug, Clone, Copy, PartialEq, Eq, Structural)]
pub enum EntryKind {
    Directory,
    Symlink,
    File,
    /// The kind could not be determined.
    Unknown,
}

#[derive(Debug, Clone, Copy, PartialEq, Eq, Structural)]
pub enum ScanAction {
    Ignore,
    Descend,
    Count,
}

pub open spec fn scan_action_for(kind: EntryKind) -> ScanAction {
    match kind {
        EntryKind::Unknown => ScanAction::Ignore,
        EntryKind::Directory => ScanAction::Descend,
        _ => ScanAction::Count,
    }
}

/// What a scan does with an entry. A link counts as the file that it leads to and is never
/// followed into a directory, so no loop of links is ever entered.
pub fn scan_action(kind: EntryKind) -> (a: ScanAction)
    ensures
        a == scan_action_for(kind),
{
    match kind {
        EntryKind::Unknown => ScanAction::Ignore,
        EntryKind::Directory => ScanAction::Descend,
        EntryKind::Symlink => ScanAction::Count,
        EntryKind::File => ScanAction::Count,
    }
}

#[derive(Debug, Clone, Copy, PartialEq, Eq, Structural)]
pub enum CopyAction {
    Ignore,
    /// Create the directory on the target and go on with what it holds.
    Descend,
    /// A link to a directory is left out, and counted as skipped.
    SkipLinkedDirectory,
    Copy,
}

pub open spec fn copy_action_for(
    kind: EntryKind,
    leads_to_directory: bool,
    depth: nat,
) -> CopyAction {
    if kind is Unknown || depth == 0 {
        CopyAction::Ignore
    } else if kind is Directory {
        CopyAction::Descend
    } else if kind is Symlink && leads_to_directory {
        CopyAction::SkipLinkedDirectory
    } else {
        CopyAction::Copy
    }
}

/// What copying does with an entry `depth` components below the root.
pub fn copy_action(kind: EntryKind, leads_to_directory: bool, depth: usize) -> (a: CopyAction)
    ensures
        a == copy_action_for(kind, leads_to_directory, depth as nat),
{
    match kind {
        EntryKind::Unknown => CopyAction::Ignore,
        _ => if depth == 0 {
            CopyAction::Ignore
        } else {
            match kind {
                EntryKind::Directory => CopyAction::Descend,
                EntryKind::Symlink => if leads_to_directory {
                    CopyAction::SkipLinkedDirectory
                } else {
                    CopyAction::Copy
                },
                _ => CopyAction::Copy,
            }
        },
    }
}

/// Only real directories are entered: what a link leads to never is.
pub proof fn links_are_never_entered(kind: EntryKind, leads_to_directory: bool, depth: nat)
    ensures
        scan_action_for(kind) is Descend ==> kind is Directory,
        copy_action_for(kind, leads_to_directory, depth) is Descend ==> kind is Directory,
{
}

#[derive(Debug, Clone, Copy, PartialEq, Eq, Structural)]
pub enum OpenStep {
    Copy,
    /// Open the file within the image that the entry leads to instead.
    TryTarget,
    /// The file is left out, and counted as skipped.
    Skip,
}

/// What copying does with a file once it was tried to open it: `target_opened` says, once that
/// was tried too, whether the file within the image that it leads to could be opened.
pub fn after_open(opened: bool, target_opened: Option<bool>) -> (s: OpenStep)
    ensures
        s == if opened {
            OpenStep::Copy
        } else {
            match target_opened {
                None => OpenStep::TryTarget,
                Some(true) => OpenStep::Copy,
                Some(false) => OpenStep::Skip,
            }
        },
{
    if opened {
        return OpenStep::Copy;
    }
    match target_opened {
        None => OpenStep::TryTarget,
        Some(true) => OpenStep::Copy,
        Some(false) => OpenStep::Skip,
    }
}

/// Entries of a FAT directory that stand for itself and its parent.
pub fn is_dot_entry(name: &str) -> (r: bool)
    ensures
        r == (name@ == "."@ || name@ == ".."@),
{
    text::str_eq(name, ".") || text::str_eq(name, "..")
}

// ---------------------------------------------------------------------------------------
// Links
// ---------------------------------------------------------------------------------------

/// The components of a path, each by its bytes.
pub open spec fn names(v: Seq<Vec<u8>>) -> Seq<Seq<u8>> {
    v.map_values(|x: Vec<u8>| x@)
}

fn push_components(out: &mut Vec<Vec<u8>>, v: &Vec<Vec<u8>>)
    ensures
        names(final(out)@) == names(old(out)@) + names(v@),
{
    let ghost before = names(out@);
    for i in 0..v.len()
        invariant
            names(out@) == before + names(v@).take(i as int),
    {
        let ghost last = out@;
        let mut name: Vec<u8> = Vec::new();
        bytes::push_all(&mut name, v[i].as_slice());
        assert(name@ =~= v@[i as int]@);
        out.push(name);
        assert(names(out@) =~= names(last).push(v@[i as int]@));
        assert(names(out@) =~= before + names(v@).take(i + 1));
    }
    assert(names(v@).take(v@.len() as int) =~= names(v@));
}

/// Where a link of the image leads: an absolute target counts from the image's root, another
/// one from the directory that holds the link. A path is given by the bytes of its components.
pub fn link_target(
    root: &Vec<Vec<u8>>,
    parent: &Vec<Vec<u8>>,
    target: &Vec<Vec<u8>>,
    absolute: bool,
) -> (r: Vec<Vec<u8>>)
    ensures
        names(r@) == (if absolute {
            names(root@)
        } else {
            names(parent@)
        }) + names(target@),
{
    let mut out: Vec<Vec<u8>> = Vec::new();
    assert(names(out@) =~= Seq::<Seq<u8>>::empty());
    if absolute {
        push_components(&mut out, root);
        assert(names(out@) =~= names(root@));
    } else {
        push_components(&mut out, parent);
        assert(names(out@) =~= names(parent@));
    }
    push_components(&mut out, target);
    out
}

pub open spec fn lies_inside(path: Seq<Seq<u8>>, root: Seq<Seq<u8>>) -> bool {
    root.len() <= path.len() && path.take(root.len() as int) == root
}

/// Whether a path lies below the root, both given by the components of their real paths.
pub fn is_inside(path: &Vec<Vec<u8>>, root: &Vec<Vec<u8>>) -> (r: bool)
    ensures
        r == lies_inside(names(path@), names(root@)),
{
    let ghost (p, q) = (names(path@), names(root@));
    if root.len() > path.len() {
        return false;
    }
    for i in 0..root.len()
        invariant
            p == names(path@),
            q == names(root@),
            root@.len() <= path@.len(),
            forall|k: int| 0 <= k < i ==> p[k] == q[k],
    {
        if !bytes::bytes_eq(path[i].as_slice(), root[i].as_slice()) {
            assert(p.take(q.len() as int)[i as int] != q[i as int]);
            return false;
        }
    }
    assert(p.take(q.len() as int) =~= q);
    true
}

/// The file that a link leads to, if it lies within the image: `found` is the real path of the
/// link's target and `root` that of the mount point, where they could be determined.
pub fn resolve_symlink(found: Option<Vec<Vec<u8>>>, root: Option<Vec<Vec<u8>>>) -> (r: Option<
    Vec<Vec<u8>>,
>)
    ensures
        match r {
            Some(p) => {
                &&& found == Some(p)
                &&& root matches Some(q) && lies_inside(names(p@), names(q@))
            },
            None => {
                ||| found is None
                ||| root is None
                ||| !lies_inside(names(found->0@), names(root->0@))
            },
        },
{
    match (found, root) {
        (Some(p), Some(q)) => if is_inside(&p, &q) {
            Some(p)
        } else {
            None
        },
        _ => None,
    }
}

} // verus!
