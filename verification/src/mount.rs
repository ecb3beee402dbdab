//! Mounting images, and what is told when a target cannot be freed.

use vstd::prelude::*;

use crate::fields;
use crate::numbers;

verus! {

/// An image that is mounted.
#[derive(Debug)]
pub struct MountGuard {
    mount_point: String,
    source: String,
}

/// The mount point and the image.
pub struct MountView {
    pub mount_point: Seq<char>,
    pub source: Seq<char>,
}

impl View for MountGuard {
    type V = MountView;

    closed spec fn view(&self) -> MountView {
        MountView { mount_point: self.mount_point@, source: self.source@ }
    }
}

impl MountGuard {
    pub fn new(mount_point: String, source: String) -> (g: MountGuard)
        ensures
            g@ == (MountView { mount_point: mount_point@, source: source@ }),
    {
        MountGuard { mount_point, source }
    }

    pub fn mount_point(&self) -> (p: &str)
        ensures
            p@ == self@.mount_point,
    {
        self.mount_point.as_str()
    }

    /// The script that unmounts the image on Windows.
    pub fn dismount_script(&self) -> (r: String)
        ensures
            r@ == "Dismount-DiskImage -ImagePath '"@ + self@.source + "' | Out-Null"@,
    {
        let mut s = "Dismount-DiskImage -ImagePath '".to_owned();
        s.append(self.source.as_str());
        s.append("' | Out-Null");
        assert(s@ =~= "Dismount-DiskImage -ImagePath '"@ + self@.source + "' | Out-Null"@);
        s
    }
}

pub open spec fn mount_script_text(source: Seq<char>) -> Seq<char> {
    "$ErrorActionPreference='Stop'; $v = (Mount-DiskImage -ImagePath '"@ + source
        + "' -PassThru | Get-Volume).DriveLetter; Write-Output $v"@
}

/// The script that mounts an image on Windows and prints its drive letter.
pub fn mount_script(source: &str) -> (r: String)
    ensures
        r@ == mount_script_text(source@),
{
    let mut s = "$ErrorActionPreference='Stop'; $v = (Mount-DiskImage -ImagePath '".to_owned();
    s.append(source);
    s.append("' -PassThru | Get-Volume).DriveLetter; Write-Output $v");
    assert(s@ =~= mount_script_text(source@));
    s
}

/// What is mounted at a directory.
#[derive(Debug, Clone, Copy, PartialEq, Eq, Structural)]
pub enum Mounted {
    Iso,
    Ntfs,
}

pub open spec fn mount_dir_name(what: Mounted, pid: u32, nanos: u128) -> Seq<char> {
    (match what {
        Mounted::Iso => "bufusb-iso-"@,
        Mounted::Ntfs => "bufusb-ntfs-"@,
    }) + numbers::decimal(pid as nat) + "-"@ + numbers::decimal(nanos as nat)
}

/// The name of a directory to mount at, made from the process and the time so that no other
/// run uses it.
pub fn unique_mountpoint(what: Mounted, pid: u32, nanos: u128) -> (r: String)
    ensures
        r@ == mount_dir_name(what, pid, nanos),
{
    let mut s = match what {
        Mounted::Iso => "bufusb-iso-".to_owned(),
        Mounted::Ntfs => "bufusb-ntfs-".to_owned(),
    };
    s.append(numbers::decimal_text(pid as u64).as_str());
    s.append("-");
    s.append(numbers::wide_decimal_text(nanos).as_str());
    assert(s@ =~= mount_dir_name(what, pid, nanos));
    s
}

/// Two runs share a directory only if they are the same process at the same time.
pub proof fn mountpoints_differ(what: Mounted, pid: u32, nanos: u128, pid2: u32, nanos2: u128)
    requires
        mount_dir_name(what, pid, nanos) == mount_dir_name(what, pid2, nanos2),
    ensures
        pid == pid2,
        nanos == nanos2,
{
    reveal_strlit("-");
    let prefix = match what {
        Mounted::Iso => "bufusb-iso-"@,
        Mounted::Ntfs => "bufusb-ntfs-"@,
    };
    let (a, b) = (numbers::decimal(pid as nat), numbers::decimal(nanos as nat));
    let (c, d) = (numbers::decimal(pid2 as nat), numbers::decimal(nanos2 as nat));
    let (x, y) = (mount_dir_name(what, pid, nanos), mount_dir_name(what, pid2, nanos2));
    numbers::lemma_decimal(pid as nat);
    numbers::lemma_decimal(nanos as nat);
    numbers::lemma_decimal(pid2 as nat);
    numbers::lemma_decimal(nanos2 as nat);
    let p = prefix.len() as int;
    assert(x[p + a.len()] == '-');
    assert(y[p + c.len()] == '-');
    if a.len() < c.len() {
        assert(y[p + a.len()] == c[a.len() as int]);
    } else if c.len() < a.len() {
        assert(x[p + c.len()] == a[c.len() as int]);
    }
    assert(a =~= x.subrange(p, p + a.len()));
    assert(c =~= y.subrange(p, p + c.len()));
    assert(b =~= x.skip(p + a.len() + 1));
    assert(d =~= y.skip(p + c.len() + 1));
}

/// The options with which an NTFS volume is mounted, in the order in which they are tried: the
/// kernel's own driver first, then the one in user space.
pub open spec fn ntfs_options(attempt: nat) -> Option<Seq<Seq<char>>> {
    if attempt == 0 {
        Some(seq!["-t"@, "ntfs3"@, "-o"@, "rw"@])
    } else if attempt == 1 {
        Some(seq!["-t"@, "ntfs-3g"@])
    } else {
        None
    }
}

pub fn ntfs_mount_options(attempt: usize) -> (r: Option<Vec<String>>)
    ensures
        match r {
            Some(v) => ntfs_options(attempt as nat) == Some(fields::texts(v@)),
            None => ntfs_options(attempt as nat) is None,
        },
{
    let mut v: Vec<String> = Vec::new();
    v.push("-t".to_owned());
    if attempt == 0 {
        v.push("ntfs3".to_owned());
        v.push("-o".to_owned());
        v.push("rw".to_owned());
        assert(fields::texts(v@) =~= seq!["-t"@, "ntfs3"@, "-o"@, "rw"@]);
        Some(v)
    } else if attempt == 1 {
        v.push("ntfs-3g".to_owned());
        assert(fields::texts(v@) =~= seq!["-t"@, "ntfs-3g"@]);
        Some(v)
    } else {
        None
    }
}

// ---------------------------------------------------------------------------------------
// What is said
// ---------------------------------------------------------------------------------------

pub open spec fn busy_text(node: Seq<char>) -> Seq<char> {
    "Fatal: "@ + node
        + " is mounted and could not be unmounted (still in use? a file manager window or open file will hold it). Close whatever is using it and retry."@
}

/// A partition of the target that cannot be unmounted stands against writing to it.
pub fn busy_message(node: &str) -> (r: String)
    ensures
        r@ == busy_text(node@),
{
    let mut s = "Fatal: ".to_owned();
    s.append(node);
    s.append(
        " is mounted and could not be unmounted (still in use? a file manager window or open file will hold it). Close whatever is using it and retry.",
    );
    assert(s@ =~= busy_text(node@));
    s
}

pub open spec fn busy_disk_text(target: Seq<char>) -> Seq<char> {
    "Fatal: diskutil unmountDisk "@ + target
        + " failed; a volume on the target is still in use. Close whatever is using it and retry."@
}

/// The same of a whole disk, on macOS.
pub fn busy_disk_message(target: &str) -> (r: String)
    ensures
        r@ == busy_disk_text(target@),
{
    let mut s = "Fatal: diskutil unmountDisk ".to_owned();
    s.append(target);
    s.append(
        " failed; a volume on the target is still in use. Close whatever is using it and retry.",
    );
    assert(s@ =~= busy_disk_text(target@));
    s
}

pub open spec fn unmountable_text(node: Seq<char>) -> Seq<char> {
    "Fatal: Could not mount "@ + node
        + " as NTFS (tried ntfs3 and ntfs-3g). Is one of them installed?"@
}

/// A new NTFS volume that no driver could mount.
pub fn unmountable_message(node: &str) -> (r: String)
    ensures
        r@ == unmountable_text(node@),
{
    let mut s = "Fatal: Could not mount ".to_owned();
    s.append(node);
    s.append(" as NTFS (tried ntfs3 and ntfs-3g). Is one of them installed?");
    assert(s@ =~= unmountable_text(node@));
    s
}

pub open spec fn no_node_text(node: Seq<char>) -> Seq<char> {
    "Partition node "@ + node + " did not appear after writing the GPT"@
}

/// A partition whose device node never appeared.
pub fn no_node_message(node: &str) -> (r: String)
    ensures
        r@ == no_node_text(node@),
{
    let mut s = "Partition node ".to_owned();
    s.append(node);
    s.append(" did not appear after writing the GPT");
    assert(s@ =~= no_node_text(node@));
    s
}

} // verus!
