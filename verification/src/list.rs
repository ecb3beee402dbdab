//! The storage devices of the machine: which count, how they are described and in what order
//! they are shown.

use vstd::prelude::*;

use crate::fields;
use crate::human;
pub use crate::human::human_bytes;
use crate::numbers;
use crate::plist;
use crate::text;

verus! {

#[derive(Debug, Clone)]
pub struct UsbDevice {
    pub path: String,
    pub size_human: String,
    pub size_bytes: u64,
    pub model: String,
    pub removable: bool,
}

/// What a device looks like to a reader.
pub struct DeviceView {
    pub path: Seq<char>,
    pub size_human: Seq<char>,
    pub size_bytes: u64,
    pub model: Seq<char>,
    pub removable: bool,
}

impl View for UsbDevice {
    type V = DeviceView;

    open spec fn view(&self) -> DeviceView {
        DeviceView {
            path: self.path@,
            size_human: self.size_human@,
            size_bytes: self.size_bytes,
            model: self.model@,
            removable: self.removable,
        }
    }
}

pub open spec fn device_views(s: Seq<UsbDevice>) -> Seq<DeviceView> {
    s.map_values(|d: UsbDevice| d@)
}

/// A device whose size text tells its size.
pub open spec fn described(
    path: Seq<char>,
    size: u64,
    model: Seq<char>,
    removable: bool,
) -> DeviceView {
    DeviceView { path, size_human: human::human(size as nat), size_bytes: size, model, removable }
}

fn describe(path: String, size_bytes: u64, model: String, removable: bool) -> (d: UsbDevice)
    ensures
        d@ == described(path@, size_bytes, model@, removable),
{
    UsbDevice { path, size_human: human_bytes(size_bytes), size_bytes, model, removable }
}

pub open spec fn opt_text(s: Option<String>) -> Option<Seq<char>> {
    match s {
        Some(t) => Some(t@),
        None => None,
    }
}

// ---------------------------------------------------------------------------------------
// Linux: one directory of /sys/block per device
// ---------------------------------------------------------------------------------------

/// A directory under /sys/block: its name, and the contents of those of its files that could be
/// read.
pub struct SysfsEntry {
    pub name: String,
    pub ro: Option<String>,
    pub size: Option<String>,
    pub removable: Option<String>,
    pub vendor: Option<String>,
    pub model: Option<String>,
}

/// Names of devices that are no drives.
pub open spec fn is_pseudo(name: Seq<char>) -> bool {
    ||| text::starts_with(name, "loop"@)
    ||| text::starts_with(name, "ram"@)
    ||| text::starts_with(name, "dm-"@)
    ||| text::starts_with(name, "sr"@)
    ||| text::starts_with(name, "zram"@)
}

pub open spec fn flag_set(s: Option<Seq<char>>) -> bool {
    s matches Some(t) && numbers::parse_unsigned(text::trim(t), 255) == Some(1nat)
}

/// The number in a sysfs file.
pub open spec fn number_in(s: Option<Seq<char>>) -> Option<nat> {
    match s {
        Some(t) => numbers::parse_unsigned(text::trim(t), u64::MAX as nat),
        None => None,
    }
}

/// The trimmed text of a sysfs file, empty if there is none.
pub open spec fn text_in(s: Option<Seq<char>>) -> Seq<char> {
    match s {
        Some(t) => text::trim(t),
        None => Seq::empty(),
    }
}

/// Bytes in a count of 512-byte sectors; more than 64 bits hold counts as the most they hold.
pub open spec fn sector_bytes(n: nat) -> u64 {
    if n * 512 > u64::MAX {
        u64::MAX
    } else {
        (n * 512) as u64
    }
}

pub open spec fn sysfs_size(e: SysfsEntry) -> u64 {
    match number_in(opt_text(e.size)) {
        Some(n) => sector_bytes(n),
        None => 0,
    }
}

pub open spec fn sysfs_model(e: SysfsEntry) -> Seq<char> {
    let name = text::trim(
        text_in(opt_text(e.vendor)) + " "@ + text_in(opt_text(e.model)),
    );
    if name.len() == 0 {
        "Unknown"@
    } else {
        name
    }
}

/// Drives are listed unless they are read-only or empty.
pub open spec fn sysfs_listed(e: SysfsEntry) -> Option<DeviceView> {
    if is_pseudo(e.name@) || flag_set(opt_text(e.ro)) || sysfs_size(e) == 0 {
        None
    } else {
        Some(
            described(
                "/dev/"@ + e.name@,
                sysfs_size(e),
                sysfs_model(e),
                flag_set(opt_text(e.removable)),
            ),
        )
    }
}

/// Whether a sysfs file holds the number 1.
pub fn sysfs_flag(s: &Option<String>) -> (r: bool)
    ensures
        r == flag_set(opt_text(*s)),
{
    match s {
        Some(t) => {
            let v = text::trim_str(t.as_str());
            match numbers::parse_text(v.as_str(), 255) {
                Some(n) => n == 1,
                None => false,
            }
        },
        None => false,
    }
}

/// The number that a sysfs file holds.
pub fn sysfs_u64(s: &Option<String>) -> (r: Option<u64>)
    ensures
        match r {
            Some(n) => number_in(opt_text(*s)) == Some(n as nat),
            None => number_in(opt_text(*s)) is None,
        },
{
    match s {
        Some(t) => {
            let v = text::trim_str(t.as_str());
            numbers::parse_text(v.as_str(), u64::MAX)
        },
        None => None,
    }
}

/// The trimmed text of a sysfs file, empty if it could not be read.
pub fn sysfs_str(s: &Option<String>) -> (r: String)
    ensures
        r@ == text_in(opt_text(*s)),
{
    match s {
        Some(t) => text::trim_str(t.as_str()),
        None => String::new(),
    }
}

fn pseudo_name(name: &str) -> (r: bool)
    ensures
        r == is_pseudo(name@),
{
    text::str_starts_with(name, "loop") || text::str_starts_with(name, "ram")
        || text::str_starts_with(name, "dm-") || text::str_starts_with(name, "sr")
        || text::str_starts_with(name, "zram")
}

fn sysfs_device(e: &SysfsEntry) -> (r: Option<UsbDevice>)
    ensures
        match r {
            Some(d) => sysfs_listed(*e) == Some(d@),
            None => sysfs_listed(*e) is None,
        },
{
    if pseudo_name(e.name.as_str()) || sysfs_flag(&e.ro) {
        return None;
    }
    let size: u64 = match sysfs_u64(&e.size) {
        Some(n) => if n > u64::MAX / 512 {
            u64::MAX
        } else {
            n * 512
        },
        None => 0,
    };
    if size == 0 {
        return None;
    }
    let mut joined = sysfs_str(&e.vendor);
    joined.append(" ");
    joined.append(sysfs_str(&e.model).as_str());
    let trimmed = text::trim_str(joined.as_str());
    let model = if trimmed.as_str().is_empty() {
        "Unknown".to_owned()
    } else {
        trimmed
    };
    let mut path = "/dev/".to_owned();
    path.append(e.name.as_str());
    Some(describe(path, size, model, sysfs_flag(&e.removable)))
}

/// One of the links holds the word `usb`.
pub open spec fn on_usb(links: Seq<Option<String>>) -> bool {
    exists|i: int, at: int|
        0 <= i < links.len() && links[i] is Some && #[trigger] text::occurs_at(
            links[i]->0@,
            "usb"@,
            at,
        )
}

/// Whether one of the subsystem links found on the way up from a device leads to USB. `None`
/// stands for a directory without such a link.
pub fn is_usb_device(links: &[Option<String>]) -> (r: bool)
    ensures
        r == on_usb(links@),
{
    let usb = text::chars_of("usb");
    for i in 0..links.len()
        invariant
            usb@ == "usb"@,
            forall|k: int, at: int|
                0 <= k < i && links@[k] is Some ==> !#[trigger] text::occurs_at(
                    links@[k]->0@,
                    "usb"@,
                    at,
                ),
    {
        if let Some(link) = &links[i] {
            let chars = text::chars_of(link.as_str());
            if let Some(at) = text::find_chars(&chars, &usb) {
                assert(text::occurs_at(links@[i as int]->0@, "usb"@, at as int));
                return true;
            }
        }
    }
    false
}

// ---------------------------------------------------------------------------------------
// Windows: one record per physical disk
// ---------------------------------------------------------------------------------------

/// What Windows says of a physical disk; the size is there if the geometry could be read.
pub struct WindowsDisk {
    pub number: u32,
    pub size: Option<i64>,
    pub removable: bool,
    pub bus_type: u32,
    pub friendly_name: Option<String>,
    pub object_name: Option<String>,
}

pub const BUS_VIRTUAL: u32 = 14;

pub const BUS_SPACES: u32 = 16;

/// A signed number's 64 bits taken as an unsigned one.
pub open spec fn as_unsigned(n: i64) -> int {
    if n < 0 {
        n + 0x1_0000_0000_0000_0000
    } else {
        n as int
    }
}

pub open spec fn windows_size(d: WindowsDisk) -> u64 {
    match d.size {
        Some(n) => as_unsigned(n) as u64,
        None => 0,
    }
}

pub open spec fn windows_model(d: WindowsDisk) -> Seq<char> {
    match (opt_text(d.friendly_name), opt_text(d.object_name)) {
        (Some(s), _) => s,
        (None, Some(s)) => s,
        (None, None) => "Unknown"@,
    }
}

/// Disks are listed unless they are empty or made of software.
pub open spec fn windows_listed(d: WindowsDisk) -> Option<DeviceView> {
    if windows_size(d) == 0 || d.bus_type == BUS_VIRTUAL || d.bus_type == BUS_SPACES {
        None
    } else {
        Some(
            described(
                r"\\.\PhysicalDrive"@ + numbers::decimal(d.number as nat),
                windows_size(d),
                windows_model(d),
                d.removable,
            ),
        )
    }
}

fn windows_device(d: &WindowsDisk) -> (r: Option<UsbDevice>)
    ensures
        match r {
            Some(v) => windows_listed(*d) == Some(v@),
            None => windows_listed(*d) is None,
        },
{
    let size: u64 = match d.size {
        Some(n) => if n < 0 {
            u64::MAX - ((-(n + 1)) as u64)
        } else {
            n as u64
        },
        None => 0,
    };
    if size == 0 || d.bus_type == BUS_VIRTUAL || d.bus_type == BUS_SPACES {
        return None;
    }
    let model = match &d.friendly_name {
        Some(s) => s.clone(),
        None => match &d.object_name {
            Some(s) => s.clone(),
            None => "Unknown".to_owned(),
        },
    };
    let mut path = r"\\.\PhysicalDrive".to_owned();
    path.append(numbers::decimal_text(d.number as u64).as_str());
    Some(describe(path, size, model, d.removable))
}

// ---------------------------------------------------------------------------------------
// macOS: the output of diskutil
// ---------------------------------------------------------------------------------------

/// A disk that `diskutil list` names, and the property list that `diskutil info` gives for it.
pub struct DiskutilDisk {
    pub path: String,
    pub info: String,
}

/// The disk that a line of `diskutil list` introduces.
pub open spec fn disk_of_line(line: Seq<char>) -> Option<Seq<char>> {
    if text::starts_with(text::trim(line), "/dev/disk"@) {
        Some(fields::first_word(text::trim(line)))
    } else {
        None
    }
}

/// The disks that the given lines introduce.
pub open spec fn disks_of_lines(lines: Seq<Seq<char>>) -> Seq<Seq<char>>
    decreases lines.len(),
{
    if lines.len() == 0 {
        Seq::empty()
    } else {
        match disk_of_line(lines.last()) {
            Some(d) => disks_of_lines(lines.drop_last()).push(d),
            None => disks_of_lines(lines.drop_last()),
        }
    }
}

/// The paths of the disks that `diskutil list` names.
pub fn diskutil_paths(list: &str) -> (r: Vec<String>)
    ensures
        fields::texts(r@) == disks_of_lines(fields::lines(list@)),
{
    let chars = text::chars_of(list);
    let lines = fields::lines_of(&chars);
    let ghost all = fields::lines(list@);
    let prefix = text::chars_of("/dev/disk");
    let mut r: Vec<String> = Vec::new();
    assert(fields::texts(r@) =~= Seq::<Seq<char>>::empty());
    assert(all.take(0) =~= Seq::<Seq<char>>::empty());
    for i in 0..lines.len()
        invariant
            fields::views(lines@) == all,
            prefix@ == "/dev/disk"@,
            fields::texts(r@) == disks_of_lines(all.take(i as int)),
    {
        proof {
            assert(all.take(i + 1).drop_last() =~= all.take(i as int));
            assert(all[i as int] == lines@[i as int]@);
        }
        let trimmed = text::trim_chars(&lines[i]);
        if text::chars_start_with(&trimmed, &prefix) {
            let word = fields::first_word_of(&trimmed);
            let ghost before = r@;
            r.push(text::string_of(&word));
            assert(fields::texts(r@) =~= fields::texts(before).push(word@));
        }
    }
    assert(all.take(all.len() as int) =~= all);
    r
}

pub open spec fn diskutil_size(info: Seq<char>) -> u64 {
    match plist::integer_value(info, "TotalSize"@) {
        Some(n) => n as u64,
        None => 0,
    }
}

pub open spec fn diskutil_model(info: Seq<char>) -> Seq<char> {
    match (
        plist::string_value(info, "MediaName"@),
        plist::string_value(info, "IORegistryEntryName"@),
    ) {
        (Some(s), _) => s,
        (None, Some(s)) => s,
        (None, None) => "Unknown"@,
    }
}

pub open spec fn diskutil_removable(info: Seq<char>) -> bool {
    plist::bool_value(info, "Ejectable"@) == Some(true) || plist::bool_value(
        info,
        "RemovableMedia"@,
    ) == Some(true)
}

/// Disks are listed unless they are empty.
pub open spec fn diskutil_listed(d: DiskutilDisk) -> Option<DeviceView> {
    if d.path@.len() == 0 || diskutil_size(d.info@) == 0 {
        None
    } else {
        Some(
            described(
                d.path@,
                diskutil_size(d.info@),
                diskutil_model(d.info@),
                diskutil_removable(d.info@),
            ),
        )
    }
}

fn plist_true(info: &str, key: &str) -> (r: bool)
    ensures
        r == (plist::bool_value(info@, key@) == Some(true)),
{
    match plist::plist_bool(info, key) {
        Some(b) => b,
        None => false,
    }
}

fn diskutil_device(d: &DiskutilDisk) -> (r: Option<UsbDevice>)
    ensures
        match r {
            Some(v) => diskutil_listed(*d) == Some(v@),
            None => diskutil_listed(*d) is None,
        },
{
    let info = d.info.as_str();
    let size: u64 = match plist::plist_u64(info, "TotalSize") {
        Some(n) => n,
        None => 0,
    };
    if d.path.as_str().is_empty() || size == 0 {
        return None;
    }
    let removable = plist_true(info, "Ejectable") || plist_true(info, "RemovableMedia");
    let model = match plist::plist_str(info, "MediaName") {
        Some(s) => s,
        None => match plist::plist_str(info, "IORegistryEntryName") {
            Some(s) => s,
            None => "Unknown".to_owned(),
        },
    };
    Some(describe(d.path.clone(), size, model, removable))
}

// ---------------------------------------------------------------------------------------
// Order
// ---------------------------------------------------------------------------------------

/// Whether `a` comes before `b` when characters are compared one by one by their code points.
pub open spec fn text_before(a: Seq<char>, b: Seq<char>) -> bool
    decreases a.len(),
{
    if b.len() == 0 {
        false
    } else if a.len() == 0 {
        true
    } else if a[0] == b[0] {
        text_before(a.drop_first(), b.drop_first())
    } else {
        (a[0] as u32) < (b[0] as u32)
    }
}

/// Removable devices first, then by path.
pub open spec fn device_before(a: DeviceView, b: DeviceView) -> bool {
    if a.removable != b.removable {
        a.removable
    } else {
        text_before(a.path, b.path)
    }
}

/// The `i`-th device comes before the `j`-th: by the order of devices, and where that does not
/// tell them apart, in the order in which they were found.
pub open spec fn comes_first(s: Seq<DeviceView>, i: int, j: int) -> bool {
    device_before(s[i], s[j]) || (!device_before(s[j], s[i]) && i < j)
}

/// `order` names the first `n` positions of `s`, each once, sorted.
pub open spec fn is_order(s: Seq<DeviceView>, order: Seq<int>, n: int) -> bool {
    &&& order.len() == n
    &&& forall|k: int| 0 <= k < n ==> 0 <= #[trigger] order[k] < n
    &&& forall|a: int, b: int|
        0 <= a < b < n ==> comes_first(s, #[trigger] order[a], #[trigger] order[b])
}

/// `r` holds the devices of `s`, sorted.
pub open spec fn is_sorted_listing(s: Seq<DeviceView>, r: Seq<DeviceView>) -> bool {
    exists|order: Seq<int>| #[trigger]
        is_order(s, order, s.len() as int) && r == Seq::new(s.len(), |i: int| s[order[i]])
}

proof fn lemma_text_order(a: Seq<char>, b: Seq<char>)
    ensures
        !(text_before(a, b) && text_before(b, a)),
        !text_before(a, b) && !text_before(b, a) ==> a == b,
        !text_before(a, a),
    decreases a.len(),
{
    if a.len() > 0 {
        lemma_text_order(a.drop_first(), a.drop_first());
    }
    if a.len() > 0 && b.len() > 0 {
        lemma_code_points(a[0], b[0]);
        if a[0] == b[0] {
            lemma_text_order(a.drop_first(), b.drop_first());
            assert(a =~= seq![a[0]] + a.drop_first());
            assert(b =~= seq![b[0]] + b.drop_first());
        }
    } else if a.len() == 0 && b.len() == 0 {
        assert(a =~= b);
    }
}

proof fn lemma_code_points(a: char, b: char)
    ensures
        a as u32 == b as u32 ==> a == b,
{
}

proof fn lemma_text_transitive(a: Seq<char>, b: Seq<char>, c: Seq<char>)
    requires
        text_before(a, b),
        text_before(b, c),
    ensures
        text_before(a, c),
    decreases a.len(),
{
    if a.len() > 0 {
        lemma_code_points(a[0], b[0]);
        lemma_code_points(b[0], c[0]);
        if a[0] == b[0] && b[0] == c[0] {
            lemma_text_transitive(a.drop_first(), b.drop_first(), c.drop_first());
        }
    }
}

proof fn lemma_comes_first_transitive(s: Seq<DeviceView>, i: int, j: int, k: int)
    requires
        comes_first(s, i, j),
        comes_first(s, j, k),
    ensures
        comes_first(s, i, k),
{
    let (a, b, c) = (s[i].path, s[j].path, s[k].path);
    lemma_text_order(a, b);
    lemma_text_order(b, c);
    lemma_text_order(a, c);
    if text_before(a, b) && text_before(b, c) {
        lemma_text_transitive(a, b, c);
    }
}

fn is_text_before(a: &str, b: &str) -> (r: bool)
    ensures
        r == text_before(a@, b@),
{
    let x = text::chars_of(a);
    let y = text::chars_of(b);
    let (n, m): (usize, usize) = (x.len(), y.len());
    let mut i: usize = 0;
    assert(a@.skip(0) =~= a@);
    assert(b@.skip(0) =~= b@);
    while i < n && i < m
        invariant
            x@ == a@,
            y@ == b@,
            n == a@.len(),
            m == b@.len(),
            i <= n,
            i <= m,
            text_before(a@, b@) == text_before(a@.skip(i as int), b@.skip(i as int)),
        decreases n - i,
    {
        assert(a@.skip(i as int)[0] == a@[i as int]);
        assert(b@.skip(i as int)[0] == b@[i as int]);
        assert(a@.skip(i as int).drop_first() =~= a@.skip(i + 1));
        assert(b@.skip(i as int).drop_first() =~= b@.skip(i + 1));
        if x[i] != y[i] {
            return (x[i] as u32) < (y[i] as u32);
        }
        i = i + 1;
    }
    i < m
}

fn is_device_before(a: &UsbDevice, b: &UsbDevice) -> (r: bool)
    ensures
        r == device_before(a@, b@),
{
    if a.removable != b.removable {
        a.removable
    } else {
        is_text_before(a.path.as_str(), b.path.as_str())
    }
}

fn copy_device(d: &UsbDevice) -> (r: UsbDevice)
    ensures
        r@ == d@,
{
    UsbDevice {
        path: d.path.clone(),
        size_human: d.size_human.clone(),
        size_bytes: d.size_bytes,
        model: d.model.clone(),
        removable: d.removable,
    }
}

pub open spec fn positions(v: Seq<usize>) -> Seq<int> {
    v.map_values(|i: usize| i as int)
}

/// Puts position `n` into its place in the order of the first `n` positions.
fn insert_position(devices: &Vec<UsbDevice>, order: &mut Vec<usize>, n: usize)
    requires
        n < devices@.len(),
        is_order(device_views(devices@), positions(old(order)@), n as int),
    ensures
        is_order(device_views(devices@), positions(final(order)@), n + 1),
{
    let ghost s = device_views(devices@);
    let ghost before = positions(order@);
    let mut at: usize = n;
    assert forall|k: int| 0 <= k < n implies order@[k] == before[k] && before[k] < n by {}
    while at > 0 && is_device_before(&devices[n], &devices[order[at - 1]])
        invariant
            at <= n < devices@.len(),
            order@.len() == n,
            s == device_views(devices@),
            before == positions(order@),
            is_order(s, before, n as int),
            forall|k: int| 0 <= k < n ==> #[trigger] order@[k] == before[k] && order@[k] < n,
            forall|k: int| at <= k < n ==> comes_first(s, n as int, #[trigger] before[k]),
        decreases at,
    {
        at = at - 1;
    }
    order.insert(at, n);
    proof {
        let after = positions(order@);
        assert(after =~= before.insert(at as int, n as int));
        assert forall|k: int| 0 <= k < at implies comes_first(
            s,
            #[trigger] before[k],
            n as int,
        ) by {
            let last = before[at - 1];
            assert(0 <= last < n);
            assert(comes_first(s, last, n as int)) by {
                lemma_text_order(s[last].path, s[n as int].path);
            }
            if k < at - 1 {
                lemma_comes_first_transitive(s, before[k], last, n as int);
            }
        }
        assert forall|a: int, b: int| 0 <= a < b < n + 1 implies comes_first(
            s,
            #[trigger] after[a],
            #[trigger] after[b],
        ) by {
            let x = if a < at {
                before[a]
            } else if a == at {
                n as int
            } else {
                before[a - 1]
            };
            let y = if b < at {
                before[b]
            } else if b == at {
                n as int
            } else {
                before[b - 1]
            };
            assert(after[a] == x && after[b] == y);
        }
        assert forall|k: int| 0 <= k < n + 1 implies 0 <= #[trigger] after[k] < n + 1 by {
            if k < at {
                assert(after[k] == before[k]);
            } else if k > at {
                assert(after[k] == before[k - 1]);
            }
        }
    }
}

/// The devices with removable ones first, then by path.
pub fn sort_devices(devices: &Vec<UsbDevice>) -> (r: Vec<UsbDevice>)
    ensures
        is_sorted_listing(device_views(devices@), device_views(r@)),
{
    let ghost s = device_views(devices@);
    let mut order: Vec<usize> = Vec::new();
    for n in 0..devices.len()
        invariant
            s == device_views(devices@),
            is_order(s, positions(order@), n as int),
    {
        insert_position(devices, &mut order, n);
    }
    let ghost o = positions(order@);
    let mut r: Vec<UsbDevice> = Vec::new();
    for i in 0..order.len()
        invariant
            s == device_views(devices@),
            o == positions(order@),
            is_order(s, o, s.len() as int),
            s.len() == devices@.len(),
            device_views(r@) == Seq::new(i as nat, |k: int| s[o[k]]),
    {
        assert(o[i as int] == order@[i as int]);
        let ghost before = r@;
        r.push(copy_device(&devices[order[i]]));
        assert(device_views(r@) =~= device_views(before).push(s[o[i as int]]));
        assert(device_views(r@) =~= Seq::new((i + 1) as nat, |k: int| s[o[k]]));
    }
    assert(device_views(r@) =~= Seq::new(s.len(), |i: int| s[o[i]]));
    r
}

// ---------------------------------------------------------------------------------------
// Listing
// ---------------------------------------------------------------------------------------

/// What the platform's way of enumerating devices found.
pub enum Enumeration {
    Sysfs(Vec<SysfsEntry>),
    Windows(Vec<WindowsDisk>),
    Diskutil(Vec<DiskutilDisk>),
    Unsupported,
}

#[derive(Debug, Clone, Copy, PartialEq, Eq, Structural)]
pub enum ListError {
    Unsupported,
}

impl ListError {
    pub fn message(&self) -> (r: String)
        ensures
            r@ == "--list is not supported on this platform"@,
    {
        "--list is not supported on this platform".to_owned()
    }
}

/// Those that are there, in order.
pub open spec fn present(s: Seq<Option<DeviceView>>) -> Seq<DeviceView>
    decreases s.len(),
{
    if s.len() == 0 {
        Seq::empty()
    } else {
        match s.last() {
            Some(d) => present(s.drop_last()).push(d),
            None => present(s.drop_last()),
        }
    }
}

pub open spec fn found(e: Enumeration) -> Seq<Option<DeviceView>> {
    match e {
        Enumeration::Sysfs(v) => v@.map_values(|x: SysfsEntry| sysfs_listed(x)),
        Enumeration::Windows(v) => v@.map_values(|x: WindowsDisk| windows_listed(x)),
        Enumeration::Diskutil(v) => v@.map_values(|x: DiskutilDisk| diskutil_listed(x)),
        Enumeration::Unsupported => Seq::empty(),
    }
}

fn keep(
    devices: &mut Vec<UsbDevice>,
    d: Option<UsbDevice>,
    Ghost(all): Ghost<Seq<Option<DeviceView>>>,
    Ghost(i): Ghost<int>,
)
    requires
        0 <= i < all.len(),
        device_views(old(devices)@) == present(all.take(i)),
        match d {
            Some(v) => all[i] == Some(v@),
            None => all[i] is None,
        },
    ensures
        device_views(final(devices)@) == present(all.take(i + 1)),
{
    assert(all.take(i + 1).drop_last() =~= all.take(i));
    let ghost before = devices@;
    if let Some(v) = d {
        devices.push(v);
        assert(device_views(devices@) =~= device_views(before).push(v@));
    }
}

/// The storage devices, removable ones first, then by path.
pub fn list_drives(e: &Enumeration) -> (r: Result<Vec<UsbDevice>, ListError>)
    ensures
        match r {
            Ok(v) => e !is Unsupported && is_sorted_listing(present(found(*e)), device_views(v@)),
            Err(_) => e is Unsupported,
        },
{
    let ghost all = found(*e);
    let mut devices: Vec<UsbDevice> = Vec::new();
    proof {
        assert(all.take(0) =~= Seq::empty());
        assert(device_views(devices@) =~= Seq::empty());
    }
    match e {
        Enumeration::Sysfs(v) => {
            for i in 0..v.len()
                invariant
                    all == v@.map_values(|x: SysfsEntry| sysfs_listed(x)),
                    device_views(devices@) == present(all.take(i as int)),
            {
                let d = sysfs_device(&v[i]);
                keep(&mut devices, d, Ghost(all), Ghost(i as int));
            }
        },
        Enumeration::Windows(v) => {
            for i in 0..v.len()
                invariant
                    all == v@.map_values(|x: WindowsDisk| windows_listed(x)),
                    device_views(devices@) == present(all.take(i as int)),
            {
                let d = windows_device(&v[i]);
                keep(&mut devices, d, Ghost(all), Ghost(i as int));
            }
        },
        Enumeration::Diskutil(v) => {
            for i in 0..v.len()
                invariant
                    all == v@.map_values(|x: DiskutilDisk| diskutil_listed(x)),
                    device_views(devices@) == present(all.take(i as int)),
            {
                let d = diskutil_device(&v[i]);
                keep(&mut devices, d, Ghost(all), Ghost(i as int));
            }
        },
        Enumeration::Unsupported => {
            return Err(ListError::Unsupported);
        },
    }
    assert(all.take(all.len() as int) =~= all);
    Ok(sort_devices(&devices))
}

// ---------------------------------------------------------------------------------------
// What a listing promises
// ---------------------------------------------------------------------------------------

/// In a listing no device that cannot be removed stands before one that can, and devices that
/// agree in that stand in the order of their paths.
pub proof fn removable_devices_come_first(
    s: Seq<DeviceView>,
    r: Seq<DeviceView>,
    i: int,
    j: int,
)
    requires
        is_sorted_listing(s, r),
        0 <= i < j < r.len(),
    ensures
        r[j].removable ==> r[i].removable,
        r[i].removable == r[j].removable ==> !text_before(r[j].path, r[i].path),
{
    let order = choose|order: Seq<int>| #[trigger]
        is_order(s, order, s.len() as int) && r == Seq::new(s.len(), |i: int| s[order[i]]);
    assert(comes_first(s, order[i], order[j]));
    lemma_text_order(r[i].path, r[j].path);
}

/// No position comes before itself.
proof fn lemma_comes_first_strict(s: Seq<DeviceView>, i: int)
    ensures
        !comes_first(s, i, i),
{
    lemma_text_order(s[i].path, s[i].path);
}

/// An order of the first `n` positions names each of them.
proof fn lemma_order_is_complete(s: Seq<DeviceView>, order: Seq<int>, n: int, x: int)
    requires
        is_order(s, order, n),
        0 <= x < n,
    ensures
        order.contains(x),
{
    assert forall|a: int, b: int|
        0 <= a < order.len() && 0 <= b < order.len() && a != b implies order[a] != order[b] by {
        if a < b {
            assert(comes_first(s, order[a], order[b]));
        } else {
            assert(comes_first(s, order[b], order[a]));
        }
        lemma_comes_first_strict(s, order[a]);
    }
    assert(order.no_duplicates());
    order.unique_seq_to_set();
    let all = vstd::set_lib::set_int_range(0, n);
    vstd::set_lib::lemma_int_range(0, n);
    assert(order.to_set().subset_of(all)) by {
        assert forall|y: int| order.to_set().contains(y) implies all.contains(y) by {
            let k = order.index_of(y);
            assert(order[k] == y);
        }
    }
    vstd::set_lib::lemma_subset_equality(order.to_set(), all);
    assert(order.to_set().contains(x));
}

proof fn lemma_orders_agree(s: Seq<DeviceView>, a: Seq<int>, b: Seq<int>, n: int, upto: int)
    requires
        is_order(s, a, n),
        is_order(s, b, n),
        0 <= upto <= n,
    ensures
        forall|k: int| 0 <= k < upto ==> a[k] == b[k],
    decreases upto,
{
    if upto > 0 {
        let k = upto - 1;
        lemma_orders_agree(s, a, b, n, k);
        assert(0 <= a[k] < n && 0 <= b[k] < n);
        lemma_order_is_complete(s, b, n, a[k]);
        lemma_order_is_complete(s, a, n, b[k]);
        let i = b.index_of(a[k]);
        let j = a.index_of(b[k]);
        assert(b[i] == a[k] && a[j] == b[k]);
        if a[k] != b[k] {
            if i < k {
                assert(comes_first(s, a[i], a[k]));
                lemma_comes_first_strict(s, a[k]);
            } else if j < k {
                assert(comes_first(s, b[j], b[k]));
                lemma_comes_first_strict(s, b[k]);
            } else {
                assert(comes_first(s, b[k], b[i]));
                assert(comes_first(s, a[k], a[j]));
                lemma_comes_first_transitive(s, a[k], b[k], a[k]);
                lemma_comes_first_strict(s, a[k]);
            }
        }
    }
}

/// There is only one way to list the devices that were found.
pub proof fn sorted_listing_is_unique(
    s: Seq<DeviceView>,
    r1: Seq<DeviceView>,
    r2: Seq<DeviceView>,
)
    requires
        is_sorted_listing(s, r1),
        is_sorted_listing(s, r2),
    ensures
        r1 == r2,
{
    let n = s.len() as int;
    let a = choose|order: Seq<int>| #[trigger]
        is_order(s, order, n) && r1 == Seq::new(s.len(), |i: int| s[order[i]]);
    let b = choose|order: Seq<int>| #[trigger]
        is_order(s, order, n) && r2 == Seq::new(s.len(), |i: int| s[order[i]]);
    lemma_orders_agree(s, a, b, n, n);
    assert(r1 =~= r2);
}

/// A listing holds every device that was found, each as often as it was found.
pub proof fn every_device_is_listed(s: Seq<DeviceView>, r: Seq<DeviceView>)
    requires
        is_sorted_listing(s, r),
    ensures
        r.to_multiset() == s.to_multiset(),
{
    let n = s.len() as int;
    let order = choose|order: Seq<int>| #[trigger]
        is_order(s, order, n) && r == Seq::new(s.len(), |i: int| s[order[i]]);
    assert forall|a: int, b: int| 0 <= a < b < n implies order[a] != order[b] by {
        assert(comes_first(s, order[a], order[b]));
        lemma_text_order(s[order[a]].path, s[order[a]].path);
    }
    lemma_reordered(s, order, r);
}

/// Naming each position of `s` once and taking the elements in that order keeps each element
/// as often as it was there.
proof fn lemma_reordered(s: Seq<DeviceView>, order: Seq<int>, r: Seq<DeviceView>)
    requires
        order.len() == s.len(),
        r == Seq::new(s.len(), |i: int| s[order[i]]),
        forall|k: int| 0 <= k < s.len() ==> 0 <= #[trigger] order[k] < s.len(),
        forall|a: int, b: int| 0 <= a < b < s.len() ==> order[a] != order[b],
    ensures
        r.to_multiset() == s.to_multiset(),
    decreases s.len(),
{
    broadcast use vstd::seq_lib::group_to_multiset_ensures;

    if s.len() == 0 {
        assert(r =~= s);
    } else {
        let n = s.len() - 1;
        let at = order[n];
        let s2 = s.remove(at);
        let order2 = Seq::new(
            n as nat,
            |k: int|
                if order[k] > at {
                    order[k] - 1
                } else {
                    order[k]
                },
        );
        let r2 = r.drop_last();
        assert forall|k: int| 0 <= k < n implies s2[order2[k]] == s[order[k]] by {
            assert(order[k] != order[n]);
        }
        assert(r2 =~= Seq::new(s2.len(), |i: int| s2[order2[i]]));
        assert forall|k: int| 0 <= k < n implies 0 <= #[trigger] order2[k] < n by {
            assert(0 <= order[k] <= n && order[k] != order[n]);
        }
        assert forall|a: int, b: int| 0 <= a < b < n implies order2[a] != order2[b] by {
            assert(order[a] != order[b] && order[a] != order[n] && order[b] != order[n]);
        }
        lemma_reordered(s2, order2, r2);
        assert(r =~= r2.push(s[at]));
        vstd::seq_lib::to_multiset_remove(s, at);
        assert(s.contains(s[at]));
        assert(s.to_multiset().count(s[at]) > 0);
        assert(r.to_multiset() =~= s.to_multiset());
    }
}

} // verus!
