//! What holds of every listing: that each drive is in it with the size, model and path that the
//! system gave, and that nothing else is.

use vstd::prelude::*;

use crate::human;
use crate::layout_laws;
use crate::list;
use crate::list::{DeviceView, DiskutilDisk, Enumeration, SysfsEntry, WindowsDisk};
use crate::numbers;
use crate::plist;
use crate::table;
use crate::table::Widths;
use crate::text;
use crate::text_laws;

verus! {

// ---------------------------------------------------------------------------------------
// Property lists
// ---------------------------------------------------------------------------------------

/// The element that names a key.
pub open spec fn key_element(key: Seq<char>) -> Seq<char> {
    "<key>"@ + key + "</key>"@
}

/// The value under a key is what stands between the next tags of its kind behind the key.
pub proof fn values_stand_behind_their_key(
    before: Seq<char>,
    key: Seq<char>,
    gap: Seq<char>,
    body: Seq<char>,
    behind: Seq<char>,
    o: Seq<char>,
    c: Seq<char>,
)
    requires
        text_laws::not_before(
            before + key_element(key) + (gap + o + (body + c + behind)),
            key_element(key),
            before.len() as int,
        ),
        text_laws::not_before(gap + o + (body + c + behind), o, gap.len() as int),
        text_laws::not_before(body + c + behind, c, body.len() as int),
    ensures
        ({
            let xml = before + key_element(key) + (gap + o + (body + c + behind));
            &&& o == "<integer>"@ && c == "</integer>"@ ==> plist::integer_value(xml, key)
                == numbers::parse_unsigned(text::trim(body), 0xFFFF_FFFF_FFFF_FFFF)
            &&& o == "<string>"@ && c == "</string>"@ ==> plist::string_value(xml, key) == Some(
                text::trim(body),
            )
        }),
{
    let inner = body + c + behind;
    let rest = gap + o + inner;
    text_laws::first_place_cuts_a_text(before, key_element(key), rest, Seq::empty());
    text_laws::first_place_cuts_a_text(gap, o, inner, Seq::empty());
    text_laws::first_place_cuts_a_text(body, c, behind, Seq::empty());
}

/// A list that does not name a key has no value under it.
pub proof fn keys_that_are_not_there_have_no_value(xml: Seq<char>, key: Seq<char>)
    requires
        text_laws::not_before(xml, key_element(key), xml.len() as int + 1),
    ensures
        plist::integer_value(xml, key) is None,
        plist::string_value(xml, key) is None,
        plist::bool_value(xml, key) is None,
{
    text_laws::first_place_cuts_a_text(Seq::empty(), key_element(key), Seq::empty(), xml);
}

/// A truth value is the element that follows its key, white space apart.
pub proof fn truth_values_follow_their_key(
    before: Seq<char>,
    key: Seq<char>,
    gap: Seq<char>,
    rest: Seq<char>,
)
    requires
        text_laws::all_white(gap),
        rest.len() > 0 ==> !text::is_white(rest[0]),
        text_laws::not_before(
            before + key_element(key) + (gap + rest),
            key_element(key),
            before.len() as int,
        ),
    ensures
        ({
            let v = plist::bool_value(before + key_element(key) + (gap + rest), key);
            &&& v == Some(true) <==> text::starts_with(rest, "<true/>"@)
            &&& v == Some(false) <==> text::starts_with(rest, "<false/>"@)
        }),
{
    reveal_strlit("<true/>");
    reveal_strlit("<false/>");
    text_laws::first_place_cuts_a_text(before, key_element(key), gap + rest, Seq::empty());
    text_laws::leading_white_space_goes(gap, rest);
    if text::starts_with(rest, "<true/>"@) && text::starts_with(rest, "<false/>"@) {
        assert(rest.take(7)[1] == 't');
        assert(rest.take(8)[1] == 'f');
    }
}

// ---------------------------------------------------------------------------------------
// One device
// ---------------------------------------------------------------------------------------

/// The size of a disk is the number that stands in its property list. A disk is left out only
/// where there is no such number, or it is 0, or the disk has no path.
pub proof fn disks_are_listed_with_their_size(d: DiskutilDisk)
    ensures
        match (list::diskutil_listed(d), plist::integer_value(d.info@, "TotalSize"@)) {
            (Some(v), Some(n)) => {
                &&& 0 < n <= 0xFFFF_FFFF_FFFF_FFFF
                &&& v.size_bytes == n
                &&& v.size_human == human::human(n)
                &&& d.path@.len() > 0
                &&& v.path == d.path@
            },
            (Some(_), None) => false,
            (None, Some(n)) => n == 0 || d.path@.len() == 0,
            (None, None) => true,
        },
{
}

/// The model of a disk is its media name, else the name in the registry, else unknown; it is
/// removable if it can be ejected or its media can be removed.
pub proof fn disks_are_described_by_their_list(d: DiskutilDisk, v: DeviceView)
    requires
        list::diskutil_listed(d) == Some(v),
    ensures
        plist::string_value(d.info@, "MediaName"@) matches Some(s) ==> v.model == s,
        plist::string_value(d.info@, "MediaName"@) is None ==> match plist::string_value(
            d.info@,
            "IORegistryEntryName"@,
        ) {
            Some(s) => v.model == s,
            None => v.model == "Unknown"@,
        },
        v.removable <==> plist::bool_value(d.info@, "Ejectable"@) == Some(true)
            || plist::bool_value(d.info@, "RemovableMedia"@) == Some(true),
{
}

/// The name of a drive, as opposed to that of a loop device, RAM disk, mapping or optical drive.
pub open spec fn names_a_drive(name: Seq<char>) -> bool {
    &&& !text::starts_with(name, "loop"@)
    &&& !text::starts_with(name, "ram"@)
    &&& !text::starts_with(name, "dm-"@)
    &&& !text::starts_with(name, "sr"@)
    &&& !text::starts_with(name, "zram"@)
}

/// The number in a file, white space around it apart.
pub open spec fn reads(file: Option<String>, n: nat, max: nat) -> bool {
    file matches Some(s) && numbers::parse_unsigned(text::trim(s@), max) == Some(n)
}

/// Drives are listed unless they are read-only or empty: under `/dev`, with 512 bytes for each
/// sector that the system counts, as far as 64 bits go.
pub proof fn drives_are_listed_with_their_size(e: SysfsEntry, n: nat)
    requires
        reads(e.size, n, 0xFFFF_FFFF_FFFF_FFFF),
    ensures
        list::sysfs_listed(e) is Some <==> names_a_drive(e.name@) && !reads(e.ro, 1, 255) && n > 0,
        list::sysfs_listed(e) matches Some(v) ==> {
            &&& v.path == "/dev/"@ + e.name@
            &&& 512 * n <= 0xFFFF_FFFF_FFFF_FFFF ==> v.size_bytes == 512 * n
            &&& 512 * n > 0xFFFF_FFFF_FFFF_FFFF ==> v.size_bytes == 0xFFFF_FFFF_FFFF_FFFF
            &&& v.size_human == human::human(v.size_bytes as nat)
            &&& v.removable <==> reads(e.removable, 1, 255)
        },
{
}

/// A drive whose size cannot be read is not listed.
pub proof fn drives_without_a_size_are_not_listed(e: SysfsEntry)
    requires
        forall|n: nat| !#[trigger] reads(e.size, n, 0xFFFF_FFFF_FFFF_FFFF),
    ensures
        list::sysfs_listed(e) is None,
{
    match list::number_in(list::opt_text(e.size)) {
        Some(n) => {
            assert(reads(e.size, n, 0xFFFF_FFFF_FFFF_FFFF));
        },
        None => {},
    }
}

/// The text of a file that may not be there, white space at its ends apart.
pub open spec fn content(file: Option<String>) -> Seq<char> {
    match file {
        Some(s) => text::trim(s@),
        None => Seq::empty(),
    }
}

/// A drive is called by its vendor and its model, by the one that is there, or unknown.
pub proof fn drives_are_called_by_vendor_and_model(e: SysfsEntry, v: DeviceView)
    requires
        list::sysfs_listed(e) == Some(v),
    ensures
        content(e.vendor).len() > 0 && content(e.model).len() > 0 ==> v.model == content(e.vendor)
            + seq![' '] + content(e.model),
        content(e.vendor).len() > 0 && content(e.model).len() == 0 ==> v.model == content(
            e.vendor,
        ),
        content(e.vendor).len() == 0 && content(e.model).len() > 0 ==> v.model == content(e.model),
        content(e.vendor).len() == 0 && content(e.model).len() == 0 ==> v.model == "Unknown"@,
{
    reveal_strlit(" ");
    reveal_strlit("Unknown");
    assert(" "@ =~= seq![' ']);
    let (a, b) = (content(e.vendor), content(e.model));
    let space = seq![' '];
    let none = Seq::<char>::empty();
    if e.vendor is Some {
        text::trim_is_idempotent(e.vendor->0@);
    }
    if e.model is Some {
        text::trim_is_idempotent(e.model->0@);
    }
    let all = a + space + b;
    if a.len() > 0 && b.len() > 0 {
        assert(none + all + none =~= all);
        text_laws::trimming_leaves_the_middle(none, all, none);
    } else if a.len() > 0 {
        assert(none + a + space =~= all);
        text_laws::trimming_leaves_the_middle(none, a, space);
    } else if b.len() > 0 {
        assert(space + b + none =~= all);
        text_laws::trimming_leaves_the_middle(space, b, none);
    } else {
        assert(space + none + none =~= all);
        text_laws::trimming_leaves_the_middle(space, none, none);
    }
}

/// Physical disks are listed with the size that their geometry gives and under the name by which
/// Windows opens them, unless they are empty or made of software.
pub proof fn windows_disks_are_listed_with_their_size(d: WindowsDisk)
    ensures
        list::windows_listed(d) is Some <==> d.size is Some && d.size->0 != 0 && d.bus_type != 14
            && d.bus_type != 16,
        list::windows_listed(d) matches Some(v) ==> {
            &&& d.size->0 > 0 ==> v.size_bytes == d.size->0
            &&& d.size->0 < 0 ==> v.size_bytes == d.size->0 + 0x1_0000_0000_0000_0000
            &&& v.size_human == human::human(v.size_bytes as nat)
            &&& v.path == r"\\.\PhysicalDrive"@ + numbers::decimal(d.number as nat)
            &&& v.removable == d.removable
            &&& d.friendly_name matches Some(s) ==> v.model == s@
            &&& d.friendly_name is None ==> match d.object_name {
                Some(s) => v.model == s@,
                None => v.model == "Unknown"@,
            }
        },
{
}

/// `diskutil list` introduces a disk by a line that starts with its path; every such line gives
/// one, in order, and no other line does.
pub proof fn disks_are_introduced_by_their_path(
    lines: Seq<Seq<char>>,
    left: Seq<char>,
    name: Seq<char>,
    rest: Seq<char>,
    other: Seq<char>,
)
    requires
        text_laws::all_white(left),
        forall|i: int| 0 <= i < name.len() ==> !text::is_white(#[trigger] name[i]),
        rest.len() > 0 ==> text::is_white(rest[0]),
        !text::starts_with(text::trim(other), "/dev/disk"@),
    ensures
        list::disks_of_lines(Seq::empty()) == Seq::<Seq<char>>::empty(),
        list::disks_of_lines(lines.push(left + ("/dev/disk"@ + name) + rest))
            == list::disks_of_lines(lines).push("/dev/disk"@ + name),
        list::disks_of_lines(lines.push(other)) == list::disks_of_lines(lines),
{
    reveal_strlit("/dev/disk");
    let word = "/dev/disk"@ + name;
    let line = left + word + rest;
    assert(lines.push(line).drop_last() =~= lines);
    assert(lines.push(other).drop_last() =~= lines);
    assert forall|i: int| 0 <= i < word.len() implies !text::is_white(#[trigger] word[i]) by {
        if i >= 9 {
            assert(word[i] == name[i - 9]);
        }
    }
    // What trimming leaves of the line still starts with the word.
    assert(line =~= left + (word + rest));
    text_laws::leading_white_space_goes(left, word + rest);
    let t = text::trim(line);
    let back = lemma_trimmed_word(word, rest);
    assert(t == word + back);
    text_laws::starts_and_ends_are_parts(t, "/dev/disk"@, name + back);
    assert("/dev/disk"@ + (name + back) =~= t);
    let none = Seq::<char>::empty();
    assert(none + word + back =~= t);
    text_laws::first_words_stand_between_white_space(none, word, back);
}

/// Trimming the end of a word and what follows it leaves the word, and of the rest a part that
/// still starts with white space.
proof fn lemma_trimmed_word(word: Seq<char>, rest: Seq<char>) -> (back: Seq<char>)
    requires
        word.len() > 0,
        forall|i: int| 0 <= i < word.len() ==> !text::is_white(#[trigger] word[i]),
        rest.len() > 0 ==> text::is_white(rest[0]),
    ensures
        text::trim_end(word + rest) == word + back,
        back.len() > 0 ==> text::is_white(back[0]),
    decreases rest.len(),
{
    let s = word + rest;
    if rest.len() == 0 {
        assert(s =~= word);
        assert(!text::is_white(word[word.len() - 1]));
        rest
    } else if text::is_white(rest.last()) {
        assert(s.drop_last() =~= word + rest.drop_last());
        lemma_trimmed_word(word, rest.drop_last())
    } else {
        rest
    }
}

// ---------------------------------------------------------------------------------------
// The whole listing
// ---------------------------------------------------------------------------------------

/// Each entry of an enumeration is looked at, by the rules of its platform.
pub proof fn every_entry_is_looked_at(e: Enumeration, i: int)
    requires
        match e {
            Enumeration::Sysfs(v) => 0 <= i < v@.len(),
            Enumeration::Windows(v) => 0 <= i < v@.len(),
            Enumeration::Diskutil(v) => 0 <= i < v@.len(),
            Enumeration::Unsupported => false,
        },
    ensures
        match e {
            Enumeration::Sysfs(v) => list::found(e).len() == v@.len() && list::found(e)[i]
                == list::sysfs_listed(v@[i]),
            Enumeration::Windows(v) => list::found(e).len() == v@.len() && list::found(e)[i]
                == list::windows_listed(v@[i]),
            Enumeration::Diskutil(v) => list::found(e).len() == v@.len() && list::found(e)[i]
                == list::diskutil_listed(v@[i]),
            Enumeration::Unsupported => true,
        },
{
}

/// A listing holds each device that was found, as often as it was found, and no other.
pub proof fn listings_hold_what_was_found(
    found: Seq<Option<DeviceView>>,
    r: Seq<DeviceView>,
    d: DeviceView,
)
    requires
        list::is_sorted_listing(list::present(found), r),
    ensures
        r.contains(d) <==> found.contains(Some(d)),
        r.to_multiset().count(d) == found.filter(|x: Option<DeviceView>| x == Some(d)).len(),
        r.len() == found.filter(|x: Option<DeviceView>| x is Some).len(),
{
    list::every_device_is_listed(list::present(found), r);
    lemma_present(found, d);
    broadcast use vstd::seq_lib::group_to_multiset_ensures;

    let p = list::present(found);
    assert(r.to_multiset().count(d) > 0 <==> r.contains(d));
    assert(p.to_multiset().count(d) > 0 <==> p.contains(d));
}

proof fn lemma_present(found: Seq<Option<DeviceView>>, d: DeviceView)
    ensures
        list::present(found).contains(d) <==> found.contains(Some(d)),
        list::present(found).to_multiset().count(d) == found.filter(
            |x: Option<DeviceView>| x == Some(d),
        ).len(),
        list::present(found).len() == found.filter(|x: Option<DeviceView>| x is Some).len(),
    decreases found.len(),
{
    broadcast use vstd::seq_lib::group_to_multiset_ensures;

    reveal(Seq::filter);
    if found.len() > 0 {
        let front = found.drop_last();
        lemma_present(front, d);
        let (p, q) = (list::present(front), list::present(found));
        if p.contains(d) {
            let i = choose|i: int| 0 <= i < p.len() && p[i] == d;
            assert(q[i] == d);
        }
        if found.last() == Some(d) {
            assert(q[p.len() as int] == d);
            assert(found[found.len() - 1] == Some(d));
        }
        if found.contains(Some(d)) {
            let i = choose|i: int| 0 <= i < found.len() && found[i] == Some(d);
            if i < front.len() {
                assert(front[i] == Some(d));
            }
        }
        if front.contains(Some(d)) {
            let i = choose|i: int| 0 <= i < front.len() && front[i] == Some(d);
            assert(found[i] == Some(d));
        }
        if q.contains(d) && !p.contains(d) {
            let i = choose|i: int| 0 <= i < q.len() && q[i] == d;
            assert(i == p.len());
        }
    }
}

/// Paths are compared by their first characters that differ; a path comes before every longer
/// one that starts with it.
pub proof fn paths_are_compared_by_character(
    p: Seq<char>,
    x: char,
    y: char,
    a: Seq<char>,
    b: Seq<char>,
)
    requires
        x != y,
    ensures
        list::text_before(p + seq![x] + a, p + seq![y] + b) <==> (x as u32) < (y as u32),
        list::text_before(p, p + seq![x] + a),
        !list::text_before(p + seq![x] + a, p),
        !list::text_before(p, p),
    decreases p.len(),
{
    let (s, t) = (p + seq![x] + a, p + seq![y] + b);
    if p.len() > 0 {
        let q = p.drop_first();
        assert(s.drop_first() =~= q + seq![x] + a);
        assert(t.drop_first() =~= q + seq![y] + b);
        paths_are_compared_by_character(q, x, y, a, b);
    }
}

/// A device that can be removed comes before one that cannot; others by their paths.
pub proof fn removable_devices_are_listed_before_others(a: DeviceView, b: DeviceView)
    ensures
        a.removable && !b.removable ==> list::device_before(a, b) && !list::device_before(b, a),
        a.removable == b.removable ==> list::device_before(a, b) == list::text_before(
            a.path,
            b.path,
        ),
{
}

// ---------------------------------------------------------------------------------------
// The table
// ---------------------------------------------------------------------------------------

/// Filling up leaves a text whole and puts nothing but the fill character behind it, up to the
/// width and no further.
pub proof fn filling_keeps_the_text(s: Seq<char>, c: char, width: nat, i: int)
    requires
        s.len() <= i < table::filled(s, c, width).len(),
    ensures
        table::filled(s, c, width).take(s.len() as int) == s,
        table::filled(s, c, width)[i] == c,
        table::filled(s, c, width).len() == width,
{
    assert(table::filled(s, c, width).take(s.len() as int) =~= s);
}

/// A text that is wider already is not filled up.
pub proof fn wide_text_is_not_filled(s: Seq<char>, c: char, width: nat)
    requires
        s.len() >= width,
    ensures
        table::filled(s, c, width) == s,
{
}

/// A column is as wide as its widest text, and at least as wide as its head.
pub proof fn columns_are_as_wide_as_their_widest_text(s: Seq<Seq<char>>, least: nat)
    ensures
        table::column_width(s, least) >= least,
        forall|i: int|
            0 <= i < s.len() ==> table::column_width(s, least) >= vstd::utf8::encode_utf8(
                #[trigger] s[i],
            ).len(),
        table::column_width(s, least) == least || exists|i: int|
            0 <= i < s.len() && table::column_width(s, least) == vstd::utf8::encode_utf8(
                #[trigger] s[i],
            ).len(),
    decreases s.len(),
{
    if s.len() > 0 {
        let front = s.drop_last();
        columns_are_as_wide_as_their_widest_text(front, least);
        let w = table::column_width(s, least);
        assert forall|i: int| 0 <= i < s.len() implies w >= vstd::utf8::encode_utf8(
            #[trigger] s[i],
        ).len() by {
            if i < front.len() {
                assert(front[i] == s[i]);
            }
        }
        if w == table::column_width(front, least) && w != least {
            let i = choose|i: int|
                0 <= i < front.len() && w == vstd::utf8::encode_utf8(#[trigger] front[i]).len();
            assert(s[i] == front[i]);
        } else if w != least {
            assert(w == vstd::utf8::encode_utf8(s[s.len() - 1]).len());
        }
    }
}

/// Every device has its row in the table: path, size and model, each filled up to the width of
/// its column.
pub proof fn every_device_has_its_row(d: Seq<DeviceView>, windows: bool, i: int)
    requires
        0 <= i < d.len(),
    ensures
        ({
            let w = table::column_width(d.map_values(|x: DeviceView| x.path), 6);
            let s = table::column_width(d.map_values(|x: DeviceView| x.size_human), 8);
            let m = table::column_width(d.map_values(|x: DeviceView| x.model), 5);
            layout_laws::mentions(
                table::table(d, windows),
                table::filled(d[i].path, ' ', w) + "  "@ + table::filled(d[i].size_human, ' ', s)
                    + "  "@ + table::filled(d[i].model, ' ', m) + "\n"@,
            )
        }),
{
    let w = table::widths(d);
    let row = table::filled(d[i].path, ' ', w.path) + "  "@ + table::filled(
        d[i].size_human,
        ' ',
        w.size,
    ) + "  "@ + table::filled(d[i].model, ' ', w.model) + "\n"@;
    let (a, b) = lemma_row(d, w, i);
    let head = "\n"@ + table::row("DEVICE"@, "SIZE"@, "MODEL"@, ' ', w) + table::row(
        Seq::empty(),
        Seq::empty(),
        Seq::empty(),
        '-',
        w,
    );
    assert(table::table(d, windows) =~= (head + a) + row + (b + "\n"@));
    assert(layout_laws::mentions(table::table(d, windows), row));
}

proof fn lemma_row(d: Seq<DeviceView>, w: Widths, i: int) -> (r: (Seq<char>, Seq<char>))
    requires
        0 <= i < d.len(),
    ensures
        table::device_rows(d, w) == r.0 + (table::filled(d[i].path, ' ', w.path) + "  "@
            + table::filled(d[i].size_human, ' ', w.size) + "  "@ + table::filled(
            d[i].model,
            ' ',
            w.model,
        ) + "\n"@) + r.1,
    decreases d.len(),
{
    let x = d[i];
    let cells = table::filled(x.path, ' ', w.path) + "  "@ + table::filled(x.size_human, ' ', w.size)
        + "  "@ + table::filled(x.model, ' ', w.model) + "\n"@;
    let front = table::device_rows(d.drop_last(), w);
    let all = table::device_rows(d, w);
    if i == d.len() - 1 {
        let none = Seq::<char>::empty();
        assert(all =~= (front + "  "@) + cells + none);
        (front + "  "@, none)
    } else {
        let (a, b) = lemma_row(d.drop_last(), w, i);
        let l = d.last();
        let last = table::row(l.path, l.size_human, l.model, ' ', w);
        assert(all =~= a + cells + (b + last));
        (a, b + last)
    }
}

} // verus!
