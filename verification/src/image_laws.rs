//! What holds of every image: how its label is read and stored, where its boot image lies, what
//! it can be used for, and what becomes of each entry of its tree.

use vstd::prelude::*;

use crate::bytes;
use crate::eltorito;
use crate::label;
use crate::mode;
use crate::mode::{ImageCaps, Mode, ModeError};
use crate::text;
use crate::text_laws;
use crate::tree;
use crate::tree::{CopyAction, EntryKind, ScanAction};

verus! {

// ---------------------------------------------------------------------------------------
// Labels
// ---------------------------------------------------------------------------------------

/// Whether an image holds a primary volume descriptor in its seventeenth sector of 2 KiB.
pub open spec fn describes_a_volume(head: Seq<u8>) -> bool {
    &&& head.len() >= 32_768 + 72
    &&& head[32_768] == 1
    &&& head[32_769] == 'C' as u8
    &&& head[32_770] == 'D' as u8
    &&& head[32_771] == '0' as u8
    &&& head[32_772] == '0' as u8
    &&& head[32_773] == '1' as u8
}

proof fn lemma_describes(head: Seq<u8>)
    ensures
        label::has_descriptor(head) <==> describes_a_volume(head),
{
    reveal_strlit("CD001");
    let p = bytes::ascii("CD001"@);
    text_laws::bytes_stand_where_each_does(head, 32_769, p);
    assert(p.len() == 5);
    assert(p[0] == 'C' as u8 && p[1] == 'D' as u8 && p[2] == '0' as u8 && p[3] == '0' as u8 && p[4]
        == '1' as u8);
    if describes_a_volume(head) {
        assert forall|k: int| 0 <= k < p.len() implies head[32_769 + k] == #[trigger] p[k] by {
            assert(k == 0 || k == 1 || k == 2 || k == 3 || k == 4);
        }
    }
    if label::has_descriptor(head) {
        assert(head[32_769int + 0] == p[0] && head[32_769int + 1] == p[1] && head[32_769int + 2] == p[2]
            && head[32_769int + 3] == p[3] && head[32_769int + 4] == p[4]);
    }
}

/// An identifier is read back whole: an image whose descriptor holds a text of up to 32 printable
/// characters, filled up with spaces, has that text as its label.
pub proof fn volume_identifiers_read_back(head: Seq<u8>, t: Seq<char>)
    requires
        describes_a_volume(head),
        1 <= t.len() <= 32,
        forall|i: int| 0 <= i < t.len() ==> ' ' <= #[trigger] t[i] <= '~',
        !text::is_white(t[0]),
        !text::is_white(t.last()),
        forall|i: int|
            0 <= i < 32 ==> #[trigger] head[32_768 + 0x28 + i] == if i < t.len() {
                t[i] as u8
            } else {
                0x20
            },
    ensures
        label::volume_label(head) == Some(t),
{
    lemma_describes(head);
    let raw = Seq::new(
        32,
        |i: int| label::identifier_char(head[label::DESCRIPTOR_AT + 0x28 + i]),
    );
    let pad = Seq::new((32 - t.len()) as nat, |i: int| ' ');
    assert forall|i: int| 0 <= i < 32 implies raw[i] == if i < t.len() {
        t[i]
    } else {
        ' '
    } by {
        assert(head[32_768 + 0x28 + i] == if i < t.len() {
            t[i] as u8
        } else {
            0x20
        });
        if i < t.len() {
            lemma_printable(t[i]);
        }
    }
    let none = Seq::<char>::empty();
    assert(raw =~= none + t + pad);
    text_laws::trimming_leaves_the_middle(none, t, pad);
}

proof fn lemma_printable(c: char)
    requires
        ' ' <= c <= '~',
    ensures
        0x20 <= c as u8 <= 0x7E,
        (c as u8) as char == c,
{
}

/// The label of an image is what its 32 bytes spell: printable ones as they are, others as
/// underscores, without the white space at the ends. An image has none without a descriptor, or
/// where nothing else than white space stands there.
pub proof fn volume_labels_come_from_the_descriptor(head: Seq<u8>, raw: Seq<char>)
    requires
        raw.len() == 32,
        forall|i: int|
            0 <= i < 32 && describes_a_volume(head) ==> #[trigger] raw[i] == if 0x20 <= head[32_768
                + 0x28 + i] <= 0x7E {
                head[32_768 + 0x28 + i] as char
            } else {
                '_'
            },
    ensures
        label::volume_label(head) == if describes_a_volume(head) && text::trim(raw).len() > 0 {
            Some(text::trim(raw))
        } else {
            None
        },
{
    lemma_describes(head);
    if describes_a_volume(head) {
        assert(raw =~= Seq::new(
            32,
            |i: int| label::identifier_char(head[label::DESCRIPTOR_AT + 0x28 + i]),
        ));
    }
}

/// The characters that a label may hold are the letters and digits of ASCII, the underscore, the
/// hyphen and the space.
pub proof fn labels_hold_plain_characters(c: char)
    ensures
        label::allowed(c) <==> {
            ||| '0' <= c <= '9'
            ||| 'A' <= c <= 'Z'
            ||| 'a' <= c <= 'z'
            ||| c == '_'
            ||| c == '-'
            ||| c == ' '
        },
{
}

/// Sanitizing takes spaces off both ends of a label and turns each character that it may not hold
/// into an underscore. Everything else stays.
pub proof fn sanitizing_changes_nothing_else(
    left: Seq<char>,
    mid: Seq<char>,
    right: Seq<char>,
    i: int,
)
    requires
        forall|k: int| 0 <= k < left.len() ==> #[trigger] left[k] == ' ',
        forall|k: int| 0 <= k < right.len() ==> #[trigger] right[k] == ' ',
        mid.len() > 0,
        mid[0] != ' ',
        mid.last() != ' ',
        0 <= i < mid.len(),
    ensures
        ({
            let s = label::sanitized(left + mid + right);
            &&& s.len() == mid.len()
            &&& s[i] == if label::allowed(mid[i]) {
                mid[i]
            } else {
                '_'
            }
        }),
{
    let m = label::cleaned(mid);
    assert(label::cleaned(left + mid + right) =~= left + m + right);
    assert forall|k: int| 0 <= k < left.len() implies text::is_white(#[trigger] left[k]) by {}
    assert forall|k: int| 0 <= k < right.len() implies text::is_white(#[trigger] right[k]) by {}
    lemma_cleaned_char(mid[0]);
    lemma_cleaned_char(mid.last());
    text_laws::trimming_leaves_the_middle(left, m, right);
}

proof fn lemma_cleaned_char(c: char)
    ensures
        text::is_white(label::cleaned_char(c)) ==> c == ' ',
{
}

/// A label of allowed characters that neither starts nor ends with a space is used as it is.
pub proof fn good_labels_stay_as_they_are(s: Seq<char>, head: Seq<u8>)
    requires
        label::all_allowed(s),
        s.len() > 0,
        s[0] != ' ',
        s.last() != ' ',
    ensures
        label::sanitized(s) == s,
        label::resolved(Some(s), head) == s,
{
    assert forall|i: int| 0 <= i < s.len() implies label::cleaned(s)[i] == s[i] by {
        assert(label::allowed(s[i]));
    }
    assert(label::cleaned(s) =~= s);
    assert(label::allowed(s[0]) && label::allowed(s.last()));
    lemma_cleaned_char(s[0]);
    lemma_cleaned_char(s.last());
    text_laws::trimmed_text_stays(s);
}

/// The label asked for comes first, whatever the image says; without one the image's own is
/// taken, and where neither leaves anything, a drive is named BUF.
pub proof fn labels_asked_for_come_first(s: Seq<char>, head: Seq<u8>, other: Seq<u8>)
    ensures
        label::resolved(Some(s), head) == label::resolved(Some(s), other),
        label::sanitized(s).len() > 0 ==> label::resolved(Some(s), head) == label::sanitized(s),
        label::sanitized(s).len() == 0 ==> label::resolved(Some(s), head) == seq!['B', 'U', 'F'],
        label::volume_label(head) matches Some(own) ==> label::resolved(None, head)
            == label::resolved(Some(own), head),
        label::volume_label(head) is None ==> label::resolved(None, head) == seq!['B', 'U', 'F'],
{
    reveal_strlit("BUF");
    assert("BUF"@ =~= seq!['B', 'U', 'F']);
    let none = Seq::<char>::empty();
    assert(label::cleaned(none) =~= none);
    text_laws::trimmed_text_stays(none);
}

/// FAT stores a label of ASCII characters in 11 bytes: its first ones in capitals, and spaces
/// behind them.
pub proof fn fat_stores_eleven_capitals(s: Seq<char>, i: int)
    requires
        label::all_allowed(s),
        0 <= i < 11,
    ensures
        label::fat_field(s).len() == 11,
        i >= s.len() ==> label::fat_field(s)[i] == ' ' as u8,
        i < s.len() && 'a' <= s[i] <= 'z' ==> label::fat_field(s)[i] == s[i] as u8 - 32,
        i < s.len() && !('a' <= s[i] <= 'z') ==> label::fat_field(s)[i] == s[i] as u8,
{
    label::lemma_allowed_bytes(s);
    if i < s.len() {
        assert(label::allowed(s[i]));
        lemma_stored(s[i]);
    }
}

proof fn lemma_stored(c: char)
    requires
        label::allowed(c),
    ensures
        'a' <= c <= 'z' ==> label::upper_byte(c as u8) == c as u8 - 32,
        !('a' <= c <= 'z') ==> label::upper_byte(c as u8) == c as u8,
{
}

// ---------------------------------------------------------------------------------------
// The embedded boot image
// ---------------------------------------------------------------------------------------

/// A boot record points to its catalog by a sector of 2 KiB, in the four bytes at 0x47, lowest
/// first. It is told by its size, its type and its two identifiers; nothing else points anywhere.
pub proof fn boot_records_point_to_their_catalog(r: Seq<u8>)
    ensures
        eltorito::catalog_at(r) is Some <==> {
            &&& r.len() == 2_048
            &&& r[0] == 0
            &&& bytes::bytes_at(r, 1, bytes::ascii("CD001"@))
            &&& bytes::bytes_at(r, 7, bytes::ascii("EL TORITO SPECIFICATION"@))
        },
        eltorito::catalog_at(r) matches Some(at) ==> at == 2_048 * (r[0x47] + 0x100 * r[0x48]
            + 0x1_0000 * r[0x49] + 0x100_0000 * r[0x4A]),
{
    if r.len() == 2_048 {
        let b = r.subrange(0x47, 0x4B);
        text_laws::numbers_stand_lowest_byte_first(b);
        assert(b[0] == r[0x47] && b[1] == r[0x48] && b[2] == r[0x49] && b[3] == r[0x4A]);
    }
}

/// How many entries follow the section header at `off`.
pub open spec fn entries_at(cat: Seq<u8>, off: int) -> int {
    cat[off + 2] + 0x100 * cat[off + 3]
}

/// Whether a section header at `off` announces at least one entry for EFI.
pub open spec fn announces_efi(cat: Seq<u8>, off: int) -> bool {
    cat[off + 1] == 0xEF && entries_at(cat, off) >= 1
}

/// The headers at `offs` follow each other, each behind the entries of the one before, and none
/// but the last can be the final one or announces entries for EFI.
pub open spec fn is_chain(cat: Seq<u8>, offs: Seq<int>) -> bool {
    &&& offs.len() > 0
    &&& forall|i: int| 0 <= i < offs.len() ==> 0x40 <= #[trigger] offs[i]
    &&& forall|i: int|
        0 <= i < offs.len() - 1 ==> {
            &&& (#[trigger] offs[i]) + 0x20 <= 2_048
            &&& cat[offs[i]] == 0x90
            &&& !announces_efi(cat, offs[i])
            &&& offs[i + 1] == offs[i] + 0x20 + 0x20 * entries_at(cat, offs[i])
        }
}

proof fn lemma_entries_at(cat: Seq<u8>, off: int)
    requires
        0 <= off,
        off + 0x20 <= 2_048 <= cat.len(),
    ensures
        eltorito::section_entries(cat, off) == entries_at(cat, off),
{
    let b = cat.subrange(off + 2, off + 4);
    text_laws::numbers_stand_lowest_byte_first(b);
    assert(b[0] == cat[off + 2] && b[1] == cat[off + 3]);
}

proof fn lemma_chain(cat: Seq<u8>, offs: Seq<int>)
    requires
        cat.len() >= 2_048,
        is_chain(cat, offs),
    ensures
        eltorito::efi_section_entry(cat, offs[0]) == eltorito::efi_section_entry(cat, offs.last()),
    decreases offs.len(),
{
    if offs.len() > 1 {
        let off = offs[0];
        lemma_entries_at(cat, off);
        let rest = offs.drop_first();
        assert(rest[0] == offs[0int + 1]);
        assert forall|i: int| 0 <= i < rest.len() implies 0x40 <= #[trigger] rest[i] by {
            assert(0x40 <= offs[i + 1]);
        }
        assert forall|i: int| 0 <= i < rest.len() - 1 implies {
            &&& (#[trigger] rest[i]) + 0x20 <= 2_048
            &&& cat[rest[i]] == 0x90
            &&& !announces_efi(cat, rest[i])
            &&& rest[i + 1] == rest[i] + 0x20 + 0x20 * entries_at(cat, rest[i])
        } by {
            assert(rest[i] == offs[i + 1]);
            assert(offs[i + 1] + 0x20 <= 2_048);
            assert(rest[i + 1] == offs[i + 1 + 1]);
        }
        lemma_chain(cat, rest);
    }
}

/// The sector that an entry names, if it is marked as bootable and lies within the catalog.
pub open spec fn sector_of_entry(cat: Seq<u8>, o: int) -> Option<nat> {
    if o + 12 <= cat.len() && cat[o] == 0x88 {
        Some(
            (cat[o + 8] + 0x100 * cat[o + 9] + 0x1_0000 * cat[o + 10] + 0x100_0000 * cat[o
                + 11]) as nat,
        )
    } else {
        None
    }
}

proof fn lemma_sector_of_entry(cat: Seq<u8>, o: int)
    requires
        0 <= o,
        eltorito::efi_entry(cat) == Some(o),
    ensures
        eltorito::efi_rba(cat) == sector_of_entry(cat, o),
{
    if o + 12 <= cat.len() {
        let b = cat.subrange(o + 8, o + 12);
        text_laws::numbers_stand_lowest_byte_first(b);
        assert(b[0] == cat[o + 8] && b[1] == cat[o + 9] && b[2] == cat[o + 10] && b[3] == cat[o
            + 11]);
    }
}

/// The marks of a catalog: its first byte, and the key at the end of its validation entry.
pub open spec fn has_catalog_marks(cat: Seq<u8>) -> bool {
    cat.len() >= 2_048 && cat[0] == 1 && cat[0x1E] == 0x55 && cat[0x1F] == 0xAA
}

/// In a catalog that is for EFI as a whole, the initial entry names the boot image. In any other
/// it is the first entry of the first section for EFI, however many sections come before it.
pub proof fn efi_images_are_found_in_their_section(cat: Seq<u8>, offs: Seq<int>)
    requires
        has_catalog_marks(cat),
        cat[1] != 0xEF,
        is_chain(cat, offs),
        offs[0] == 0x40,
        offs.last() + 0x20 <= 2_048,
        cat[offs.last()] == 0x90 || cat[offs.last()] == 0x91,
        announces_efi(cat, offs.last()),
    ensures
        eltorito::efi_rba(cat) == sector_of_entry(cat, offs.last() + 0x20),
{
    lemma_chain(cat, offs);
    assert(0x40 <= offs[offs.len() - 1]);
    lemma_entries_at(cat, offs.last());
    lemma_sector_of_entry(cat, offs.last() + 0x20);
}

/// The same of a catalog that is for EFI as a whole.
pub proof fn efi_catalogs_name_their_initial_entry(cat: Seq<u8>)
    requires
        has_catalog_marks(cat),
        cat[1] == 0xEF,
    ensures
        eltorito::efi_rba(cat) == sector_of_entry(cat, 0x20),
{
    lemma_sector_of_entry(cat, 0x20);
}

/// A catalog without its marks, or whose headers end before one for EFI, names no boot image.
pub proof fn other_catalogs_name_no_image(cat: Seq<u8>, offs: Seq<int>)
    requires
        !has_catalog_marks(cat) || {
            &&& cat[1] != 0xEF
            &&& is_chain(cat, offs)
            &&& offs[0] == 0x40
            &&& offs.last() + 0x20 > 2_048 || (cat[offs.last()] != 0x90 && cat[offs.last()]
                != 0x91) || (cat[offs.last()] == 0x91 && !announces_efi(cat, offs.last()))
        },
    ensures
        eltorito::efi_rba(cat) is None,
        eltorito::image_at(cat) is None,
{
    if has_catalog_marks(cat) {
        lemma_chain(cat, offs);
        assert(0x40 <= offs[offs.len() - 1]);
        if offs.last() + 0x20 <= 2_048 {
            lemma_entries_at(cat, offs.last());
        }
    }
}

/// Sectors of the catalog count in units of 2 KiB.
pub proof fn boot_images_lie_at_whole_sectors(cat: Seq<u8>)
    ensures
        match eltorito::efi_rba(cat) {
            Some(n) => n <= u32::MAX && eltorito::image_at(cat) == Some((n * 2_048) as u64) && (n
                * 2_048) <= u64::MAX,
            None => eltorito::image_at(cat) is None,
        },
{
    if eltorito::efi_rba(cat) is Some {
        let o = eltorito::efi_entry(cat)->0;
        bytes::lemma_le_value_bound(cat.subrange(o + 8, o + 12));
        bytes::lemma_byte_ranges();
        if cat[1] != 0xEF {
            lemma_entry_is_not_negative(cat, 0x40);
        }
        assert(cat.subrange(o + 8, o + 12).len() == 4);
    }
}

proof fn lemma_entry_is_not_negative(cat: Seq<u8>, off: int)
    requires
        0 <= off,
    ensures
        eltorito::efi_section_entry(cat, off) matches Some(o) ==> o >= 0,
    decreases eltorito::bytes_behind(off),
{
    if off + 0x20 <= 2_048 && cat[off] == 0x90 && !(cat[off + 1] == 0xEF
        && eltorito::section_entries(cat, off) >= 1) {
        lemma_entry_is_not_negative(
            cat,
            off + 0x20 * (1 + eltorito::section_entries(cat, off)),
        );
    }
}

// ---------------------------------------------------------------------------------------
// Modes
// ---------------------------------------------------------------------------------------

/// Copying is picked for every image whose files can be extracted, even if it would boot as it
/// is; writing it as it is, for one that only boots.
pub proof fn copying_is_picked_where_it_can_be(caps: ImageCaps)
    ensures
        caps.is_iso || caps.is_udf ==> mode::picked(caps) == Some(Mode::Copy),
        !caps.is_iso && !caps.is_udf && caps.dd_bootable ==> mode::picked(caps) == Some(Mode::Dd),
        !caps.is_iso && !caps.is_udf && !caps.dd_bootable ==> mode::picked(caps) is None,
{
}

/// A mode is read from its name in capital or small letters, with white space around it or
/// without; every other text is refused.
pub proof fn modes_are_read_by_name(
    left: Seq<char>,
    name: Seq<char>,
    right: Seq<char>,
    r: Result<Mode, ModeError>,
)
    requires
        text_laws::all_white(left),
        text_laws::all_white(right),
        text_laws::is_trimmed(name),
        mode::is_mode_of(left + name + right, r),
    ensures
        r is Ok && r->Ok_0 is Dd <==> text::lower(name) == seq!['d', 'd'],
        r is Ok && r->Ok_0 is Copy <==> text::lower(name) == seq!['c', 'o', 'p', 'y'],
        r matches Err(e) ==> e matches ModeError::Unknown { name: n } && n@ == text::lower(name),
{
    reveal_strlit("dd");
    reveal_strlit("copy");
    assert("dd"@ =~= seq!['d', 'd']);
    assert("copy"@ =~= seq!['c', 'o', 'p', 'y']);
    assert("dd"@.len() == 2 && "copy"@.len() == 4);
    text_laws::trimming_leaves_the_middle(left, name, right);
}

/// Whether the five bytes behind the first one of sector `n` are the given identifier.
pub open spec fn identifies(head: Seq<u8>, n: int, id: Seq<char>) -> bool {
    &&& n * 2_048 + 6 <= head.len()
    &&& forall|k: int| 0 <= k < 5 ==> head[n * 2_048 + 1 + k] == #[trigger] id[k] as u8
}

proof fn lemma_identifies(head: Seq<u8>, n: int, id: Seq<char>)
    requires
        0 <= n,
        id.len() == 5,
    ensures
        mode::descriptor_is(head, n, id) <==> identifies(head, n, id),
{
    let p = bytes::ascii(id);
    text_laws::bytes_stand_where_each_does(head, n * 2_048 + 1, p);
    assert forall|k: int| 0 <= k < 5 implies p[k] == #[trigger] id[k] as u8 by {}
    if identifies(head, n, id) {
        assert forall|k: int| 0 <= k < p.len() implies head[n * 2_048 + 1 + k] == #[trigger] p[k] by {
            assert(head[n * 2_048 + 1 + k] == id[k] as u8);
        }
    }
    if mode::descriptor_is(head, n, id) {
        assert forall|k: int| 0 <= k < 5 implies head[n * 2_048 + 1 + k] == #[trigger] id[k] as u8 by {
            assert(head[n * 2_048 + 1 + k] == p[k]);
        }
    }
}

/// An image is ISO9660 by the identifier in its sector 16.
pub proof fn iso_images_are_told_by_sector_sixteen(head: Seq<u8>)
    ensures
        mode::descriptor_is(head, 16, "CD001"@) <==> identifies(head, 16, "CD001"@),
{
    reveal_strlit("CD001");
    lemma_identifies(head, 16, "CD001"@);
}

/// Descriptors of other standards that may stand before those of UDF.
pub open spec fn is_forerunner(head: Seq<u8>, n: int) -> bool {
    ||| identifies(head, n, "BEA01"@)
    ||| identifies(head, n, "TEA01"@)
    ||| identifies(head, n, "BOOT2"@)
    ||| identifies(head, n, "CD001"@)
    ||| identifies(head, n, "CDW02"@)
}

/// An image is UDF exactly if one of its sectors 16 to 47 identifies itself as such, and every
/// sector from 16 on before it as a forerunner.
pub proof fn udf_images_are_told_by_their_descriptors(head: Seq<u8>)
    ensures
        mode::has_udf(head) <==> exists|n: int|
            16 <= n < 48 && #[trigger] is_udf_mark(head, n) && forall|k: int|
                16 <= k < n ==> #[trigger] is_forerunner(head, k),
{
    assert forall|k: int| 0 <= k implies #[trigger] is_forerunner(head, k)
        == mode::may_precede_udf(head, k) by {
        lemma_forerunner(head, k);
    }
    assert forall|k: int| 0 <= k implies #[trigger] is_udf_mark(head, k) == mode::marks_udf(
        head,
        k,
    ) by {
        lemma_forerunner(head, k);
    }
    if mode::has_udf(head) {
        let n = choose|n: int|
            16 <= n < 48 && #[trigger] mode::marks_udf(head, n) && forall|k: int|
                16 <= k < n ==> #[trigger] mode::may_precede_udf(head, k);
        assert(is_udf_mark(head, n));
        assert forall|k: int| 16 <= k < n implies #[trigger] is_forerunner(head, k) by {
            assert(mode::may_precede_udf(head, k));
        }
    }
    if exists|n: int|
        16 <= n < 48 && #[trigger] is_udf_mark(head, n) && forall|k: int|
            16 <= k < n ==> #[trigger] is_forerunner(head, k) {
        let n = choose|n: int|
            16 <= n < 48 && #[trigger] is_udf_mark(head, n) && forall|k: int|
                16 <= k < n ==> #[trigger] is_forerunner(head, k);
        assert(mode::marks_udf(head, n));
        assert forall|k: int| 16 <= k < n implies #[trigger] mode::may_precede_udf(head, k) by {
            assert(is_forerunner(head, k));
        }
    }
}

pub open spec fn is_udf_mark(head: Seq<u8>, n: int) -> bool {
    identifies(head, n, "NSR02"@) || identifies(head, n, "NSR03"@)
}

proof fn lemma_forerunner(head: Seq<u8>, k: int)
    requires
        0 <= k,
    ensures
        is_forerunner(head, k) == mode::may_precede_udf(head, k),
        is_udf_mark(head, k) == mode::marks_udf(head, k),
{
    reveal_strlit("BEA01");
    reveal_strlit("TEA01");
    reveal_strlit("BOOT2");
    reveal_strlit("CD001");
    reveal_strlit("CDW02");
    reveal_strlit("NSR02");
    reveal_strlit("NSR03");
    lemma_identifies(head, k, "BEA01"@);
    lemma_identifies(head, k, "TEA01"@);
    lemma_identifies(head, k, "BOOT2"@);
    lemma_identifies(head, k, "CD001"@);
    lemma_identifies(head, k, "CDW02"@);
    lemma_identifies(head, k, "NSR02"@);
    lemma_identifies(head, k, "NSR03"@);
}

// ---------------------------------------------------------------------------------------
// Trees
// ---------------------------------------------------------------------------------------

/// What becomes of an entry below the root does not depend on how deep it lies: a directory is
/// entered, a file is copied, and so is a link, unless it leads to a directory. Only what is of
/// no known kind is passed over.
pub proof fn entries_are_copied_at_every_depth(
    kind: EntryKind,
    leads_to_directory: bool,
    depth: nat,
    other: nat,
)
    requires
        depth > 0,
        other > 0,
    ensures
        tree::copy_action_for(kind, leads_to_directory, depth) == tree::copy_action_for(
            kind,
            leads_to_directory,
            other,
        ),
        kind is Directory ==> tree::copy_action_for(kind, leads_to_directory, depth)
            == CopyAction::Descend,
        kind is File ==> tree::copy_action_for(kind, leads_to_directory, depth)
            == CopyAction::Copy,
        kind is Symlink && !leads_to_directory ==> tree::copy_action_for(
            kind,
            leads_to_directory,
            depth,
        ) == CopyAction::Copy,
        kind is Symlink && leads_to_directory ==> tree::copy_action_for(
            kind,
            leads_to_directory,
            depth,
        ) == CopyAction::SkipLinkedDirectory,
        kind is Unknown <==> tree::copy_action_for(kind, leads_to_directory, depth)
            == CopyAction::Ignore,
{
}

/// A scan looks into everything that copying enters, and counts everything that copying copies
/// or skips.
pub proof fn scans_count_what_is_copied(kind: EntryKind, leads_to_directory: bool, depth: nat)
    requires
        depth > 0,
    ensures
        match tree::copy_action_for(kind, leads_to_directory, depth) {
            CopyAction::Ignore => tree::scan_action_for(kind) == ScanAction::Ignore,
            CopyAction::Descend => tree::scan_action_for(kind) == ScanAction::Descend,
            _ => tree::scan_action_for(kind) == ScanAction::Count,
        },
{
}

/// A boot loader is a file of the directory `EFI/BOOT` whose name starts with `boot` and ends
/// with `.efi`, in whatever case; a file in any other place is none.
pub proof fn boot_loaders_are_told_by_their_path(comps: Seq<Seq<char>>, mid: Seq<char>)
    ensures
        tree::is_loader(comps) ==> {
            let n = text::lower(comps[2]);
            &&& comps.len() == 3
            &&& text::lower(comps[0]) == seq!['e', 'f', 'i']
            &&& text::lower(comps[1]) == seq!['b', 'o', 'o', 't']
            &&& n.len() >= 8
            &&& n == seq!['b', 'o', 'o', 't'] + n.subrange(4, n.len() - 4) + seq![
                '.',
                'e',
                'f',
                'i',
            ]
        },
        comps.len() == 3 && text::lower(comps[0]) == seq!['e', 'f', 'i'] && text::lower(comps[1])
            == seq!['b', 'o', 'o', 't'] && text::lower(comps[2]) == seq!['b', 'o', 'o', 't'] + mid
            + seq!['.', 'e', 'f', 'i'] ==> tree::is_loader(comps),
{
    reveal_strlit("efi");
    reveal_strlit("boot");
    reveal_strlit(".efi");
    let (efi, boot, ext) = (seq!['e', 'f', 'i'], seq!['b', 'o', 'o', 't'], seq!['.', 'e', 'f', 'i']);
    assert("efi"@ =~= efi);
    assert("boot"@ =~= boot);
    assert(".efi"@ =~= ext);
    let n = text::lower(comps[2]);
    if tree::is_loader(comps) {
        text_laws::starts_and_ends_are_parts(n, boot, Seq::empty());
        text_laws::starts_and_ends_are_parts(n, ext, Seq::empty());
        assert(n[n.len() - 4] == '.');
        assert(n[0] == 'b' && n[1] == 'o' && n[2] == 'o' && n[3] == 't');
        assert(n =~= boot + n.subrange(4, n.len() - 4) + ext);
    }
    if n == boot + mid + ext {
        assert(boot + mid + ext =~= boot + (mid + ext));
        text_laws::starts_and_ends_are_parts(n, boot, mid + ext);
        text_laws::starts_and_ends_are_parts(n, ext, boot + mid);
    }
}

/// A path lies inside another just where it is that one with something, or nothing, behind it.
pub proof fn paths_inside_continue_their_root(
    path: Seq<Seq<u8>>,
    root: Seq<Seq<u8>>,
    rest: Seq<Seq<u8>>,
)
    ensures
        tree::lies_inside(root + rest, root),
        tree::lies_inside(path, root) ==> path == root + path.skip(root.len() as int)
            && root.len() <= path.len(),
{
    assert((root + rest).take(root.len() as int) =~= root);
    if tree::lies_inside(path, root) {
        assert(path =~= path.take(root.len() as int) + path.skip(root.len() as int));
    }
}

} // verus!
