//! How an image gets onto a drive: written as it is, or copied file by file.

use std::str::FromStr;
use vstd::prelude::*;

use crate::bytes;
use crate::text;

verus! {

#[derive(Debug, Clone, Copy, PartialEq, Eq, Structural)]
pub enum Mode {
    /// Write the image byte for byte.
    Dd,
    /// Copy the image's files onto a new filesystem.
    Copy,
}

#[derive(Debug, Clone)]
pub enum ModeError {
    /// No mode has this name.
    Unknown { name: String },
    /// The image supports no mode.
    CannotPick,
}

impl ModeError {
    pub open spec fn text(self) -> Seq<char> {
        match self {
            ModeError::Unknown { name } => "unknown mode '"@ + name@
                + "', expected 'dd' or 'copy'"@,
            ModeError::CannotPick =>
                "Fatal: Source is neither an extractable ISO9660/UDF image nor a bootable disk image (no 0x55AA marker); cannot auto-pick a mode. Use --mode to force one."@,
        }
    }

    pub fn message(&self) -> (r: String)
        ensures
            r@ == self.text(),
    {
        match self {
            ModeError::Unknown { name } => {
                let mut m = "unknown mode '".to_owned();
                m.append(name.as_str());
                m.append("', expected 'dd' or 'copy'");
                m
            },
            ModeError::CannotPick =>
                "Fatal: Source is neither an extractable ISO9660/UDF image nor a bootable disk image (no 0x55AA marker); cannot auto-pick a mode. Use --mode to force one.".to_owned(),
        }
    }
}

/// Whether a result is the one owed for a text: the mode of that name, or else an error with the
/// name that no mode has. White space around the name and the case of its letters do not matter.
pub open spec fn is_mode_of(s: Seq<char>, r: Result<Mode, ModeError>) -> bool {
    let name = text::lower(text::trim(s));
    match r {
        Ok(m) => name == m.name(),
        Err(ModeError::Unknown { name: n }) => n@ == name && name != Mode::Dd.name() && name
            != Mode::Copy.name(),
        Err(ModeError::CannotPick) => false,
    }
}

impl Mode {
    pub open spec fn name(self) -> Seq<char> {
        match self {
            Mode::Dd => "dd"@,
            Mode::Copy => "copy"@,
        }
    }

    pub fn to_string(&self) -> (r: String)
        ensures
            r@ == self.name(),
    {
        match self {
            Mode::Dd => "dd".to_owned(),
            Mode::Copy => "copy".to_owned(),
        }
    }

    /// The mode of the given name; white space around it and the case of its letters do not
    /// matter.
    pub fn parse(s: &str) -> (r: Result<Mode, ModeError>)
        ensures
            is_mode_of(s@, r),
    {
        let chars = text::chars_of(s);
        let trimmed = text::trim_chars(&chars);
        let name = text::string_of(&text::lower_chars(&trimmed));
        if text::str_eq(name.as_str(), "dd") {
            Ok(Mode::Dd)
        } else if text::str_eq(name.as_str(), "copy") {
            Ok(Mode::Copy)
        } else {
            Err(ModeError::Unknown { name })
        }
    }
}

impl FromStr for Mode {
    type Err = ModeError;

    fn from_str(s: &str) -> (r: Result<Mode, ModeError>)
        ensures
            is_mode_of(s@, r),
    {
        Mode::parse(s)
    }
}

// ---------------------------------------------------------------------------------------
// What an image supports
// ---------------------------------------------------------------------------------------

#[derive(Debug, Clone, Copy, PartialEq, Eq, Structural)]
pub struct ImageCaps {
    /// A boot marker at the end of the first sector: written as it is, the image boots.
    pub dd_bootable: bool,
    /// An ISO9660 volume descriptor at sector 16: the files can be extracted.
    pub is_iso: bool,
    /// A UDF descriptor; some Windows images have no ISO9660 tree beside it.
    pub is_udf: bool,
}

/// Everything that tells an image's capabilities lies in this many of its first bytes.
pub const HEAD_BYTES: usize = 98_304;

pub const ISO_SECTOR: usize = 2_048;

/// The identifier of the volume descriptor in sector `sect`.
pub open spec fn descriptor_is(head: Seq<u8>, sect: int, id: Seq<char>) -> bool {
    bytes::bytes_at(head, sect * ISO_SECTOR + 1, bytes::ascii(id))
}

/// Descriptors that may stand before the one that marks UDF.
pub open spec fn may_precede_udf(head: Seq<u8>, sect: int) -> bool {
    ||| descriptor_is(head, sect, "BEA01"@)
    ||| descriptor_is(head, sect, "TEA01"@)
    ||| descriptor_is(head, sect, "BOOT2"@)
    ||| descriptor_is(head, sect, "CD001"@)
    ||| descriptor_is(head, sect, "CDW02"@)
}

pub open spec fn marks_udf(head: Seq<u8>, sect: int) -> bool {
    descriptor_is(head, sect, "NSR02"@) || descriptor_is(head, sect, "NSR03"@)
}

/// Sectors 16 to 47 hold a descriptor that marks UDF, with only descriptors before it that may
/// precede one.
pub open spec fn has_udf(head: Seq<u8>) -> bool {
    exists|n: int|
        16 <= n < 48 && #[trigger] marks_udf(head, n) && forall|k: int|
            16 <= k < n ==> #[trigger] may_precede_udf(head, k)
}

fn has_descriptor(head: &[u8], sect: usize, id: &str) -> (r: bool)
    requires
        sect < 48,
    ensures
        r == descriptor_is(head@, sect as int, id@),
{
    bytes::has_text_at(head, sect * ISO_SECTOR + 1, id)
}

/// Two identifiers of the same length that differ do not both stand in one place.
proof fn lemma_one_descriptor(head: Seq<u8>, k: int)
    requires
        may_precede_udf(head, k),
    ensures
        !marks_udf(head, k),
{
    reveal_strlit("BEA01");
    reveal_strlit("TEA01");
    reveal_strlit("BOOT2");
    reveal_strlit("CD001");
    reveal_strlit("CDW02");
    reveal_strlit("NSR02");
    reveal_strlit("NSR03");
    let at = k * ISO_SECTOR + 1;
    let part = head.subrange(at, at + 5);
    if marks_udf(head, k) {
        assert(part[0] == 'N' as u8);
    }
    assert(part[0] == 'B' as u8 || part[0] == 'T' as u8 || part[0] == 'C' as u8);
}

fn find_udf(head: &[u8]) -> (r: bool)
    ensures
        r == has_udf(head@),
{
    let mut sect: usize = 16;
    while sect < 48
        invariant
            16 <= sect <= 48,
            forall|k: int| 16 <= k < sect ==> #[trigger] may_precede_udf(head@, k),
        decreases 48 - sect,
    {
        if has_descriptor(head, sect, "NSR02") || has_descriptor(head, sect, "NSR03") {
            assert(marks_udf(head@, sect as int));
            return true;
        }
        if !(has_descriptor(head, sect, "BEA01") || has_descriptor(head, sect, "TEA01")
            || has_descriptor(head, sect, "BOOT2") || has_descriptor(head, sect, "CD001")
            || has_descriptor(head, sect, "CDW02")) {
            proof {
                assert forall|n: int|
                    16 <= n < 48 && #[trigger] marks_udf(head@, n) implies exists|k: int|
                    16 <= k < n && !#[trigger] may_precede_udf(head@, k) by {
                    if n < sect {
                        lemma_one_descriptor(head@, n);
                    } else {
                        assert(!may_precede_udf(head@, sect as int));
                    }
                }
            }
            return false;
        }
        sect = sect + 1;
    }
    proof {
        assert forall|n: int| 16 <= n < 48 implies !#[trigger] marks_udf(head@, n) by {
            lemma_one_descriptor(head@, n);
        }
    }
    false
}

impl ImageCaps {
    pub open spec fn extractable(self) -> bool {
        self.is_iso || self.is_udf
    }

    /// What an image is capable of, told from its first `HEAD_BYTES` bytes, or all of them if
    /// there are fewer.
    pub fn sniff(head: &[u8]) -> (caps: ImageCaps)
        ensures
            caps.dd_bootable == bytes::bytes_at(head@, 510, seq![0x55u8, 0xAAu8]),
            caps.is_iso == descriptor_is(head@, 16, "CD001"@),
            caps.is_udf == has_udf(head@),
    {
        let marker: [u8; 2] = [0x55, 0xAA];
        assert(marker@ =~= seq![0x55u8, 0xAAu8]);
        ImageCaps {
            dd_bootable: bytes::has_bytes_at(head, 510, &marker),
            is_iso: has_descriptor(head, 16, "CD001"),
            is_udf: find_udf(head),
        }
    }

    /// Copying needs a filesystem that can be mounted and read.
    pub fn copy_capable(&self) -> (r: bool)
        ensures
            r == self.extractable(),
    {
        self.is_iso || self.is_udf
    }
}

/// The mode for an image when none was asked for: nothing where the image supports none.
pub open spec fn picked(caps: ImageCaps) -> Option<Mode> {
    if caps.extractable() {
        Some(Mode::Copy)
    } else if caps.dd_bootable {
        Some(Mode::Dd)
    } else {
        None
    }
}

/// The mode for an image when none was asked for: copying wherever the files can be extracted,
/// even if the image would also boot as it is.
pub fn auto(caps: ImageCaps) -> (r: Result<Mode, ModeError>)
    ensures
        match r {
            Ok(m) => picked(caps) == Some(m),
            Err(e) => e is CannotPick && picked(caps) is None,
        },
{
    if caps.copy_capable() {
        return Ok(Mode::Copy);
    }
    if caps.dd_bootable {
        return Ok(Mode::Dd);
    }
    Err(ModeError::CannotPick)
}

/// Whether the image supports only the mode that was not chosen.
pub open spec fn is_risky(chosen: Mode, caps: ImageCaps) -> bool {
    match chosen {
        Mode::Dd => caps.extractable() && !caps.dd_bootable,
        Mode::Copy => caps.dd_bootable && !caps.extractable(),
    }
}

pub fn mode_risky(chosen: Mode, caps: ImageCaps) -> (r: bool)
    ensures
        r == is_risky(chosen, caps),
{
    let only_dd = caps.dd_bootable && !caps.copy_capable();
    let only_copy = caps.copy_capable() && !caps.dd_bootable;
    (only_dd && chosen != Mode::Dd) || (only_copy && chosen != Mode::Copy)
}

// ---------------------------------------------------------------------------------------
// Laws
// ---------------------------------------------------------------------------------------

/// Whether an image supports a mode.
pub open spec fn supports(caps: ImageCaps, m: Mode) -> bool {
    match m {
        Mode::Dd => caps.dd_bootable,
        Mode::Copy => caps.extractable(),
    }
}

/// A mode that was picked for an image is one that the image supports, and never risky for it;
/// none is picked only where the image supports none.
pub proof fn picked_mode_is_supported(caps: ImageCaps, any: Mode)
    ensures
        picked(caps) matches Some(m) ==> supports(caps, m) && !is_risky(m, caps),
        picked(caps) is None ==> !supports(caps, any),
{
}

/// A mode is risky for an image just where the image supports the other mode and not that one.
pub proof fn risky_means_only_the_other(chosen: Mode, other: Mode, caps: ImageCaps)
    requires
        chosen != other,
    ensures
        is_risky(chosen, caps) <==> supports(caps, other) && !supports(caps, chosen),
{
}

/// No mode is risky for an image that supports both.
pub proof fn hybrid_images_are_never_risky(caps: ImageCaps, chosen: Mode)
    requires
        caps.dd_bootable,
        caps.extractable(),
    ensures
        !is_risky(chosen, caps),
{
}

/// A mode's name reads as that mode and as no other.
pub proof fn names_read_back(m: Mode, other: Mode)
    ensures
        text::lower(text::trim(m.name())) == m.name(),
        m.name() == other.name() ==> m == other,
{
    reveal_strlit("dd");
    reveal_strlit("copy");
    let n = m.name();
    assert(text::trim_start(n) == n);
    assert(text::trim_end(n) == n);
    assert(text::lower(n) =~= n);
}

} // verus!
