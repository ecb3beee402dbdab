//! The El Torito boot catalog of an ISO image: where the embedded EFI boot image lies.

use vstd::prelude::*;

use crate::bytes;
use crate::partition::{Partition, Window};

verus! {

pub const ISO_SECTOR: u64 = 2_048;

/// Where the boot record descriptor of an image starts.
pub const BOOT_RECORD_AT: u64 = 34_816;

/// The size of a boot record, and of a catalog.
pub const RECORD_BYTES: usize = 2_048;

/// Whether a sector is the boot record of an image with a boot catalog.
pub open spec fn is_boot_record(r: Seq<u8>) -> bool {
    &&& r.len() == RECORD_BYTES
    &&& r[0] == 0
    &&& bytes::bytes_at(r, 1, bytes::ascii("CD001"@))
    &&& bytes::bytes_at(r, 7, bytes::ascii("EL TORITO SPECIFICATION"@))
}

/// The byte offset of the catalog that a boot record points to.
pub open spec fn catalog_at(r: Seq<u8>) -> Option<u64> {
    if is_boot_record(r) {
        Some((bytes::le_value(r.subrange(0x47, 0x4B)) * ISO_SECTOR) as u64)
    } else {
        None
    }
}

/// The byte offset of the boot catalog, told from the boot record.
pub fn catalog_offset(record: &[u8]) -> (r: Option<u64>)
    ensures
        r == catalog_at(record@),
{
    if record.len() != RECORD_BYTES || record[0] != 0 || !bytes::has_text_at(record, 1, "CD001")
        || !bytes::has_text_at(record, 7, "EL TORITO SPECIFICATION") {
        return None;
    }
    proof {
        bytes::lemma_byte_ranges();
    }
    let lba = bytes::le_at(record, 0x47, 4);
    Some(lba * ISO_SECTOR)
}

// ---------------------------------------------------------------------------------------
// The catalog
// ---------------------------------------------------------------------------------------

pub open spec fn is_catalog(cat: Seq<u8>) -> bool {
    &&& cat.len() >= RECORD_BYTES
    &&& cat[0] == 0x01
    &&& cat[0x1E] == 0x55
    &&& cat[0x1F] == 0xAA
}

/// How many entries the section with its header at `off` has.
pub open spec fn section_entries(cat: Seq<u8>, off: int) -> nat {
    bytes::le_value(cat.subrange(off + 2, off + 4))
}

/// How much of the catalog lies behind `off`.
pub open spec fn bytes_behind(off: int) -> int {
    if off < RECORD_BYTES {
        RECORD_BYTES - off
    } else {
        0
    }
}

/// The first entry of the first EFI section, looking at section headers from `off` on. Only the
/// last header has the identifier 0x91; each is followed by its entries.
pub open spec fn efi_section_entry(cat: Seq<u8>, off: int) -> Option<int>
    decreases bytes_behind(off),
{
    if off + 0x20 > RECORD_BYTES || (cat[off] != 0x90 && cat[off] != 0x91) {
        None
    } else if cat[off + 1] == 0xEF && section_entries(cat, off) >= 1 {
        Some(off + 0x20)
    } else if cat[off] == 0x91 {
        None
    } else {
        efi_section_entry(cat, off + 0x20 * (1 + section_entries(cat, off)))
    }
}

/// Where the entry for EFI lies: the initial entry if the whole catalog is for EFI, else the
/// first one of an EFI section.
pub open spec fn efi_entry(cat: Seq<u8>) -> Option<int> {
    if !is_catalog(cat) {
        None
    } else if cat[1] == 0xEF {
        Some(0x20)
    } else {
        efi_section_entry(cat, 0x40)
    }
}

/// The sector where the EFI boot image starts: that of the entry for EFI, if it is bootable and
/// lies within the catalog.
pub open spec fn efi_rba(cat: Seq<u8>) -> Option<nat> {
    match efi_entry(cat) {
        None => None,
        Some(o) => if o + 12 <= cat.len() && cat[o] == 0x88 {
            Some(bytes::le_value(cat.subrange(o + 8, o + 12)))
        } else {
            None
        },
    }
}

/// Where the entry for EFI lies, if the catalog has one.
pub fn efi_entry_offset(cat: &[u8]) -> (r: Option<usize>)
    ensures
        match r {
            Some(o) => efi_entry(cat@) == Some(o as int) && o <= RECORD_BYTES,
            None => efi_entry(cat@) is None,
        },
{
    if cat.len() < RECORD_BYTES || cat[0] != 0x01 || cat[0x1E] != 0x55 || cat[0x1F] != 0xAA {
        return None;
    }
    if cat[1] == 0xEF {
        return Some(0x20);
    }
    let mut off: usize = 0x40;
    while off + 0x20 <= RECORD_BYTES
        invariant
            RECORD_BYTES <= cat@.len(),
            off <= 0x40_0000,
            is_catalog(cat@),
            efi_entry(cat@) == efi_section_entry(cat@, off as int),
        decreases 0x40_0000 - off,
    {
        let id: u8 = cat[off];
        if id != 0x90 && id != 0x91 {
            return None;
        }
        proof {
            bytes::lemma_byte_ranges();
        }
        let count: usize = bytes::le_at(cat, off + 2, 2) as usize;
        if cat[off + 1] == 0xEF && count >= 1 {
            return Some(off + 0x20);
        }
        if id == 0x91 {
            return None;
        }
        off = off + 0x20 * (1 + count);
    }
    None
}

/// The sector where the EFI boot image starts, if the catalog names one. An entry that is
/// announced behind the end of the catalog names none.
pub fn eltorito_efi_rba(cat: &[u8]) -> (r: Option<u64>)
    ensures
        match r {
            Some(n) => efi_rba(cat@) == Some(n as nat) && n <= u32::MAX,
            None => efi_rba(cat@) is None,
        },
{
    match efi_entry_offset(cat) {
        None => None,
        Some(o) => if cat.len() >= 12 && o <= cat.len() - 12 && cat[o] == 0x88 {
            proof {
                bytes::lemma_byte_ranges();
            }
            Some(bytes::le_at(cat, o + 8, 4))
        } else {
            None
        },
    }
}

pub open spec fn image_at(cat: Seq<u8>) -> Option<u64> {
    match efi_rba(cat) {
        Some(n) => Some((n * ISO_SECTOR) as u64),
        None => None,
    }
}

/// The byte offset of the EFI boot image, if the catalog names one.
pub fn eltorito_efi_image(cat: &[u8]) -> (r: Option<u64>)
    ensures
        r == image_at(cat@),
{
    match eltorito_efi_rba(cat) {
        Some(n) => Some(n * ISO_SECTOR),
        None => None,
    }
}

/// The part of an image file that the embedded boot image may fill: from its offset to the end
/// of the file.
pub fn embedded_window(offset: u64, file_len: u64) -> (p: Partition)
    ensures
        p.wf(),
        p@ == (Window {
            base: offset as nat,
            len: if file_len >= offset {
                (file_len - offset) as nat
            } else {
                0
            },
            pos: 0,
        }),
{
    let len: u64 = if file_len >= offset {
        file_len - offset
    } else {
        0
    };
    Partition::new(offset, len)
}

} // verus!
