//! The checks before an image is written as it is.

use vstd::prelude::*;

use crate::align;
pub use crate::device::device_size;
use crate::device::FileKind;
use crate::human;
use crate::numbers;
use crate::platform::Platform;
use crate::writer;

verus! {

#[derive(Debug, Clone)]
pub struct WriteParams {
    pub source: String,
    pub target: String,
    pub block_size: usize,
    pub offset: u64,
}

/// The largest block size, 256 MiB.
pub const MAX_BLOCK_SIZE: usize = 268_435_456;

/// What was found out about the source. `None` stands for a question that failed.
#[derive(Debug, Clone, Copy, PartialEq, Eq, Structural)]
pub struct SourceFacts {
    pub is_there: bool,
    pub kind: Option<FileKind>,
    pub size: Option<u64>,
}

/// What was found out about the target. `None` stands for a question that failed.
#[derive(Debug, Clone, Copy, PartialEq, Eq, Structural)]
pub struct TargetFacts {
    pub is_there: bool,
    pub has_metadata: bool,
    /// It could be opened for writing.
    pub opened: bool,
    /// Its size, or 0 where the platform has no way to tell.
    pub size: Option<u64>,
}

#[derive(Debug, Clone, Copy, PartialEq, Eq, Structural)]
pub enum ValidateError {
    BlockSizeZero,
    BlockSizeTooLarge,
    /// The offset is no multiple of the sector size.
    OffsetUnaligned { sector: u64 },
    SourceMissing,
    SourceMetadata,
    SourceNotFileOrDevice,
    SourceNotFile,
    SourceSize,
    SourceEmpty,
    TargetMissing,
    TargetMetadata,
    TargetOpen,
    TargetSize,
    SourceTooLarge { source_size: u64, target_size: u64, available: u64 },
}

// ---------------------------------------------------------------------------------------
// What is checked, in order
// ---------------------------------------------------------------------------------------

pub open spec fn params_problem(p: WriteParams, sector: u64) -> Option<ValidateError> {
    if p.block_size == 0 {
        Some(ValidateError::BlockSizeZero)
    } else if p.block_size > MAX_BLOCK_SIZE {
        Some(ValidateError::BlockSizeTooLarge)
    } else if p.offset % sector != 0 {
        Some(ValidateError::OffsetUnaligned { sector })
    } else {
        None
    }
}

/// Whether something of that kind can be written from.
pub open spec fn is_source_kind(platform: Platform, kind: FileKind) -> bool {
    kind is Regular || (platform.unix() && (kind is BlockDevice || kind is CharDevice))
}

pub open spec fn source_problem(platform: Platform, s: SourceFacts) -> Option<ValidateError> {
    if !s.is_there {
        Some(ValidateError::SourceMissing)
    } else if s.kind is None {
        Some(ValidateError::SourceMetadata)
    } else if !is_source_kind(platform, s.kind->0) {
        Some(
            if platform.unix() {
                ValidateError::SourceNotFileOrDevice
            } else {
                ValidateError::SourceNotFile
            },
        )
    } else if s.size is None {
        Some(ValidateError::SourceSize)
    } else if s.size == Some(0u64) {
        Some(ValidateError::SourceEmpty)
    } else {
        None
    }
}

/// How much of a target lies behind the offset.
pub open spec fn available(target_size: u64, offset: u64) -> u64 {
    if target_size >= offset {
        (target_size - offset) as u64
    } else {
        0
    }
}

/// The target has to be there and writable, its size must not be refused, and it has to have
/// room for the source behind the offset. A size that the platform cannot tell is not checked,
/// nor is Windows asked beforehand whether the target exists.
pub open spec fn target_problem(
    platform: Platform,
    t: TargetFacts,
    source_size: u64,
    offset: u64,
) -> Option<ValidateError> {
    if !(platform is Windows) && !t.is_there {
        Some(ValidateError::TargetMissing)
    } else if platform.unix() && !t.has_metadata {
        Some(ValidateError::TargetMetadata)
    } else if !t.opened {
        Some(ValidateError::TargetOpen)
    } else {
        match t.size {
            None => Some(ValidateError::TargetSize),
            Some(size) => if size > 0 && source_size > available(size, offset) {
                Some(
                    ValidateError::SourceTooLarge {
                        source_size,
                        target_size: size,
                        available: available(size, offset),
                    },
                )
            } else {
                None
            },
        }
    }
}

pub open spec fn problem(
    p: WriteParams,
    platform: Platform,
    sector: u64,
    s: SourceFacts,
    t: TargetFacts,
) -> Option<ValidateError> {
    match params_problem(p, sector) {
        Some(e) => Some(e),
        None => match source_problem(platform, s) {
            Some(e) => Some(e),
            None => target_problem(platform, t, s.size->0, p.offset),
        },
    }
}

/// Checks the request itself, given the sector size of the target.
pub fn check_params(params: &WriteParams, sector: u64) -> (r: Result<(), ValidateError>)
    requires
        sector > 0,
    ensures
        match r {
            Ok(_) => params_problem(*params, sector) is None,
            Err(e) => params_problem(*params, sector) == Some(e),
        },
{
    if params.block_size == 0 {
        return Err(ValidateError::BlockSizeZero);
    }
    if params.block_size > MAX_BLOCK_SIZE {
        return Err(ValidateError::BlockSizeTooLarge);
    }
    if params.offset % sector != 0 {
        return Err(ValidateError::OffsetUnaligned { sector });
    }
    Ok(())
}

/// Checks the source and gives its size.
pub fn check_source(platform: Platform, s: &SourceFacts) -> (r: Result<u64, ValidateError>)
    ensures
        match r {
            Ok(n) => source_problem(platform, *s) is None && s.size == Some(n) && n > 0,
            Err(e) => source_problem(platform, *s) == Some(e),
        },
{
    if !s.is_there {
        return Err(ValidateError::SourceMissing);
    }
    let kind = match s.kind {
        Some(k) => k,
        None => return Err(ValidateError::SourceMetadata),
    };
    let fine: bool = match kind {
        FileKind::Regular => true,
        FileKind::BlockDevice => platform.is_unix(),
        FileKind::CharDevice => platform.is_unix(),
        FileKind::Other => false,
    };
    if !fine {
        return Err(
            if platform.is_unix() {
                ValidateError::SourceNotFileOrDevice
            } else {
                ValidateError::SourceNotFile
            },
        );
    }
    match s.size {
        None => Err(ValidateError::SourceSize),
        Some(n) => if n == 0 {
            Err(ValidateError::SourceEmpty)
        } else {
            Ok(n)
        },
    }
}

/// Checks that the target can take a source of the given size behind the offset.
pub fn open_target_and_check(
    platform: Platform,
    t: &TargetFacts,
    source_size: u64,
    offset: u64,
) -> (r: Result<(), ValidateError>)
    ensures
        match r {
            Ok(_) => target_problem(platform, *t, source_size, offset) is None,
            Err(e) => target_problem(platform, *t, source_size, offset) == Some(e),
        },
{
    let windows: bool = match platform {
        Platform::Windows => true,
        _ => false,
    };
    if !windows && !t.is_there {
        return Err(ValidateError::TargetMissing);
    }
    if platform.is_unix() && !t.has_metadata {
        return Err(ValidateError::TargetMetadata);
    }
    if !t.opened {
        return Err(ValidateError::TargetOpen);
    }
    let size: u64 = match t.size {
        Some(n) => n,
        None => return Err(ValidateError::TargetSize),
    };
    if size > 0 {
        let room: u64 = if size >= offset {
            size - offset
        } else {
            0
        };
        if source_size > room {
            return Err(
                ValidateError::SourceTooLarge { source_size, target_size: size, available: room },
            );
        }
    }
    Ok(())
}

/// Checks everything and gives the size of the source.
pub fn validate(
    params: &WriteParams,
    platform: Platform,
    sector: u64,
    source: &SourceFacts,
    target: &TargetFacts,
) -> (r: Result<u64, ValidateError>)
    requires
        sector > 0,
    ensures
        match r {
            Ok(n) => problem(*params, platform, sector, *source, *target) is None && source.size
                == Some(n),
            Err(e) => problem(*params, platform, sector, *source, *target) == Some(e),
        },
{
    match check_params(params, sector) {
        Err(e) => return Err(e),
        Ok(_) => {},
    }
    let size: u64 = match check_source(platform, source) {
        Err(e) => return Err(e),
        Ok(n) => n,
    };
    match open_target_and_check(platform, target, size, params.offset) {
        Err(e) => Err(e),
        Ok(_) => Ok(size),
    }
}

/// A request that passes stays inside the target: behind the offset there is room for the whole
/// source, wherever the target's size is known.
pub proof fn accepted_images_fit(
    p: WriteParams,
    platform: Platform,
    sector: u64,
    s: SourceFacts,
    t: TargetFacts,
)
    requires
        sector > 0,
        problem(p, platform, sector, s, t) is None,
    ensures
        s.size is Some,
        s.size->0 > 0,
        t.size is Some,
        t.size->0 > 0 ==> p.offset + s.size->0 <= t.size->0,
        p.offset % sector == 0,
        0 < p.block_size <= MAX_BLOCK_SIZE,
{
}

/// Nothing is written past the end of a target of whole sectors: with its padding too, an image
/// that passes ends inside.
pub proof fn accepted_writes_stay_inside(
    p: WriteParams,
    platform: Platform,
    sector: u64,
    s: SourceFacts,
    t: TargetFacts,
)
    requires
        sector > 0,
        problem(p, platform, sector, s, t) is None,
        t.size->0 > 0,
        t.size->0 % sector == 0,
    ensures
        p.offset + align::padded_len(s.size->0 as nat, sector as nat) <= t.size->0,
{
    accepted_images_fit(p, platform, sector, s, t);
    writer::padding_fits_where_the_image_fits(
        s.size->0 as nat,
        p.offset as nat,
        t.size->0 as nat,
        sector as nat,
    );
}

// ---------------------------------------------------------------------------------------
// What is said about it
// ---------------------------------------------------------------------------------------

impl ValidateError {
    pub open spec fn text(self, p: WriteParams) -> Seq<char> {
        match self {
            ValidateError::BlockSizeZero => "Block size must be greater than zero"@,
            ValidateError::BlockSizeTooLarge => "Block size "@ + numbers::decimal(
                p.block_size as nat,
            ) + " is unreasonably large (max 256 MiB)"@,
            ValidateError::OffsetUnaligned { sector } => "--offset "@ + numbers::decimal(
                p.offset as nat,
            ) + " is not a multiple of the target's "@ + numbers::decimal(sector as nat)
                + "-byte sector size"@,
            ValidateError::SourceMissing => "Source file does not exist: "@ + p.source@,
            ValidateError::SourceMetadata => "Cannot read metadata for source: "@ + p.source@,
            ValidateError::SourceNotFileOrDevice =>
                "Source is not a regular file or block device: "@ + p.source@,
            ValidateError::SourceNotFile => "Source is not a regular file: "@ + p.source@,
            ValidateError::SourceSize => "Cannot determine size of source: "@ + p.source@,
            ValidateError::SourceEmpty => "Source file is empty: "@ + p.source@,
            ValidateError::TargetMissing => "Target device does not exist: "@ + p.target@,
            ValidateError::TargetMetadata => "Cannot read metadata for target: "@ + p.target@,
            ValidateError::TargetOpen => "Cannot open target for writing: "@ + p.target@
                + " (are you running as root/Administrator?)"@,
            ValidateError::TargetSize => "Cannot determine size of target: "@ + p.target@,
            ValidateError::SourceTooLarge { source_size, target_size, available } => "Source ("@
                + human::human(source_size as nat)
                + ") is larger than available target space ("@ + human::human(target_size as nat)
                + ", "@ + human::human(p.offset as nat) + " offset, "@ + human::human(
                available as nat,
            ) + " available)"@,
        }
    }

    pub fn message(&self, params: &WriteParams) -> (r: String)
        ensures
            r@ == self.text(*params),
    {
        let mut m = String::new();
        match self {
            ValidateError::BlockSizeZero => {
                m.append("Block size must be greater than zero");
            },
            ValidateError::BlockSizeTooLarge => {
                m.append("Block size ");
                m.append(numbers::decimal_text(params.block_size as u64).as_str());
                m.append(" is unreasonably large (max 256 MiB)");
            },
            ValidateError::OffsetUnaligned { sector } => {
                m.append("--offset ");
                m.append(numbers::decimal_text(params.offset).as_str());
                m.append(" is not a multiple of the target's ");
                m.append(numbers::decimal_text(*sector).as_str());
                m.append("-byte sector size");
            },
            ValidateError::SourceMissing => {
                m.append("Source file does not exist: ");
                m.append(params.source.as_str());
            },
            ValidateError::SourceMetadata => {
                m.append("Cannot read metadata for source: ");
                m.append(params.source.as_str());
            },
            ValidateError::SourceNotFileOrDevice => {
                m.append("Source is not a regular file or block device: ");
                m.append(params.source.as_str());
            },
            ValidateError::SourceNotFile => {
                m.append("Source is not a regular file: ");
                m.append(params.source.as_str());
            },
            ValidateError::SourceSize => {
                m.append("Cannot determine size of source: ");
                m.append(params.source.as_str());
            },
            ValidateError::SourceEmpty => {
                m.append("Source file is empty: ");
                m.append(params.source.as_str());
            },
            ValidateError::TargetMissing => {
                m.append("Target device does not exist: ");
                m.append(params.target.as_str());
            },
            ValidateError::TargetMetadata => {
                m.append("Cannot read metadata for target: ");
                m.append(params.target.as_str());
            },
            ValidateError::TargetOpen => {
                m.append("Cannot open target for writing: ");
                m.append(params.target.as_str());
                m.append(" (are you running as root/Administrator?)");
            },
            ValidateError::TargetSize => {
                m.append("Cannot determine size of target: ");
                m.append(params.target.as_str());
            },
            ValidateError::SourceTooLarge { source_size, target_size, available } => {
                m.append("Source (");
                m.append(human::human_bytes(*source_size).as_str());
                m.append(") is larger than available target space (");
                m.append(human::human_bytes(*target_size).as_str());
                m.append(", ");
                m.append(human::human_bytes(params.offset).as_str());
                m.append(" offset, ");
                m.append(human::human_bytes(*available).as_str());
                m.append(" available)");
            },
        }
        assert(m@ =~= self.text(*params));
        m
    }
}

} // verus!
