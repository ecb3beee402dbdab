//! Byte positions: where a seek leads to.

use vstd::prelude::*;

verus! {

/// Where to move to: from the start, from the end, or from where one is.
#[derive(Debug, Clone, Copy, PartialEq, Eq, Structural)]
pub enum SeekTo {
    Start(u64),
    End(i64),
    Current(i64),
}

#[derive(Debug, Clone, Copy, PartialEq, Eq, Structural)]
pub enum SeekError {
    /// The new position would lie before the start.
    Negative,
    /// Nothing can be said about the end.
    EndUnsupported,
}

/// `n` taken as a signed 64-bit number.
pub open spec fn as_signed(n: u64) -> int {
    if n <= i64::MAX {
        n as int
    } else {
        n - 0x1_0000_0000_0000_0000
    }
}

pub fn to_signed(n: u64) -> (r: i64)
    ensures
        r == as_signed(n),
{
    if n <= i64::MAX as u64 {
        n as i64
    } else {
        -((u64::MAX - n) as i64) - 1
    }
}

/// The position that a seek asks for, before anything is known of its sign.
pub open spec fn seek_target(to: SeekTo, pos: u64, len: u64) -> int {
    match to {
        SeekTo::Start(x) => as_signed(x),
        SeekTo::End(x) => as_signed(len) + x,
        SeekTo::Current(x) => as_signed(pos) + x,
    }
}

pub open spec fn seek_in_range(to: SeekTo, pos: u64, len: u64) -> bool {
    i64::MIN <= seek_target(to, pos, len) <= i64::MAX
}

/// Whether the position that a seek asks for can be counted in 64 signed bits.
pub fn can_seek(to: SeekTo, pos: u64, len: u64) -> (r: bool)
    ensures
        r == seek_in_range(to, pos, len),
{
    let target: i128 = match to {
        SeekTo::Start(x) => to_signed(x) as i128,
        SeekTo::End(x) => to_signed(len) as i128 + x as i128,
        SeekTo::Current(x) => to_signed(pos) as i128 + x as i128,
    };
    -0x8000_0000_0000_0000 <= target && target <= 0x7FFF_FFFF_FFFF_FFFF
}

/// The new position, or an error if it lies before the start.
pub fn resolve_seek(to: SeekTo, pos: u64, len: u64) -> (r: Result<u64, SeekError>)
    requires
        seek_in_range(to, pos, len),
    ensures
        r == if seek_target(to, pos, len) < 0 {
            Err::<u64, SeekError>(SeekError::Negative)
        } else {
            Ok::<u64, SeekError>(seek_target(to, pos, len) as u64)
        },
{
    let np: i64 = match to {
        SeekTo::Start(x) => to_signed(x),
        SeekTo::End(x) => to_signed(len) + x,
        SeekTo::Current(x) => to_signed(pos) + x,
    };
    if np < 0 {
        return Err(SeekError::Negative);
    }
    Ok(np as u64)
}

} // verus!
