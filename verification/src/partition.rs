//! A bounded window onto a device, which reads and writes as if it were a device of its own.

use vstd::prelude::*;

use crate::position;
use crate::position::{SeekError, SeekTo};

verus! {

/// The bytes `base..base + len` of a device, and a position among them.
pub struct Partition {
    base: u64,
    len: u64,
    pos: u64,
}

/// A transfer on the device below: this many bytes from this offset on.
#[derive(Debug, Clone, Copy, PartialEq, Eq, Structural)]
pub struct Transfer {
    pub offset: u64,
    pub count: usize,
}

/// The abstract window.
pub struct Window {
    pub base: nat,
    pub len: nat,
    pub pos: nat,
}

impl Window {
    /// How many of `want` bytes the window has from its position on.
    pub open spec fn room(self, want: nat) -> nat {
        if self.pos >= self.len {
            0
        } else if want <= self.len - self.pos {
            want
        } else {
            (self.len - self.pos) as nat
        }
    }
}

impl View for Partition {
    type V = Window;

    closed spec fn view(&self) -> Window {
        Window { base: self.base as nat, len: self.len as nat, pos: self.pos as nat }
    }
}

impl Partition {
    /// The window ends within the range of byte offsets.
    pub open spec fn wf(&self) -> bool {
        &&& self@.base + self@.len <= u64::MAX
        &&& self@.pos <= u64::MAX
    }

    pub fn new(base: u64, len: u64) -> (p: Partition)
        requires
            base + len <= u64::MAX,
        ensures
            p.wf(),
            p@ == (Window { base: base as nat, len: len as nat, pos: 0 }),
    {
        Partition { base, len, pos: 0 }
    }

    /// The transfer that reads up to `want` bytes: `None` at the end of the window.
    pub fn read(&self, want: usize) -> (t: Option<Transfer>)
        requires
            self.wf(),
        ensures
            match t {
                None => self@.pos >= self@.len,
                Some(t) => {
                    &&& self@.pos < self@.len
                    &&& t.offset == self@.base + self@.pos
                    &&& t.count == self@.room(want as nat)
                },
            },
    {
        if self.pos >= self.len {
            return None;
        }
        let left: u64 = self.len - self.pos;
        let count: usize = if want as u64 <= left {
            want
        } else {
            left as usize
        };
        Some(Transfer { offset: self.base + self.pos, count })
    }

    /// The transfer that writes up to `want` bytes: `None` past the end of the window, where
    /// a write is an error.
    pub fn write(&self, want: usize) -> (t: Option<Transfer>)
        requires
            self.wf(),
        ensures
            match t {
                None => self@.pos >= self@.len,
                Some(t) => {
                    &&& self@.pos < self@.len
                    &&& t.offset == self@.base + self@.pos
                    &&& t.count == self@.room(want as nat)
                },
            },
    {
        self.read(want)
    }

    /// Moves on by the `n` bytes that the device transferred.
    pub fn advance(&mut self, n: usize)
        requires
            old(self).wf(),
            old(self)@.pos + n <= u64::MAX,
        ensures
            final(self).wf(),
            final(self)@ == (Window { pos: old(self)@.pos + n as nat, ..old(self)@ }),
    {
        self.pos = self.pos + n as u64;
    }

    pub fn can_seek(&self, to: SeekTo) -> (r: bool)
        requires
            self.wf(),
        ensures
            r == position::seek_in_range(to, self@.pos as u64, self@.len as u64),
    {
        position::can_seek(to, self.pos, self.len)
    }

    /// Moves to a position, counted within the window; it may lie past the end.
    pub fn seek(&mut self, to: SeekTo) -> (r: Result<u64, SeekError>)
        requires
            old(self).wf(),
            position::seek_in_range(to, old(self)@.pos as u64, old(self)@.len as u64),
        ensures
            final(self).wf(),
            ({
                let target = position::seek_target(
                    to,
                    old(self)@.pos as u64,
                    old(self)@.len as u64,
                );
                if target < 0 {
                    &&& r == Err::<u64, SeekError>(SeekError::Negative)
                    &&& final(self)@ == old(self)@
                } else {
                    &&& r == Ok::<u64, SeekError>(target as u64)
                    &&& final(self)@ == (Window { pos: target as nat, ..old(self)@ })
                }
            }),
    {
        match position::resolve_seek(to, self.pos, self.len) {
            Ok(np) => {
                self.pos = np;
                Ok(np)
            },
            Err(e) => Err(e),
        }
    }
}

/// No transfer leaves the window: all its bytes lie between the window's base and end.
pub proof fn transfers_stay_inside(w: Window, want: nat)
    requires
        w.pos < w.len,
    ensures
        w.base <= w.base + w.pos,
        w.base + w.pos + w.room(want) <= w.base + w.len,
        want > 0 ==> w.room(want) > 0,
        w.room(want) <= want,
{
}

} // verus!
