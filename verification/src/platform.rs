//! The platforms that behave differently.

use vstd::prelude::*;

verus! {

#[derive(Debug, Clone, Copy, PartialEq, Eq, Structural)]
pub enum Platform {
    Linux,
    MacOs,
    /// Any other Unix.
    Unix,
    Windows,
    Other,
}

impl Platform {
    pub open spec fn unix(self) -> bool {
        self is Linux || self is MacOs || self is Unix
    }

    pub fn is_unix(self) -> (r: bool)
        ensures
            r == self.unix(),
    {
        match self {
            Platform::Linux => true,
            Platform::MacOs => true,
            Platform::Unix => true,
            Platform::Windows => false,
            Platform::Other => false,
        }
    }
}

} // verus!
