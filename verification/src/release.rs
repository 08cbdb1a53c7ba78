//! Release numbers: the `MINOR.PATCH` of an actual toolchain, and the
//! pattern with an optional patch that selectors are written with.

use vstd::prelude::*;

verus! {

/// The release number of a toolchain. The major version is always 1 and is
/// not held.
#[derive(Copy, Clone, Debug, PartialEq, Eq, PartialOrd, Ord, Hash, Structural)]
pub struct Release {
    pub minor: u16,
    pub patch: u16,
}

/// A release number as a selector names it. Without a patch it stands for
/// every patch of its minor version.
#[derive(Copy, Clone, Debug, PartialEq, Eq, Hash, Structural)]
pub struct ReleaseSelector {
    pub minor: u16,
    pub patch: Option<u16>,
}

impl Release {
    /// `self` comes before `other`: by minor version, then by patch.
    pub open spec fn earlier(self, other: Release) -> bool {
        self.minor < other.minor || (self.minor == other.minor && self.patch < other.patch)
    }

    /// Tells whether this release comes before `other`.
    pub fn is_earlier(&self, other: &Release) -> (b: bool)
        ensures
            b == self.earlier(*other),
    {
        self.minor < other.minor || (self.minor == other.minor && self.patch < other.patch)
    }
}

impl ReleaseSelector {
    /// The first release that the selector stands for: a missing patch
    /// counts as 0.
    pub open spec fn floor(self) -> Release {
        Release {
            minor: self.minor,
            patch: match self.patch {
                Some(patch) => patch,
                None => 0,
            },
        }
    }

    /// The selector stands for `release`: the minor versions agree, and so
    /// do the patches where the selector names one.
    pub open spec fn admits(self, release: Release) -> bool {
        self.minor == release.minor && match self.patch {
            Some(patch) => patch == release.patch,
            None => true,
        }
    }

    /// The first release that the selector stands for.
    pub fn first(&self) -> (out: Release)
        ensures
            out == self.floor(),
    {
        Release {
            minor: self.minor,
            patch: match self.patch {
                Some(patch) => patch,
                None => 0,
            },
        }
    }

    /// Tells whether the selector stands for `release`.
    pub fn matches(&self, release: &Release) -> (b: bool)
        ensures
            b == self.admits(*release),
    {
        self.minor == release.minor && match self.patch {
            Some(patch) => patch == release.patch,
            None => true,
        }
    }
}

} // verus!
