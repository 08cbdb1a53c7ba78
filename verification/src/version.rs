//! The version of the toolchain in use.

use crate::date::Date;
use crate::release::Release;
use vstd::prelude::*;

verus! {

/// The release track that a toolchain was built for.
#[derive(Copy, Clone, Debug, PartialEq, Eq, Hash, Structural)]
pub enum Channel {
    Stable,
    Beta,
    /// A nightly build, with the date it reports.
    Nightly(Date),
    /// A build without a date, such as one made from a source checkout. It
    /// counts as newer than every dated nightly.
    Dev,
}

/// A toolchain's release number and channel.
#[derive(Copy, Clone, Debug, PartialEq, Eq, Hash, Structural)]
pub struct Version {
    pub release: Release,
    pub channel: Channel,
}

impl Channel {
    /// The channel is a nightly track: a dated nightly or a dev build.
    pub open spec fn nightly_track(self) -> bool {
        self is Nightly || self is Dev
    }

    /// Tells whether the channel is a dated nightly or a dev build.
    pub fn is_nightly_track(&self) -> (b: bool)
        ensures
            b == self.nightly_track(),
    {
        match self {
            Channel::Nightly(_) | Channel::Dev => true,
            Channel::Stable | Channel::Beta => false,
        }
    }
}

} // verus!
