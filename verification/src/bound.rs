//! Bounds: the boundary values of the range selectors, their order among
//! themselves, and how a toolchain version stands to one.

use crate::date::Date;
use crate::release::ReleaseSelector;
use crate::version::{Channel, Version};
use vstd::prelude::*;

verus! {

/// A boundary of a version range: a nightly date or a release number.
#[derive(Copy, Clone, Debug, PartialEq, Eq, Hash, Structural)]
pub enum Bound {
    Nightly(Date),
    Stable(ReleaseSelector),
}

/// How one value stands to another in an order.
#[derive(Copy, Clone, Debug, PartialEq, Eq, Hash, Structural)]
pub enum Order {
    Less,
    Equal,
    Greater,
}

impl Bound {
    /// `self` ranks strictly below `other`. Two dates rank as dates do and
    /// two release numbers by minor version and patch, a missing patch
    /// counting as 0. Every release number ranks below every date.
    pub open spec fn below(self, other: Bound) -> bool {
        match (self, other) {
            (Bound::Nightly(a), Bound::Nightly(b)) => a.earlier(b),
            (Bound::Stable(a), Bound::Stable(b)) => a.floor().earlier(b.floor()),
            (Bound::Stable(_), Bound::Nightly(_)) => true,
            (Bound::Nightly(_), Bound::Stable(_)) => false,
        }
    }

    /// `self` and `other` rank the same: the same date, or release numbers
    /// whose minor versions and patches agree, a missing patch counting as 0.
    pub open spec fn level(self, other: Bound) -> bool {
        match (self, other) {
            (Bound::Nightly(a), Bound::Nightly(b)) => a == b,
            (Bound::Stable(a), Bound::Stable(b)) => a.floor() == b.floor(),
            _ => false,
        }
    }

    /// How `self` stands to `other`.
    pub open spec fn order(self, other: Bound) -> Order {
        if self.below(other) {
            Order::Less
        } else if self.level(other) {
            Order::Equal
        } else {
            Order::Greater
        }
    }

    /// Compares two bounds.
    pub fn compare(&self, other: &Bound) -> (out: Order)
        ensures
            out == self.order(*other),
            out is Less <==> self.below(*other),
            out is Equal <==> self.level(*other),
            out is Greater <==> other.below(*self),
    {
        match (self, other) {
            (Bound::Nightly(a), Bound::Nightly(b)) => {
                if a.is_earlier(b) {
                    Order::Less
                } else if b.is_earlier(a) {
                    Order::Greater
                } else {
                    Order::Equal
                }
            },
            (Bound::Stable(a), Bound::Stable(b)) => {
                let a = a.first();
                let b = b.first();
                if a.is_earlier(&b) {
                    Order::Less
                } else if b.is_earlier(&a) {
                    Order::Greater
                } else {
                    Order::Equal
                }
            },
            (Bound::Stable(_), Bound::Nightly(_)) => Order::Less,
            (Bound::Nightly(_), Bound::Stable(_)) => Order::Greater,
        }
    }

    /// Tells whether this bound ranks strictly below `other`.
    pub fn is_below(&self, other: &Bound) -> (b: bool)
        ensures
            b == self.below(*other),
    {
        match self.compare(other) {
            Order::Less => true,
            _ => false,
        }
    }
}

impl Version {
    /// The version lies strictly before `bound`.
    ///
    /// Against a release number only the version's own release number
    /// counts, whatever its channel. Against a date, a stable or beta
    /// version always lies before it, a nightly lies where its date does,
    /// and a dev build never lies before it.
    pub open spec fn before(self, bound: Bound) -> bool {
        match bound {
            Bound::Stable(selector) => self.release.earlier(selector.floor()),
            Bound::Nightly(date) => match self.channel {
                Channel::Stable | Channel::Beta => true,
                Channel::Nightly(built) => built.earlier(date),
                Channel::Dev => false,
            },
        }
    }

    /// The version lies strictly after `bound`.
    pub open spec fn after(self, bound: Bound) -> bool {
        match bound {
            Bound::Stable(selector) => selector.floor().earlier(self.release),
            Bound::Nightly(date) => match self.channel {
                Channel::Stable | Channel::Beta => false,
                Channel::Nightly(built) => date.earlier(built),
                Channel::Dev => true,
            },
        }
    }

    /// The version is the one that `bound` names: the nightly of that very
    /// date, or a release that the release number stands for.
    pub open spec fn at(self, bound: Bound) -> bool {
        match bound {
            Bound::Stable(selector) => selector.admits(self.release),
            Bound::Nightly(date) => self.channel == Channel::Nightly(date),
        }
    }

    /// Compares the version with a bound.
    pub fn compare(&self, bound: &Bound) -> (out: Order)
        ensures
            out is Less <==> self.before(*bound),
            out is Greater <==> self.after(*bound),
    {
        match bound {
            Bound::Stable(selector) => {
                let floor = selector.first();
                if self.release.is_earlier(&floor) {
                    Order::Less
                } else if floor.is_earlier(&self.release) {
                    Order::Greater
                } else {
                    Order::Equal
                }
            },
            Bound::Nightly(date) => match &self.channel {
                Channel::Stable | Channel::Beta => Order::Less,
                Channel::Nightly(built) => {
                    if built.is_earlier(date) {
                        Order::Less
                    } else if date.is_earlier(built) {
                        Order::Greater
                    } else {
                        Order::Equal
                    }
                },
                Channel::Dev => Order::Greater,
            },
        }
    }

    /// Tells whether the version lies strictly before `bound`.
    pub fn is_before(&self, bound: &Bound) -> (b: bool)
        ensures
            b == self.before(*bound),
    {
        match self.compare(bound) {
            Order::Less => true,
            _ => false,
        }
    }

    /// Tells whether the version is the one that `bound` names.
    pub fn is_at(&self, bound: &Bound) -> (b: bool)
        ensures
            b == self.at(*bound),
    {
        match bound {
            Bound::Stable(selector) => selector.matches(&self.release),
            Bound::Nightly(date) => match &self.channel {
                Channel::Nightly(built) => built.year == date.year && built.month == date.month
                    && built.day == date.day,
                _ => false,
            },
        }
    }
}

/// Of two bounds exactly one holds: the first ranks below the second, they
/// rank the same, or the second ranks below the first.
pub proof fn lemma_bound_order_total(a: Bound, b: Bound)
    ensures
        a.below(b) || a.level(b) || b.below(a),
        !(a.below(b) && a.level(b)),
        !(a.below(b) && b.below(a)),
        !(a.level(b) && b.below(a)),
{
}

/// Ranking below is transitive, and ranking the same is an equivalence that
/// ranking below respects.
pub proof fn lemma_bound_order_transitive(a: Bound, b: Bound, c: Bound)
    ensures
        a.below(b) && b.below(c) ==> a.below(c),
        a.level(a),
        a.level(b) ==> b.level(a),
        a.level(b) && b.level(c) ==> a.level(c),
        a.level(b) && b.below(c) ==> a.below(c),
        a.below(b) && b.level(c) ==> a.below(c),
{
}

} // verus!
