//! The four-point lattice that records how a location was touched.

use crate::domain::{AbstractDomain, JoinResult};
use core::cmp::Ordering;
use vstd::prelude::*;

verus! {

/// An access to local or global state.
///
/// `Borrow` lies below `Read` and `Write`, which are incomparable, and
/// `ReadWriteBorrow` lies above both.
#[derive(Debug, Clone, Copy, PartialEq, Eq, Structural)]
pub enum Access {
    /// Neither read nor written: only reached through a borrow.
    Borrow,
    /// Read through a reference or tested for existence.
    Read,
    /// Written through a reference, moved to or moved from.
    Write,
    /// Could be read, written, or borrowed.
    ReadWriteBorrow,
}

impl View for Access {
    type V = Access;

    open spec fn view(&self) -> Access {
        *self
    }
}

impl Access {
    /// The least upper bound of two accesses.
    pub open spec fn join_spec(self, other: Access) -> Access {
        if self == other {
            self
        } else if self == Access::Borrow {
            other
        } else if other == Access::Borrow {
            self
        } else {
            Access::ReadWriteBorrow
        }
    }

    /// The order of the lattice: `self` is subsumed by `other`.
    pub open spec fn leq(self, other: Access) -> bool {
        self == other || self == Access::Borrow || other == Access::ReadWriteBorrow
    }

    /// The least upper bound of an access that may be absent and an access.
    pub open spec fn join_opt(old: Option<Access>, kind: Access) -> Access {
        match old {
            Some(a) => a.join_spec(kind),
            None => kind,
        }
    }

    /// Whether `self` is subsumed by `other`.
    pub fn subsumed_by(&self, other: &Access) -> (r: bool)
        ensures
            r == self.leq(*other),
    {
        *self == *other || *self == Access::Borrow || *other == Access::ReadWriteBorrow
    }
}

impl AbstractDomain for Access {
    open spec fn joined(a: Access, b: Access) -> Access {
        a.join_spec(b)
    }

    /// Replaces `self` by the least upper bound of `self` and `other`.
    fn join(&mut self, other: &Access) -> (r: JoinResult) {
        let joined = match (*self, *other) {
            (Access::Borrow, x) => x,
            (x, Access::Borrow) => x,
            (Access::Read, Access::Read) => Access::Read,
            (Access::Write, Access::Write) => Access::Write,
            _ => Access::ReadWriteBorrow,
        };
        let r = if joined == *self {
            JoinResult::Unchanged
        } else {
            JoinResult::Changed
        };
        *self = joined;
        r
    }

    fn duplicate(&self) -> (r: Access) {
        *self
    }
}

impl PartialOrd for Access {
    fn partial_cmp(&self, other: &Self) -> (r: Option<Ordering>) {
        if *self == *other {
            return Some(Ordering::Equal);
        }
        match (*self, *other) {
            (Access::Borrow, _) => Some(Ordering::Less),
            (_, Access::Borrow) => Some(Ordering::Greater),
            (Access::ReadWriteBorrow, _) => Some(Ordering::Greater),
            (_, Access::ReadWriteBorrow) => Some(Ordering::Less),
            _ => None,
        }
    }
}

impl vstd::std_specs::cmp::PartialOrdSpecImpl for Access {
    open spec fn obeys_partial_cmp_spec() -> bool {
        true
    }

    open spec fn partial_cmp_spec(&self, other: &Self) -> Option<Ordering> {
        if *self == *other {
            Some(Ordering::Equal)
        } else if self.leq(*other) {
            Some(Ordering::Less)
        } else if other.leq(*self) {
            Some(Ordering::Greater)
        } else {
            None
        }
    }
}

/// Joining an access with itself gives that access.
pub proof fn lemma_join_idempotent(a: Access)
    ensures
        a.join_spec(a) == a,
{
}

/// The join does not depend on the order of its operands.
pub proof fn lemma_join_commutative(a: Access, b: Access)
    ensures
        a.join_spec(b) == b.join_spec(a),
{
}

/// The join does not depend on how three operands are grouped.
pub proof fn lemma_join_associative(a: Access, b: Access, c: Access)
    ensures
        a.join_spec(b).join_spec(c) == a.join_spec(b.join_spec(c)),
{
}

/// `Borrow` is the neutral element of the join.
pub proof fn lemma_join_borrow_neutral(x: Access)
    ensures
        Access::Borrow.join_spec(x) == x,
        x.join_spec(Access::Borrow) == x,
{
}

/// `Read` and `Write` are incomparable and meet only at the top.
pub proof fn lemma_join_read_write()
    ensures
        Access::Read.join_spec(Access::Write) == Access::ReadWriteBorrow,
        !Access::Read.leq(Access::Write),
        !Access::Write.leq(Access::Read),
{
}

/// `ReadWriteBorrow` absorbs every access.
pub proof fn lemma_join_top_absorbs(x: Access)
    ensures
        Access::ReadWriteBorrow.join_spec(x) == Access::ReadWriteBorrow,
        x.join_spec(Access::ReadWriteBorrow) == Access::ReadWriteBorrow,
{
}

/// The join is the least upper bound of the order.
pub proof fn lemma_join_is_least_upper_bound(a: Access, b: Access, c: Access)
    ensures
        a.leq(a.join_spec(b)),
        b.leq(a.join_spec(b)),
        a.leq(c) && b.leq(c) ==> a.join_spec(b).leq(c),
        a.leq(b) <==> a.join_spec(b) == b,
{
}

} // verus!
