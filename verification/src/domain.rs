//! What the values of the analysis have in common: a join.

use vstd::prelude::*;

verus! {

/// Whether joining one abstract value into another changed the target.
#[derive(Debug, Clone, Copy, PartialEq, Eq, Structural)]
pub enum JoinResult {
    Unchanged,
    Changed,
}

impl JoinResult {
    /// `Changed` as soon as one of the two results is `Changed`.
    pub fn combine(self, other: JoinResult) -> (r: JoinResult)
        ensures
            r == self.combine_spec(other),
    {
        match (self, other) {
            (JoinResult::Unchanged, JoinResult::Unchanged) => JoinResult::Unchanged,
            _ => JoinResult::Changed,
        }
    }

    pub open spec fn combine_spec(self, other: JoinResult) -> JoinResult {
        if self == JoinResult::Unchanged && other == JoinResult::Unchanged {
            JoinResult::Unchanged
        } else {
            JoinResult::Changed
        }
    }
}

/// A value of a join semilattice.
pub trait AbstractDomain: Sized + View {
    /// The least upper bound of two values.
    spec fn joined(a: Self::V, b: Self::V) -> Self::V;

    /// Replaces `self` by the least upper bound of `self` and `other`, and
    /// says whether that changed `self`.
    fn join(&mut self, other: &Self) -> (r: JoinResult)
        ensures
            final(self)@ == Self::joined(old(self)@, other@),
            (r == JoinResult::Unchanged) <==> final(self)@ == old(self)@,
    ;

    /// A copy with the same value.
    fn duplicate(&self) -> (r: Self)
        ensures
            r@ == self@,
    ;
}

} // verus!
