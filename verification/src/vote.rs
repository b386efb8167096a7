//! The vote a node holds: a term and the candidate it voted for in that term.

use crate::log_id::NodeId;
use vstd::prelude::*;

verus! {

/// A term together with the node voted for in it, if any.
///
/// Votes are ordered by term first; within a term "voted for nobody" comes
/// before any node, and nodes compare by id.
#[derive(Clone, Copy, Debug, PartialEq, Eq, Structural)]
pub struct Vote {
    pub term: u64,
    pub voted_for: Option<NodeId>,
}

impl Vote {
    /// The vote for `node_id` in `term`.
    pub fn new(term: u64, node_id: NodeId) -> (v: Vote)
        ensures
            v == (Vote { term, voted_for: Some(node_id) }),
    {
        Vote { term, voted_for: Some(node_id) }
    }

    /// The vote that has seen `term` and voted for nobody in it.
    pub fn new_uncommitted(term: u64) -> (v: Vote)
        ensures
            v == (Vote { term, voted_for: None }),
    {
        Vote { term, voted_for: None }
    }

    /// `self` comes strictly before `other`.
    pub open spec fn is_before(self, other: Vote) -> bool {
        self.term < other.term || (self.term == other.term && match (
            self.voted_for,
            other.voted_for,
        ) {
            (None, None) => false,
            (None, Some(_)) => true,
            (Some(_), None) => false,
            (Some(a), Some(b)) => a < b,
        })
    }

    /// `self` does not come after `other`.
    pub open spec fn is_at_most(self, other: Vote) -> bool {
        !other.is_before(self)
    }

    /// Whether `self` comes strictly before `other`.
    pub fn lt(&self, other: &Vote) -> (r: bool)
        ensures
            r == self.is_before(*other),
    {
        if self.term != other.term {
            self.term < other.term
        } else {
            match (self.voted_for, other.voted_for) {
                (None, None) => false,
                (None, Some(_)) => true,
                (Some(_), None) => false,
                (Some(a), Some(b)) => a < b,
            }
        }
    }

    /// Whether `self` does not come after `other`.
    pub fn le(&self, other: &Vote) -> (r: bool)
        ensures
            r == self.is_at_most(*other),
    {
        !other.lt(self)
    }

    /// Whether `self` comes strictly after `other`.
    pub fn gt(&self, other: &Vote) -> (r: bool)
        ensures
            r == other.is_before(*self),
    {
        other.lt(self)
    }

    /// Whether `self` does not come before `other`.
    pub fn ge(&self, other: &Vote) -> (r: bool)
        ensures
            r == other.is_at_most(*self),
    {
        !self.lt(other)
    }
}

/// The order on votes is total: irreflexive, transitive, and two votes that
/// tie are equal.
pub proof fn vote_order_laws(a: Vote, b: Vote, c: Vote)
    ensures
        !a.is_before(a),
        a.is_before(b) && b.is_before(c) ==> a.is_before(c),
        a.is_at_most(b) && b.is_at_most(c) ==> a.is_at_most(c),
        a.is_before(b) || a == b || b.is_before(a),
        a.is_at_most(b) && b.is_at_most(a) ==> a == b,
        a.is_before(b) ==> a.is_at_most(b),
{
}

} // verus!
