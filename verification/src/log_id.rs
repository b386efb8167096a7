//! Node identifiers and log positions, with the order that decides which of
//! two logs is more up to date.

use vstd::prelude::*;

verus! {

/// Identifies one member of the cluster.
pub type NodeId = u64;

/// The leader that created a log entry: the term it led and its node id.
#[derive(Clone, Copy, Debug, PartialEq, Eq, Structural)]
pub struct LeaderId {
    pub term: u64,
    pub node_id: NodeId,
}

/// The position of a log entry: who created it, and its 1-based index.
///
/// Two ids with the same index and different leaders conflict. The order
/// between ids looks at the leader's term first and at the index second; the
/// leader's node id takes no part in it.
#[derive(Clone, Copy, Debug, PartialEq, Eq, Structural)]
pub struct LogId {
    pub leader_id: LeaderId,
    pub index: u64,
}

impl LeaderId {
    pub fn new(term: u64, node_id: NodeId) -> (id: LeaderId)
        ensures
            id == (LeaderId { term, node_id }),
    {
        LeaderId { term, node_id }
    }
}

impl LogId {
    pub fn new(leader_id: LeaderId, index: u64) -> (id: LogId)
        ensures
            id == (LogId { leader_id, index }),
    {
        LogId { leader_id, index }
    }

    /// The term of the leader that created the entry.
    pub open spec fn term(self) -> u64 {
        self.leader_id.term
    }

    /// `self` comes strictly before `other`: lower term, or same term and lower index.
    pub open spec fn is_before(self, other: LogId) -> bool {
        self.term() < other.term() || (self.term() == other.term() && self.index < other.index)
    }

    /// `self` does not come after `other`.
    pub open spec fn is_at_most(self, other: LogId) -> bool {
        !other.is_before(self)
    }

    /// Whether `self` comes strictly before `other`.
    pub fn lt(&self, other: &LogId) -> (r: bool)
        ensures
            r == self.is_before(*other),
    {
        self.leader_id.term < other.leader_id.term || (self.leader_id.term == other.leader_id.term
            && self.index < other.index)
    }

    /// Whether `self` does not come after `other`.
    pub fn le(&self, other: &LogId) -> (r: bool)
        ensures
            r == self.is_at_most(*other),
    {
        !other.lt(self)
    }
}

/// Strict order on optional log ids: "no entry" comes before every entry.
pub open spec fn opt_is_before(a: Option<LogId>, b: Option<LogId>) -> bool {
    match (a, b) {
        (None, None) => false,
        (None, Some(_)) => true,
        (Some(_), None) => false,
        (Some(x), Some(y)) => x.is_before(y),
    }
}

/// `a` does not come after `b`.
pub open spec fn opt_is_at_most(a: Option<LogId>, b: Option<LogId>) -> bool {
    !opt_is_before(b, a)
}

/// The index of an optional log id, 0 standing for "no entry".
pub open spec fn opt_index(a: Option<LogId>) -> u64 {
    match a {
        Some(x) => x.index,
        None => 0,
    }
}

/// Whether `a` comes strictly before `b`, "no entry" first.
pub fn opt_lt(a: &Option<LogId>, b: &Option<LogId>) -> (r: bool)
    ensures
        r == opt_is_before(*a, *b),
{
    match (a, b) {
        (None, None) => false,
        (None, Some(_)) => true,
        (Some(_), None) => false,
        (Some(x), Some(y)) => x.lt(y),
    }
}

/// Whether `a` does not come after `b`, "no entry" first.
pub fn opt_le(a: &Option<LogId>, b: &Option<LogId>) -> (r: bool)
    ensures
        r == opt_is_at_most(*a, *b),
{
    !opt_lt(b, a)
}

/// The order on log ids is a strict weak order: irreflexive, transitive, and
/// any two ids are comparable; ids that tie share term and index.
pub proof fn log_id_order_laws(a: Option<LogId>, b: Option<LogId>, c: Option<LogId>)
    ensures
        !opt_is_before(a, a),
        opt_is_before(a, b) && opt_is_before(b, c) ==> opt_is_before(a, c),
        opt_is_at_most(a, b) && opt_is_at_most(b, c) ==> opt_is_at_most(a, c),
        opt_is_at_most(a, b) || opt_is_at_most(b, a),
        opt_is_before(a, b) ==> opt_is_at_most(a, b),
        opt_is_at_most(a, b) && opt_is_at_most(b, a) ==> (a is None <==> b is None),
        (a matches Some(x) && b matches Some(y) && opt_is_at_most(a, b) && opt_is_at_most(b, a))
            ==> a->0.term() == b->0.term() && a->0.index == b->0.index,
{
}

} // verus!
