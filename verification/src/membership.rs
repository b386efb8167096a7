//! The voter set of a cluster and its majority rule.

use crate::log_id::LogId;
use crate::log_id::NodeId;
use std::collections::BTreeSet;
use vstd::prelude::*;
use vstd::std_specs::btree::*;
use vstd::std_specs::iter::IteratorSpec;

verus! {

/// The nodes whose votes count. Its view is the set of their ids.
#[derive(Debug, PartialEq, Eq)]
pub struct MembershipConfig {
    voters: BTreeSet<NodeId>,
}

/// A membership together with the log position of the entry that set it.
#[derive(Debug, PartialEq, Eq)]
pub struct EffectiveMembership {
    pub log_id: LogId,
    pub config: MembershipConfig,
}

/// What an `EffectiveMembership` stands for in contracts.
pub struct EffectiveMembershipView {
    pub log_id: LogId,
    pub config: Set<NodeId>,
}

/// `granted` holds strictly more than half of `voters`.
pub open spec fn is_majority_of(voters: Set<NodeId>, granted: Set<NodeId>) -> bool {
    granted.intersect(voters).len() > voters.len() / 2
}

/// The members of `set`, each once.
pub fn set_members(set: &BTreeSet<NodeId>) -> (out: Vec<NodeId>)
    ensures
        out@.no_duplicates(),
        out@.to_set() == set@,
        set@.finite(),
        out@.len() == set@.len(),
{
    broadcast use vstd::laws_cmp::group_laws_cmp;
    broadcast use group_btree_axioms;

    let mut out: Vec<NodeId> = Vec::new();
    let ghost all = spec_btree_keys_iter(set).remaining();
    let ghost ids = all.unref();
    let iter = set.iter();
    proof {
        assert(key_obeys_cmp_spec::<NodeId>());
        assert(iter == spec_btree_keys_iter(set));
        assert(ids.to_set() == set@);
        assert(ids.len() == all.len());
        assert forall|i: int, j: int| 0 <= i < ids.len() && 0 <= j < ids.len() && i != j implies ids[i]
            != ids[j] by {
            assert(all[i] != all[j]);
        }
        vstd::seq_lib::seq_to_set_is_finite(ids);
    }
    for x in it: iter
        invariant
            it.seq() == all,
            ids == all.unref(),
            out@ == ids.take(it.index()),
    {
        out.push(*x);
        proof {
            assert(ids.take(it.index() + 1) == ids.take(it.index()).push(*x));
        }
    }
    proof {
        assert(ids.take(ids.len() - 0) == ids);
    }
    out
}

/// Whether `id` is in `set`.
pub fn set_contains(set: &BTreeSet<NodeId>, id: NodeId) -> (r: bool)
    ensures
        r == set@.contains(id),
{
    broadcast use vstd::laws_cmp::group_laws_cmp;
    broadcast use group_btree_axioms;

    set.contains(&id)
}

/// Adds `id` to `set`.
pub fn set_insert(set: &mut BTreeSet<NodeId>, id: NodeId)
    ensures
        final(set)@ == old(set)@.insert(id),
{
    broadcast use vstd::laws_cmp::group_laws_cmp;
    broadcast use group_btree_axioms;

    set.insert(id);
}

/// Counting the members of a duplicate-free sequence that lie in `other`
/// gives the size of the intersection.
proof fn lemma_count_common(ids: Seq<NodeId>, other: Set<NodeId>, i: int)
    requires
        ids.no_duplicates(),
        0 <= i < ids.len(),
    ensures
        ids.take(i).to_set().finite(),
        ids.take(i + 1).to_set().intersect(other).len() == ids.take(i).to_set().intersect(
            other,
        ).len() + if other.contains(ids[i]) {
            1int
        } else {
            0int
        },
{
    let t0 = ids.take(i);
    let t1 = ids.take(i + 1);
    let before = t0.to_set();
    let after = t1.to_set();
    vstd::seq_lib::seq_to_set_is_finite(t0);
    assert(t1 == t0.push(ids[i]));
    assert(!before.contains(ids[i])) by {
        if before.contains(ids[i]) {
            let j = choose|j: int| 0 <= j < t0.len() && t0[j] == ids[i];
            assert(ids[j] == ids[i]);
        }
    }
    assert(after =~= before.insert(ids[i])) by {
        assert forall|x: NodeId| after.contains(x) implies before.insert(ids[i]).contains(x) by {
            let j = choose|j: int| 0 <= j < t1.len() && t1[j] == x;
            if j < i {
                assert(t0[j] == x);
            }
        }
        assert forall|x: NodeId| before.insert(ids[i]).contains(x) implies after.contains(x) by {
            if x == ids[i] {
                assert(t1[i] == x);
            } else {
                let j = choose|j: int| 0 <= j < t0.len() && t0[j] == x;
                assert(t1[j] == x);
            }
        }
    }
    if other.contains(ids[i]) {
        assert(after.intersect(other) =~= before.intersect(other).insert(ids[i]));
    } else {
        assert(after.intersect(other) =~= before.intersect(other));
    }
}

impl View for MembershipConfig {
    type V = Set<NodeId>;

    closed spec fn view(&self) -> Set<NodeId> {
        self.voters@
    }
}

impl View for EffectiveMembership {
    type V = EffectiveMembershipView;

    open spec fn view(&self) -> EffectiveMembershipView {
        EffectiveMembershipView { log_id: self.log_id, config: self.config@ }
    }
}

impl MembershipConfig {
    /// The membership whose voters are `voters`.
    pub fn new(voters: BTreeSet<NodeId>) -> (m: MembershipConfig)
        ensures
            m@ == voters@,
    {
        MembershipConfig { voters }
    }

    /// All voters.
    pub fn all_members(&self) -> (voters: &BTreeSet<NodeId>)
        ensures
            voters@ == self@,
    {
        &self.voters
    }

    /// Whether `id` is a voter.
    pub fn contains(&self, id: NodeId) -> (r: bool)
        ensures
            r == self@.contains(id),
    {
        set_contains(&self.voters, id)
    }

    /// Whether `granted` holds strictly more than half of the voters.
    /// Nodes in `granted` that are no voters do not count.
    pub fn is_majority(&self, granted: &BTreeSet<NodeId>) -> (r: bool)
        ensures
            r == is_majority_of(self@, granted@),
    {
        let voters = set_members(&self.voters);
        let mut count: usize = 0;
        let mut i: usize = 0;
        proof {
            assert(voters@.take(0).to_set().intersect(granted@) =~= Set::<NodeId>::empty());
        }
        while i < voters.len()
            invariant
                i <= voters.len(),
                count <= i,
                voters@.no_duplicates(),
                count == voters@.take(i as int).to_set().intersect(granted@).len(),
            decreases voters.len() - i,
        {
            proof {
                lemma_count_common(voters@, granted@, i as int);
            }
            if set_contains(granted, voters[i]) {
                count = count + 1;
            }
            i = i + 1;
        }
        proof {
            assert(voters@.take(voters.len() as int) == voters@);
            assert(self@.intersect(granted@) =~= granted@.intersect(self@));
        }
        count > voters.len() / 2
    }

}

impl Clone for MembershipConfig {
    fn clone(&self) -> (m: MembershipConfig)
        ensures
            m@ == self@,
    {
        MembershipConfig { voters: self.voters.clone() }
    }
}

impl EffectiveMembership {
    pub fn new(log_id: LogId, config: MembershipConfig) -> (m: EffectiveMembership)
        ensures
            m@ == (EffectiveMembershipView { log_id, config: config@ }),
    {
        EffectiveMembership { log_id, config }
    }
}

impl Clone for EffectiveMembership {
    fn clone(&self) -> (m: EffectiveMembership)
        ensures
            m@ == self@,
    {
        EffectiveMembership { log_id: self.log_id, config: self.config.clone() }
    }
}

/// Two majorities of one finite voter set share a voter.
pub proof fn majorities_intersect(voters: Set<NodeId>, a: Set<NodeId>, b: Set<NodeId>)
    requires
        voters.finite(),
        is_majority_of(voters, a),
        is_majority_of(voters, b),
    ensures
        exists|n: NodeId| voters.contains(n) && a.contains(n) && b.contains(n),
{
    let x = a.intersect(voters);
    let y = b.intersect(voters);
    vstd::set_lib::lemma_len_intersect(voters, a);
    assert(x =~= voters.intersect(a));
    assert(y =~= voters.intersect(b));
    assert(x.finite() && y.finite());
    vstd::set_lib::lemma_set_intersect_union_lens(x, y);
    vstd::set_lib::lemma_len_subset(x.union(y), voters);
    assert(x.intersect(y).len() > 0);
    let n = x.intersect(y).choose();
    assert(x.intersect(y).contains(n));
    assert(voters.contains(n) && a.contains(n) && b.contains(n));
}

} // verus!
