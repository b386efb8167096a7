//! What holds of a node's vote over any run of the vote protocol, and what
//! it takes for a term to have one winner only.
//!
//! Two candidates cannot both win a term as long as no voter grants twice
//! in it. The vote protocol does not see to that by itself: a voter that
//! granted its vote in a term grants again in that term to a candidate with
//! a higher node id, since that vote is not behind its own.

use crate::log_id::NodeId;
use crate::membership::is_majority_of;
use crate::membership::majorities_intersect;
use crate::node::after_election_start;
use crate::node::after_vote_persisted;
use crate::node::after_vote_request;
use crate::node::grants_vote;
use crate::node::after_vote_response;
use crate::node::granted_after_vote_response;
use crate::node::persist_after_vote_response;
use crate::node::vote_request_outcome;
use crate::node::CoreView;
use crate::node::State;
use crate::node::VoteRequest;
use crate::node::VoteResponse;
use crate::vote::Vote;
use vstd::prelude::*;

verus! {

/// What can happen to a node in the vote protocol.
pub enum Stimulus {
    /// A vote request arrives at time `now`; `persisted` tells whether the
    /// vote that the node was to persist for it became durable.
    VoteRequest { req: VoteRequest, now: u64, persisted: bool },
    /// The answer of `target` to the node's own vote request arrives.
    VoteResponse { res: VoteResponse, target: NodeId },
    /// The election timer fires with no heartbeat in sight.
    ElectionTimeout,
}

/// A node together with the votes it has collected as a candidate.
pub struct NodeModel {
    pub core: CoreView,
    pub granted: Set<NodeId>,
}

/// The node starts an election when its timer fires: it is a follower or a
/// candidate, and a next term exists.
pub open spec fn starts_election(s: NodeModel) -> bool {
    (s.core.target_state == State::Follower || s.core.target_state == State::Candidate)
        && s.core.vote.term < u64::MAX
}

/// The node after one stimulus.
pub open spec fn step(s: NodeModel, e: Stimulus) -> NodeModel {
    match e {
        Stimulus::VoteRequest { req, now, persisted } => NodeModel {
            core: after_vote_persisted(
                after_vote_request(s.core, req, now),
                vote_request_outcome(s.core, req, now),
                persisted,
            ),
            ..s
        },
        Stimulus::VoteResponse { res, target } => NodeModel {
            core: after_vote_response(s.core, s.granted, res, target),
            granted: granted_after_vote_response(s.core, s.granted, res, target),
        },
        Stimulus::ElectionTimeout => if starts_election(s) {
            NodeModel { core: after_election_start(s.core), granted: set![s.core.id] }
        } else {
            s
        },
    }
}

/// The vote that the node's owner is asked to persist after one stimulus.
pub open spec fn persist_of(s: NodeModel, e: Stimulus) -> Option<Vote> {
    match e {
        Stimulus::VoteRequest { req, now, persisted } => vote_request_outcome(
            s.core,
            req,
            now,
        ).persist,
        Stimulus::VoteResponse { res, target } => persist_after_vote_response(s.core, res),
        Stimulus::ElectionTimeout => if starts_election(s) {
            Some(after_election_start(s.core).vote)
        } else {
            None
        },
    }
}

/// The node after the stimuli `es`, in order.
pub open spec fn run(s: NodeModel, es: Seq<Stimulus>) -> NodeModel
    decreases es.len(),
{
    if es.len() == 0 {
        s
    } else {
        step(run(s, es.drop_last()), es.last())
    }
}

/// The votes that the owner was asked to persist during the stimuli `es`,
/// in order.
pub open spec fn persisted(s: NodeModel, es: Seq<Stimulus>) -> Seq<Vote>
    decreases es.len(),
{
    if es.len() == 0 {
        Seq::empty()
    } else {
        match persist_of(run(s, es.drop_last()), es.last()) {
            Some(v) => persisted(s, es.drop_last()).push(v),
            None => persisted(s, es.drop_last()),
        }
    }
}

/// No stimulus moves a node's vote back, and what is to be persisted after
/// a stimulus is the vote that the node then holds.
pub proof fn step_never_lowers_vote(s: NodeModel, e: Stimulus)
    ensures
        s.core.vote.is_at_most(step(s, e).core.vote),
        persist_of(s, e) matches Some(v) ==> v == step(s, e).core.vote,
        persist_of(s, e) is None ==> step(s, e).core.vote == s.core.vote,
{
}

/// Over any run of stimuli the node's vote never goes back, and the votes
/// it persists never go back either: each is at least the vote the node
/// started with, at least every vote persisted before it, and at most the
/// vote the node holds in the end.
pub proof fn persisted_vote_never_decreases(s: NodeModel, es: Seq<Stimulus>)
    ensures
        s.core.vote.is_at_most(run(s, es).core.vote),
        forall|i: int|
            0 <= i < persisted(s, es).len() ==> s.core.vote.is_at_most(
                #[trigger] persisted(s, es)[i],
            ) && persisted(s, es)[i].is_at_most(run(s, es).core.vote),
        forall|i: int, j: int|
            0 <= i <= j < persisted(s, es).len() ==> (#[trigger] persisted(s, es)[i]).is_at_most(
                #[trigger] persisted(s, es)[j],
            ),
    decreases es.len(),
{
    if es.len() > 0 {
        let head = es.drop_last();
        let before = run(s, head);
        persisted_vote_never_decreases(s, head);
        step_never_lowers_vote(before, es.last());
        let after = step(before, es.last());
        let sooner = persisted(s, head);
        let all = persisted(s, es);
        crate::vote::vote_order_laws(s.core.vote, before.core.vote, after.core.vote);
        assert forall|i: int| 0 <= i < all.len() implies s.core.vote.is_at_most(#[trigger] all[i])
            && all[i].is_at_most(after.core.vote) by {
            if i < sooner.len() {
                assert(all[i] == sooner[i]);
                crate::vote::vote_order_laws(sooner[i], before.core.vote, after.core.vote);
            }
        }
        assert forall|i: int, j: int| 0 <= i <= j < all.len() implies (#[trigger] all[i]).is_at_most(
            #[trigger] all[j],
        ) by {
            if j < sooner.len() {
                assert(all[i] == sooner[i] && all[j] == sooner[j]);
            } else if i < sooner.len() {
                assert(all[i] == sooner[i]);
                crate::vote::vote_order_laws(sooner[i], before.core.vote, after.core.vote);
            }
        }
    }
}

/// At most one candidate wins a term, as long as no voter grants its vote
/// to two candidates in that term.
///
/// `granted_to` names, for each voter, the candidate it granted its vote to
/// in the term. Two candidates that both collected grants from a majority
/// of the same voters are then the same node.
pub proof fn election_safety(
    voters: Set<NodeId>,
    granted_to: Map<NodeId, NodeId>,
    a: NodeId,
    granted_a: Set<NodeId>,
    b: NodeId,
    granted_b: Set<NodeId>,
)
    requires
        voters.finite(),
        is_majority_of(voters, granted_a),
        is_majority_of(voters, granted_b),
        forall|n: NodeId|
            voters.contains(n) && granted_a.contains(n) ==> granted_to.contains_key(n)
                && granted_to[n] == a,
        forall|n: NodeId|
            voters.contains(n) && granted_b.contains(n) ==> granted_to.contains_key(n)
                && granted_to[n] == b,
    ensures
        a == b,
{
    majorities_intersect(voters, granted_a, granted_b);
    let n = choose|n: NodeId| voters.contains(n) && granted_a.contains(n) && granted_b.contains(n);
    assert(granted_to[n] == a && granted_to[n] == b);
}

/// What a voter that already voted in a term does see to: it grants again
/// in that term only to a candidate whose node id is not below the one it
/// voted for, and never for a vote that names nobody.
pub proof fn second_grant_in_a_term_needs_no_lower_node(
    c: CoreView,
    req: VoteRequest,
    now: u64,
    voted_for: NodeId,
)
    requires
        grants_vote(c, req, now),
        c.vote.voted_for == Some(voted_for),
        req.vote.term == c.vote.term,
    ensures
        req.vote.voted_for matches Some(candidate) && candidate >= voted_for,
{
}

/// A vote request makes no node a follower before its vote is durable: a
/// node whose vote could not be persisted keeps the role it had.
pub proof fn role_changes_only_after_persisting(s: NodeModel, req: VoteRequest, now: u64)
    ensures
        step(s, Stimulus::VoteRequest { req, now, persisted: false }).core.target_state
            == s.core.target_state,
        grants_vote(s.core, req, now) ==> step(
            s,
            Stimulus::VoteRequest { req, now, persisted: true },
        ).core.target_state == State::Follower,
        !grants_vote(s.core, req, now) ==> step(
            s,
            Stimulus::VoteRequest { req, now, persisted: true },
        ) == s,
{
}

/// A node grants its vote only to a candidate whose log is not behind its
/// own, and only for a vote that is not behind its own.
pub proof fn grant_needs_up_to_date_log(c: CoreView, req: VoteRequest, now: u64)
    requires
        vote_request_outcome(c, req, now).response.vote_granted,
    ensures
        crate::log_id::opt_is_at_most(c.last_log_id, req.last_log_id),
        c.vote.is_at_most(req.vote),
        after_vote_request(c, req, now).vote == req.vote,
{
}

} // verus!
