//! The vote protocol of one node: answering a vote request, counting the
//! answers to its own requests, and the role changes that follow.
//!
//! The node's state is a plain value and every handler is a step from state
//! and stimulus to the next state and the actions its owner has to perform:
//! persisting a vote, resetting the election timer, sending requests.

use crate::clock::Clock;
use crate::entry::Entry;
use crate::entry::EntryPayload;
use crate::entry::EntryView;
use crate::entry::PayloadView;
use crate::log_id::opt_index;
use crate::log_id::opt_is_before;
use crate::log_id::opt_lt;
use crate::log_id::LeaderId;
use crate::log_id::LogId;
use crate::log_id::NodeId;
use crate::membership::is_majority_of;
use crate::membership::set_contains;
use crate::membership::set_members;
use crate::membership::EffectiveMembership;
use crate::membership::MembershipConfig;
use crate::store::StorageError;
use crate::vote::Vote;
use std::collections::BTreeSet;
use vstd::prelude::*;

verus! {

/// The role a node plays.
#[derive(Clone, Copy, Debug, PartialEq, Eq, Structural)]
pub enum State {
    /// Replicates the log but neither votes nor stands for election.
    NonVoter,
    /// Follows the leader of the current term.
    Follower,
    /// Asks the voters for their votes.
    Candidate,
    /// Leads the current term.
    Leader,
}

/// A candidate asks for a vote.
#[derive(Clone, Copy, Debug, PartialEq, Eq, Structural)]
pub struct VoteRequest {
    pub vote: Vote,
    pub last_log_id: Option<LogId>,
}

/// The answer to a `VoteRequest`.
#[derive(Clone, Copy, Debug, PartialEq, Eq, Structural)]
pub struct VoteResponse {
    /// The vote the responder holds after handling the request.
    pub vote: Vote,
    pub vote_granted: bool,
    /// The last log id of the responder.
    pub last_log_id: Option<LogId>,
}

/// What the owner of a node has to do after the node handled a vote request.
#[derive(Clone, Copy, Debug, PartialEq, Eq, Structural)]
pub struct VoteOutcome {
    /// The answer for the candidate. It may only be sent once `persist`,
    /// if any, is durable.
    pub response: VoteResponse,
    /// The vote to make durable before answering.
    pub persist: Option<Vote>,
    /// Whether the election timer starts anew.
    pub reset_election_timer: bool,
}

/// Why a vote request could not be answered.
#[derive(Debug, PartialEq, Eq)]
pub enum VoteError {
    /// The vote could not be persisted.
    StorageError(StorageError),
}

/// The part of a node's state that the vote protocol reads and writes.
///
/// Times are milliseconds on the node's own monotonic clock.
#[derive(Debug)]
pub struct RaftCore {
    pub id: NodeId,
    /// A vote request is refused while the last heartbeat is at most this old.
    pub election_timeout_min: u64,
    /// The membership most recently appended to the log, committed or not.
    pub effective_membership: EffectiveMembership,
    pub vote: Vote,
    pub last_log_id: Option<LogId>,
    /// When the last valid heartbeat arrived, if one ever did, in whole
    /// milliseconds. The age of a heartbeat is the difference of two such
    /// readings, so it can be one millisecond off the whole milliseconds
    /// that truly passed; at the edge of the window that decides.
    pub last_heartbeat: Option<u64>,
    pub target_state: State,
}

/// What a `RaftCore` stands for in contracts.
pub struct CoreView {
    pub id: NodeId,
    pub election_timeout_min: u64,
    pub membership_log_id: LogId,
    pub voters: Set<NodeId>,
    pub vote: Vote,
    pub last_log_id: Option<LogId>,
    pub last_heartbeat: Option<u64>,
    pub target_state: State,
}

/// The state a candidate keeps while it collects votes.
#[derive(Debug)]
pub struct CandidateState {
    /// The nodes that granted their vote, the candidate itself among them.
    pub granted: BTreeSet<NodeId>,
}

/// Milliseconds from `since` to `now`, zero if the clock reads earlier.
pub open spec fn elapsed_ms(since: u64, now: u64) -> int {
    if now >= since {
        now - since
    } else {
        0
    }
}

/// A heartbeat arrived no longer than `election_timeout_min` ago.
pub open spec fn heartbeat_is_recent(c: CoreView, now: u64) -> bool {
    c.last_heartbeat matches Some(at) && c.election_timeout_min >= elapsed_ms(at, now)
}

/// The node grants its vote to the sender of `req` at time `now`: the
/// request's vote is not behind the node's own, no heartbeat is recent, and
/// the candidate's log is not behind the node's.
pub open spec fn grants_vote(c: CoreView, req: VoteRequest, now: u64) -> bool {
    &&& !req.vote.is_before(c.vote)
    &&& !heartbeat_is_recent(c, now)
    &&& !opt_is_before(req.last_log_id, c.last_log_id)
}

/// The node after it handled `req` at time `now` and before its owner
/// persisted anything: where it grants, it holds the request's vote; its
/// role is as it was.
pub open spec fn after_vote_request(c: CoreView, req: VoteRequest, now: u64) -> CoreView {
    if grants_vote(c, req, now) {
        CoreView { vote: req.vote, ..c }
    } else {
        c
    }
}

/// The node after its owner tried to persist what `out` asked for: a node
/// that granted becomes a follower once its vote is durable; where the vote
/// could not be persisted, or nothing was granted, the node stays as it is.
pub open spec fn after_vote_persisted(c: CoreView, out: VoteOutcome, persisted: bool) -> CoreView {
    if persisted && out.response.vote_granted {
        CoreView { target_state: State::Follower, ..c }
    } else {
        c
    }
}

/// What handling `req` at time `now` asks of the node's owner.
pub open spec fn vote_request_outcome(c: CoreView, req: VoteRequest, now: u64) -> VoteOutcome {
    if grants_vote(c, req, now) {
        VoteOutcome {
            response: VoteResponse {
                vote: req.vote,
                vote_granted: true,
                last_log_id: c.last_log_id,
            },
            persist: Some(req.vote),
            reset_election_timer: true,
        }
    } else {
        VoteOutcome {
            response: VoteResponse { vote: c.vote, vote_granted: false, last_log_id: c.last_log_id },
            persist: None,
            reset_election_timer: false,
        }
    }
}

/// The node after it handled the answer `res` of `target` to its vote request.
pub open spec fn after_vote_response(
    c: CoreView,
    granted: Set<NodeId>,
    res: VoteResponse,
    target: NodeId,
) -> CoreView {
    if c.vote.is_before(res.vote) {
        CoreView { vote: res.vote, target_state: State::Follower, ..c }
    } else if res.vote_granted && is_majority_of(c.voters, granted.insert(target)) {
        CoreView { target_state: State::Leader, ..c }
    } else {
        c
    }
}

/// The granting nodes after the candidate handled the answer `res` of `target`.
pub open spec fn granted_after_vote_response(
    c: CoreView,
    granted: Set<NodeId>,
    res: VoteResponse,
    target: NodeId,
) -> Set<NodeId> {
    if !c.vote.is_before(res.vote) && res.vote_granted {
        granted.insert(target)
    } else {
        granted
    }
}

/// The vote to persist after the candidate handled the answer `res`.
pub open spec fn persist_after_vote_response(c: CoreView, res: VoteResponse) -> Option<Vote> {
    if c.vote.is_before(res.vote) {
        Some(res.vote)
    } else {
        None
    }
}

/// The node may be initialised with `voters`: it is a non-voter, its log is
/// empty, and it is one of the voters.
pub open spec fn can_initialize(c: CoreView, voters: Set<NodeId>) -> bool {
    c.target_state == State::NonVoter && c.last_log_id is None && voters.contains(c.id)
}

/// The log id of the entry that a node creates next in its current term.
pub open spec fn next_log_id(c: CoreView) -> LogId {
    LogId {
        leader_id: LeaderId { term: c.vote.term, node_id: c.id },
        index: (opt_index(c.last_log_id) + 1) as u64,
    }
}

/// The node after it was initialised with `voters`.
pub open spec fn after_initialize(c: CoreView, voters: Set<NodeId>) -> CoreView {
    if can_initialize(c, voters) {
        CoreView {
            membership_log_id: next_log_id(c),
            voters,
            last_log_id: Some(next_log_id(c)),
            target_state: State::Follower,
            ..c
        }
    } else {
        c
    }
}

/// The nodes that a list of vote requests is addressed to, in order.
pub open spec fn targets(requests: Seq<(NodeId, VoteRequest)>) -> Seq<NodeId> {
    Seq::new(requests.len(), |i: int| requests[i].0)
}

/// The node after it started an election.
pub open spec fn after_election_start(c: CoreView) -> CoreView {
    CoreView {
        vote: Vote { term: (c.vote.term + 1) as u64, voted_for: Some(c.id) },
        target_state: State::Candidate,
        ..c
    }
}

/// The nodes that `requests` are addressed to, in order.
pub fn targets_of(requests: &Vec<(NodeId, VoteRequest)>) -> (out: Vec<NodeId>)
    ensures
        out@ == targets(requests@),
{
    let mut out: Vec<NodeId> = Vec::new();
    let mut i: usize = 0;
    while i < requests.len()
        invariant
            i <= requests.len(),
            out@ == targets(requests@).take(i as int),
        decreases requests.len() - i,
    {
        out.push(requests[i].0);
        proof {
            assert(targets(requests@).take(i + 1) == targets(requests@).take(i as int).push(
                requests[i as int].0,
            ));
        }
        i = i + 1;
    }
    proof {
        assert(targets(requests@).take(requests.len() as int) == targets(requests@));
    }
    out
}

impl View for RaftCore {
    type V = CoreView;

    open spec fn view(&self) -> CoreView {
        CoreView {
            id: self.id,
            election_timeout_min: self.election_timeout_min,
            membership_log_id: self.effective_membership.log_id,
            voters: self.effective_membership.config@,
            vote: self.vote,
            last_log_id: self.last_log_id,
            last_heartbeat: self.last_heartbeat,
            target_state: self.target_state,
        }
    }
}

impl VoteRequest {
    pub fn new(vote: Vote, last_log_id: Option<LogId>) -> (req: VoteRequest)
        ensures
            req == (VoteRequest { vote, last_log_id }),
    {
        VoteRequest { vote, last_log_id }
    }
}

impl RaftCore {
    /// A node that has seen nothing yet: term 0, no vote, no log, no
    /// heartbeat, and the role of a non-voter.
    pub fn new(id: NodeId, election_timeout_min: u64, effective_membership: EffectiveMembership) -> (core:
        RaftCore)
        ensures
            core@ == (CoreView {
                id,
                election_timeout_min,
                membership_log_id: effective_membership.log_id,
                voters: effective_membership.config@,
                vote: Vote { term: 0, voted_for: None },
                last_log_id: None,
                last_heartbeat: None,
                target_state: State::NonVoter,
            }),
    {
        RaftCore {
            id,
            election_timeout_min,
            effective_membership,
            vote: Vote { term: 0, voted_for: None },
            last_log_id: None,
            last_heartbeat: None,
            target_state: State::NonVoter,
        }
    }

    /// Whether a heartbeat arrived no longer than `election_timeout_min` before `now`.
    pub fn heartbeat_is_recent(&self, now: u64) -> (r: bool)
        ensures
            r == heartbeat_is_recent(self@, now),
    {
        match self.last_heartbeat {
            Some(at) => {
                let delta: u64 = if now >= at {
                    now - at
                } else {
                    0
                };
                self.election_timeout_min >= delta
            },
            None => false,
        }
    }

    /// Handles the vote request `req` that arrived at time `now`.
    ///
    /// The request is refused, and the node left as it is, if the request's
    /// vote is behind the node's own, if a heartbeat arrived within the last
    /// `election_timeout_min` milliseconds, or if the candidate's log is
    /// behind the node's. Otherwise the node takes over the request's vote
    /// and grants. The node's role does not change here: the owner resets
    /// the election timer, persists the vote and hands the result to
    /// `vote_persisted`, which makes the node a follower and releases the
    /// answer only where the vote is durable.
    ///
    /// Refusing while a heartbeat is recent keeps a candidate that was cut
    /// off from the leader from unseating it. The price is liveness: after a
    /// leader fails, no election can succeed until `election_timeout_min`
    /// has passed since its last heartbeat.
    pub fn handle_vote_request(&mut self, req: &VoteRequest, now: u64) -> (out: VoteOutcome)
        ensures
            final(self)@ == after_vote_request(old(self)@, *req, now),
            out == vote_request_outcome(old(self)@, *req, now),
            out.response.vote == final(self).vote,
            old(self).vote.is_at_most(final(self).vote),
    {
        let last_log_id = self.last_log_id;

        if req.vote.lt(&self.vote) {
            return VoteOutcome {
                response: VoteResponse { vote: self.vote, vote_granted: false, last_log_id },
                persist: None,
                reset_election_timer: false,
            };
        }
        if self.heartbeat_is_recent(now) {
            return VoteOutcome {
                response: VoteResponse { vote: self.vote, vote_granted: false, last_log_id },
                persist: None,
                reset_election_timer: false,
            };
        }
        if opt_lt(&req.last_log_id, &last_log_id) {
            return VoteOutcome {
                response: VoteResponse { vote: self.vote, vote_granted: false, last_log_id },
                persist: None,
                reset_election_timer: false,
            };
        }
        self.vote = req.vote;

        VoteOutcome {
            response: VoteResponse { vote: self.vote, vote_granted: true, last_log_id },
            persist: Some(self.vote),
            reset_election_timer: true,
        }
    }

    /// Finishes a vote request whose outcome is `out`: `persisted` tells how
    /// persisting the vote went, and is `Ok` where nothing was to persist.
    ///
    /// Once the vote is durable, a node that granted becomes a follower and
    /// the answer is released. A vote that could not be persisted is never
    /// answered: the node keeps its role and the storage error is handed on
    /// as it is.
    pub fn vote_persisted(&mut self, out: VoteOutcome, persisted: Result<(), StorageError>) -> (r:
        Result<VoteResponse, VoteError>)
        ensures
            final(self)@ == after_vote_persisted(old(self)@, out, persisted is Ok),
            match persisted {
                Ok(_) => r == Ok::<VoteResponse, VoteError>(out.response),
                Err(e) => r == Err::<VoteResponse, VoteError>(VoteError::StorageError(e)),
            },
    {
        match persisted {
            Ok(_) => {
                if out.response.vote_granted {
                    self.target_state = State::Follower;
                }
                Ok(out.response)
            },
            Err(e) => Err(VoteError::StorageError(e)),
        }
    }

    /// Initialises the cluster from this node with the voters `members`.
    ///
    /// A non-voter with an empty log that is among `members` takes them as
    /// its membership, becomes a follower and returns the membership entry
    /// that its owner has to append to the log as the first entry. Any other
    /// node stays as it is and returns nothing.
    pub fn initialize(&mut self, members: BTreeSet<NodeId>) -> (entry: Option<Entry>)
        ensures
            final(self)@ == after_initialize(old(self)@, members@),
            can_initialize(old(self)@, members@) ==> (entry matches Some(e) && e@ == (EntryView {
                log_id: next_log_id(old(self)@),
                payload: PayloadView::Membership(members@),
            })),
            !can_initialize(old(self)@, members@) ==> entry is None,
            final(self).vote == old(self).vote,
    {
        let is_non_voter = match self.target_state {
            State::NonVoter => true,
            _ => false,
        };
        if !is_non_voter || self.last_log_id.is_some() || !set_contains(&members, self.id) {
            return None;
        }
        let log_id = LogId::new(LeaderId::new(self.vote.term, self.id), 1);
        let config = MembershipConfig::new(members);
        let entry = Entry::new(log_id, EntryPayload::Membership(config.clone()));
        self.effective_membership = EffectiveMembership::new(log_id, config);
        self.last_log_id = Some(log_id);
        self.target_state = State::Follower;
        Some(entry)
    }

    /// The blank entry with which a new leader opens its term: it stands
    /// right after the node's last log id and becomes the node's last entry.
    /// Its owner has to append it to the log.
    pub fn leader_blank_entry(&mut self) -> (entry: Entry)
        requires
            opt_index(old(self).last_log_id) < u64::MAX,
        ensures
            entry@ == (EntryView { log_id: next_log_id(old(self)@), payload: PayloadView::Blank }),
            final(self)@ == (CoreView { last_log_id: Some(next_log_id(old(self)@)), ..old(self)@ }),
    {
        let last_index = match self.last_log_id {
            Some(id) => id.index,
            None => 0,
        };
        let log_id = LogId::new(LeaderId::new(self.vote.term, self.id), last_index + 1);
        self.last_log_id = Some(log_id);
        Entry::new(log_id, EntryPayload::Blank)
    }

    /// Takes note that the membership `config` is committed: a node that is
    /// not among its voters becomes a non-voter, any other node keeps its role.
    pub fn membership_committed(&mut self, config: &MembershipConfig)
        ensures
            final(self)@ == (CoreView {
                target_state: if config@.contains(old(self).id) {
                    old(self).target_state
                } else {
                    State::NonVoter
                },
                ..old(self)@
            }),
    {
        if !config.contains(self.id) {
            self.target_state = State::NonVoter;
        }
    }

    /// Records that a valid heartbeat arrived at time `now`.
    pub fn record_heartbeat(&mut self, now: u64)
        ensures
            final(self)@ == (CoreView { last_heartbeat: Some(now), ..old(self)@ }),
    {
        self.last_heartbeat = Some(now);
    }

    /// Handles the vote request `req` at the time that `clock` reads, as
    /// `handle_vote_request` does for that time.
    pub fn handle_vote_request_now(&mut self, req: &VoteRequest, clock: &Clock) -> (out:
        VoteOutcome)
        ensures
            exists|now: u64|
                final(self)@ == #[trigger] after_vote_request(old(self)@, *req, now) && out
                    == vote_request_outcome(old(self)@, *req, now),
            out.response.vote == final(self).vote,
            old(self).vote.is_at_most(final(self).vote),
    {
        let now = clock.now_ms();
        self.handle_vote_request(req, now)
    }

    /// Records that a valid heartbeat arrived at the time that `clock` reads.
    pub fn record_heartbeat_now(&mut self, clock: &Clock)
        ensures
            final(self).last_heartbeat is Some,
            final(self)@ == (CoreView { last_heartbeat: final(self).last_heartbeat, ..old(self)@ }),
    {
        let now = clock.now_ms();
        self.record_heartbeat(now);
    }

    /// Starts an election: the node moves to the next term, votes for itself
    /// and becomes a candidate whose only granted vote so far is its own.
    /// The new vote has to be persisted, and the election timer reset, before
    /// the vote requests leave.
    pub fn start_election(&mut self) -> (candidate: CandidateState)
        requires
            old(self).vote.term < u64::MAX,
        ensures
            final(self)@ == after_election_start(old(self)@),
            candidate.granted@ == set![old(self).id],
            old(self).vote.is_before(final(self).vote),
    {
        self.vote = Vote { term: self.vote.term + 1, voted_for: Some(self.id) };
        self.target_state = State::Candidate;
        let mut granted: BTreeSet<NodeId> = BTreeSet::new();
        crate::membership::set_insert(&mut granted, self.id);
        CandidateState { granted }
    }
}

impl CandidateState {
    /// Handles the answer `res` that `target` gave to this candidate's vote
    /// request, and returns the vote to persist, if the node's vote changed.
    ///
    /// An answer that carries a vote beyond the node's own makes the node
    /// take that vote over and fall back to follower at once, whatever it
    /// had collected. Otherwise a granting answer adds `target` to the
    /// granting nodes, and the node becomes leader once they are a majority
    /// of the voters. Any other answer changes nothing.
    pub fn handle_vote_response(
        &mut self,
        core: &mut RaftCore,
        res: &VoteResponse,
        target: NodeId,
    ) -> (persist: Option<Vote>)
        ensures
            final(core)@ == after_vote_response(old(core)@, old(self).granted@, *res, target),
            final(self).granted@ == granted_after_vote_response(
                old(core)@,
                old(self).granted@,
                *res,
                target,
            ),
            persist == persist_after_vote_response(old(core)@, *res),
            persist matches Some(v) ==> v == final(core).vote,
            old(core).vote.is_at_most(final(core).vote),
    {
        if res.vote.gt(&core.vote) {
            core.target_state = State::Follower;
            core.vote = res.vote;
            return Some(core.vote);
        }
        if res.vote_granted {
            crate::membership::set_insert(&mut self.granted, target);
            if core.effective_membership.config.is_majority(&self.granted) {
                core.target_state = State::Leader;
                return None;
            }
        }
        None
    }

    /// The vote requests to send: one to every voter but the node itself,
    /// each carrying the node's vote and last log id.
    pub fn vote_requests(&self, core: &RaftCore) -> (out: Vec<(NodeId, VoteRequest)>)
        ensures
            targets(out@).no_duplicates(),
            targets(out@).to_set() == core@.voters.remove(core.id),
            forall|i: int|
                0 <= i < out.len() ==> (#[trigger] out[i]).1 == (VoteRequest {
                    vote: core.vote,
                    last_log_id: core.last_log_id,
                }),
    {
        let members = set_members(core.effective_membership.config.all_members());
        let mut out: Vec<(NodeId, VoteRequest)> = Vec::new();
        let mut i: usize = 0;
        while i < members.len()
            invariant
                i <= members.len(),
                members@.no_duplicates(),
                forall|k: int|
                    0 <= k < out.len() ==> (#[trigger] out[k]).1 == (VoteRequest {
                        vote: core.vote,
                        last_log_id: core.last_log_id,
                    }),
                forall|k: int|
                    0 <= k < out.len() ==> (#[trigger] out[k]).0 != core.id && exists|j: int|
                        0 <= j < i && members[j] == out[k].0,
                forall|j: int|
                    0 <= j < i && #[trigger] members[j] != core.id ==> exists|k: int|
                        0 <= k < out.len() && out[k].0 == members[j],
                forall|k1: int, k2: int|
                    0 <= k1 < k2 < out.len() ==> (#[trigger] out[k1]).0 != (#[trigger] out[k2]).0,
            decreases members.len() - i,
        {
            let member = members[i];
            if member != core.id {
                let rpc = VoteRequest::new(core.vote, core.last_log_id);
                let ghost before = out@;
                out.push((member, rpc));
                proof {
                    assert forall|j: int|
                        0 <= j < i + 1 && #[trigger] members[j] != core.id implies exists|k: int|
                        0 <= k < out.len() && out[k].0 == members[j] by {
                        if j < i {
                            let k = choose|k: int| 0 <= k < before.len() && before[k].0 == members[j];
                            assert(out[k].0 == members[j]);
                        } else {
                            assert(out[out.len() - 1].0 == members[j]);
                        }
                    }
                }
            }
            i = i + 1;
        }
        proof {
            let t = targets(out@);
            let want = core@.voters.remove(core.id);
            assert forall|n: NodeId| t.to_set().contains(n) <==> want.contains(n) by {
                if t.to_set().contains(n) {
                    let k = choose|k: int| 0 <= k < t.len() && t[k] == n;
                    assert(out[k].0 == n);
                    let j = choose|j: int| 0 <= j < members.len() && members[j] == out[k].0;
                    assert(members@.to_set().contains(members@[j]));
                }
                if want.contains(n) {
                    assert(members@.to_set().contains(n));
                    let j = choose|j: int| 0 <= j < members.len() && members@[j] == n;
                    let k = choose|k: int| 0 <= k < out.len() && out[k].0 == members[j];
                    assert(t[k] == n);
                }
            }
            assert(t.to_set() =~= want);
        }
        out
    }
}

} // verus!
