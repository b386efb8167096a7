use raftcore::node::targets_of;
use raftcore::CandidateState;
use raftcore::EffectiveMembership;
use raftcore::LeaderId;
use raftcore::LogId;
use raftcore::MembershipConfig;
use raftcore::RaftCore;
use raftcore::ErrorSubject;
use raftcore::ErrorVerb;
use raftcore::State;
use raftcore::StorageError;
use raftcore::Vote;
use raftcore::VoteError;
use raftcore::VoteRequest;
use raftcore::VoteResponse;
use std::collections::BTreeSet;

fn set(ids: &[u64]) -> BTreeSet<u64> {
    let mut s = BTreeSet::new();
    for id in ids {
        s.insert(*id);
    }
    s
}

fn log_id(term: u64, index: u64) -> LogId {
    LogId::new(LeaderId::new(term, 0), index)
}

fn follower(id: u64, voters: &[u64]) -> RaftCore {
    let membership = EffectiveMembership::new(log_id(0, 1), MembershipConfig::new(set(voters)));
    let mut core = RaftCore::new(id, 150, membership);
    core.target_state = State::Follower;
    core
}

#[test]
fn new_node_is_a_non_voter() {
    let core = RaftCore::new(3, 150, EffectiveMembership::new(log_id(0, 0), MembershipConfig::new(set(&[3]))));
    assert_eq!(core.id, 3);
    assert_eq!(core.target_state, State::NonVoter);
    assert_eq!(core.vote, Vote::new_uncommitted(0));
    assert_eq!(core.last_log_id, None);
    assert_eq!(core.last_heartbeat, None);
    assert_eq!(core.election_timeout_min, 150);
}

#[test]
fn vote_request_with_stale_vote_is_rejected() {
    let mut core = follower(0, &[0, 1, 2]);
    core.vote = Vote::new(5, 2);
    core.last_log_id = Some(log_id(4, 9));
    let out = core.handle_vote_request(&VoteRequest::new(Vote::new(4, 1), Some(log_id(4, 20))), 1000);
    assert_eq!(
        out.response,
        VoteResponse { vote: Vote::new(5, 2), vote_granted: false, last_log_id: Some(log_id(4, 9)) }
    );
    assert_eq!(out.persist, None);
    assert!(!out.reset_election_timer);
    assert_eq!(core.vote, Vote::new(5, 2));
    assert_eq!(core.target_state, State::Follower);
}

#[test]
fn vote_request_in_the_same_term_for_a_lower_node_is_rejected() {
    let mut core = follower(0, &[0, 1, 2]);
    core.vote = Vote::new(5, 2);
    let out = core.handle_vote_request(&VoteRequest::new(Vote::new(5, 1), None), 1000);
    assert!(!out.response.vote_granted);
    assert_eq!(core.vote, Vote::new(5, 2));
}

#[test]
fn leader_stickiness() {
    let mut core = follower(0, &[0, 1, 2]);
    core.vote = Vote::new(1, 1);
    core.record_heartbeat(1000);
    let req = VoteRequest::new(Vote::new(2, 2), None);
    let out = core.handle_vote_request(&req, 1005);
    assert!(!out.response.vote_granted);
    assert_eq!(out.response.vote, Vote::new(1, 1));
    assert_eq!(out.persist, None);
    assert!(!out.reset_election_timer);
    assert_eq!(core.vote, Vote::new(1, 1));
}

#[test]
fn heartbeat_exactly_election_timeout_min_ago_still_blocks() {
    let mut core = follower(0, &[0, 1, 2]);
    core.record_heartbeat(1000);
    assert!(core.heartbeat_is_recent(1150));
    assert!(!core.heartbeat_is_recent(1151));
    let req = VoteRequest::new(Vote::new(2, 2), None);
    assert!(!core.handle_vote_request(&req, 1150).response.vote_granted);
    assert!(core.handle_vote_request(&req, 1151).response.vote_granted);
}

#[test]
fn clock_behind_the_heartbeat_counts_as_no_time_passed() {
    let mut core = follower(0, &[0, 1, 2]);
    core.record_heartbeat(1000);
    assert!(core.heartbeat_is_recent(900));
    let mut never = follower(0, &[0, 1, 2]);
    never.election_timeout_min = u64::MAX;
    assert!(!never.heartbeat_is_recent(0));
}

#[test]
fn vote_request_with_stale_log_is_rejected() {
    let mut core = follower(0, &[0, 1, 2]);
    core.vote = Vote::new(1, 1);
    core.last_log_id = Some(log_id(1, 7));
    let behind_in_index = VoteRequest::new(Vote::new(2, 2), Some(log_id(1, 6)));
    assert!(!core.handle_vote_request(&behind_in_index, 0).response.vote_granted);
    let behind_in_term = VoteRequest::new(Vote::new(2, 2), Some(log_id(0, 99)));
    assert!(!core.handle_vote_request(&behind_in_term, 0).response.vote_granted);
    let no_log = VoteRequest::new(Vote::new(2, 2), None);
    let out = core.handle_vote_request(&no_log, 0);
    assert!(!out.response.vote_granted);
    assert_eq!(out.response.last_log_id, Some(log_id(1, 7)));
    assert_eq!(core.vote, Vote::new(1, 1));
}

#[test]
fn vote_request_is_granted() {
    let mut core = follower(0, &[0, 1, 2]);
    core.vote = Vote::new(1, 1);
    core.target_state = State::Candidate;
    core.last_log_id = Some(log_id(1, 7));
    let req = VoteRequest::new(Vote::new(2, 2), Some(log_id(1, 7)));
    let out = core.handle_vote_request(&req, 0);
    assert_eq!(
        out.response,
        VoteResponse { vote: Vote::new(2, 2), vote_granted: true, last_log_id: Some(log_id(1, 7)) }
    );
    assert_eq!(out.persist, Some(Vote::new(2, 2)));
    assert!(out.reset_election_timer);
    assert_eq!(core.vote, Vote::new(2, 2));
    // the role waits for the vote to be durable
    assert_eq!(core.target_state, State::Candidate);
    assert_eq!(core.vote_persisted(out, Ok(())), Ok(out.response));
    assert_eq!(core.target_state, State::Follower);
    assert_eq!(core.vote, Vote::new(2, 2));
    assert_eq!(core.last_log_id, Some(log_id(1, 7)));
}

fn disk_full() -> StorageError {
    StorageError { subject: ErrorSubject::StateMachine, verb: ErrorVerb::Write, source: "disk full".to_string() }
}

#[test]
fn vote_that_was_not_persisted_is_not_answered() {
    let mut core = follower(0, &[0, 1, 2]);
    core.vote = Vote::new(1, 0);
    core.target_state = State::Leader;
    let req = VoteRequest::new(Vote::new(2, 2), None);
    let out = core.handle_vote_request(&req, 0);
    assert!(out.response.vote_granted);
    assert_eq!(out.persist, Some(Vote::new(2, 2)));
    let answer = core.vote_persisted(out, Err(disk_full()));
    assert_eq!(answer, Err(VoteError::StorageError(disk_full())));
    assert_eq!(core.target_state, State::Leader);
    assert_eq!(core.vote, Vote::new(2, 2));
}

#[test]
fn refused_vote_request_leaves_the_role() {
    let mut core = follower(0, &[0, 1, 2]);
    core.vote = Vote::new(5, 1);
    core.target_state = State::Leader;
    let out = core.handle_vote_request(&VoteRequest::new(Vote::new(4, 2), None), 0);
    assert_eq!(out.persist, None);
    assert_eq!(core.vote_persisted(out, Ok(())), Ok(out.response));
    assert_eq!(core.target_state, State::Leader);
    assert_eq!(core.vote_persisted(out, Err(disk_full())), Err(VoteError::StorageError(disk_full())));
    assert_eq!(core.target_state, State::Leader);
}

#[test]
fn the_same_vote_is_granted_again() {
    let mut core = follower(0, &[0, 1, 2]);
    let req = VoteRequest::new(Vote::new(2, 2), None);
    assert!(core.handle_vote_request(&req, 0).response.vote_granted);
    let again = core.handle_vote_request(&req, 1);
    assert!(again.response.vote_granted);
    assert_eq!(again.persist, Some(Vote::new(2, 2)));
}

#[test]
fn start_election_moves_to_the_next_term() {
    let mut core = follower(1, &[0, 1, 2]);
    core.vote = Vote::new(4, 0);
    let candidate = core.start_election();
    assert_eq!(core.vote, Vote::new(5, 1));
    assert_eq!(core.target_state, State::Candidate);
    assert_eq!(candidate.granted, set(&[1]));
    let again = core.start_election();
    assert_eq!(core.vote, Vote::new(6, 1));
    assert_eq!(again.granted, set(&[1]));
}

#[test]
fn vote_requests_go_to_every_other_voter() {
    let mut core = follower(1, &[0, 1, 2, 5]);
    core.last_log_id = Some(log_id(3, 8));
    let candidate = core.start_election();
    let requests = candidate.vote_requests(&core);
    assert_eq!(targets_of(&requests), vec![0, 2, 5]);
    for (_, req) in &requests {
        assert_eq!(*req, VoteRequest { vote: Vote::new(1, 1), last_log_id: Some(log_id(3, 8)) });
    }
}

#[test]
fn vote_requests_of_a_node_outside_the_voters() {
    let mut core = follower(9, &[0, 1]);
    let candidate = core.start_election();
    assert_eq!(targets_of(&candidate.vote_requests(&core)), vec![0, 1]);
    let mut alone = follower(4, &[4]);
    let candidate = alone.start_election();
    assert!(candidate.vote_requests(&alone).is_empty());
}

#[test]
fn candidate_becomes_leader_on_majority() {
    let mut core = follower(0, &[0, 1, 2, 3, 4]);
    let mut candidate = core.start_election();
    let grant = VoteResponse { vote: core.vote, vote_granted: true, last_log_id: None };
    assert_eq!(candidate.handle_vote_response(&mut core, &grant, 1), None);
    assert_eq!(core.target_state, State::Candidate);
    assert_eq!(candidate.granted, set(&[0, 1]));
    // the same voter twice counts once
    assert_eq!(candidate.handle_vote_response(&mut core, &grant, 1), None);
    assert_eq!(core.target_state, State::Candidate);
    assert_eq!(candidate.handle_vote_response(&mut core, &grant, 3), None);
    assert_eq!(core.target_state, State::Leader);
    assert_eq!(candidate.granted, set(&[0, 1, 3]));
    assert_eq!(core.vote, Vote::new(1, 0));
}

#[test]
fn refusing_answer_changes_nothing() {
    let mut core = follower(0, &[0, 1, 2]);
    let mut candidate = core.start_election();
    let refuse = VoteResponse { vote: Vote::new(1, 0), vote_granted: false, last_log_id: None };
    assert_eq!(candidate.handle_vote_response(&mut core, &refuse, 1), None);
    assert_eq!(core.target_state, State::Candidate);
    assert_eq!(candidate.granted, set(&[0]));
    let older = VoteResponse { vote: Vote::new(0, 2), vote_granted: false, last_log_id: None };
    assert_eq!(candidate.handle_vote_response(&mut core, &older, 2), None);
    assert_eq!(core.vote, Vote::new(1, 0));
}

#[test]
fn grants_of_nodes_that_are_no_voters_do_not_elect() {
    let mut core = follower(0, &[0, 1, 2]);
    let mut candidate = core.start_election();
    let grant = VoteResponse { vote: core.vote, vote_granted: true, last_log_id: None };
    candidate.handle_vote_response(&mut core, &grant, 8);
    candidate.handle_vote_response(&mut core, &grant, 9);
    assert_eq!(core.target_state, State::Candidate);
    candidate.handle_vote_response(&mut core, &grant, 2);
    assert_eq!(core.target_state, State::Leader);
}

#[test]
fn higher_term_demotion() {
    let mut core = follower(0, &[0, 1, 2]);
    core.vote = Vote::new(6, 1);
    let mut candidate = core.start_election();
    assert_eq!(core.vote, Vote::new(7, 0));
    let res = VoteResponse { vote: Vote::new_uncommitted(8), vote_granted: false, last_log_id: None };
    let persist = candidate.handle_vote_response(&mut core, &res, 1);
    assert_eq!(persist, Some(Vote::new_uncommitted(8)));
    assert_eq!(core.vote, Vote { term: 8, voted_for: None });
    assert_eq!(core.target_state, State::Follower);
    assert_eq!(candidate.granted, set(&[0]));
}

#[test]
fn higher_vote_demotes_even_when_it_grants() {
    let mut core = follower(0, &[0, 1, 2]);
    let mut candidate = core.start_election();
    let res = VoteResponse { vote: Vote::new(1, 2), vote_granted: true, last_log_id: None };
    let persist = candidate.handle_vote_response(&mut core, &res, 2);
    assert_eq!(persist, Some(Vote::new(1, 2)));
    assert_eq!(core.target_state, State::Follower);
    assert_eq!(candidate.granted, set(&[0]));
}

#[test]
fn initialize_makes_a_follower_with_the_first_entry() {
    let mut core = RaftCore::new(0, 150, EffectiveMembership::new(log_id(0, 0), MembershipConfig::new(set(&[0]))));
    let entry = core.initialize(set(&[0, 1, 2])).unwrap();
    assert_eq!(entry.log_id, LogId::new(LeaderId::new(0, 0), 1));
    assert_eq!(
        entry.payload,
        raftcore::EntryPayload::Membership(MembershipConfig::new(set(&[0, 1, 2])))
    );
    assert_eq!(core.target_state, State::Follower);
    assert_eq!(core.last_log_id, Some(entry.log_id));
    assert_eq!(core.effective_membership.log_id, entry.log_id);
    assert_eq!(core.effective_membership.config, MembershipConfig::new(set(&[0, 1, 2])));
    assert_eq!(core.vote, Vote::new_uncommitted(0));
}

#[test]
fn initialize_is_refused_where_it_does_not_apply() {
    let fresh = || RaftCore::new(0, 150, EffectiveMembership::new(log_id(0, 0), MembershipConfig::new(set(&[0]))));
    let mut without_self = fresh();
    assert_eq!(without_self.initialize(set(&[1, 2])), None);
    assert_eq!(without_self.target_state, State::NonVoter);
    let mut with_log = fresh();
    with_log.last_log_id = Some(log_id(0, 1));
    assert_eq!(with_log.initialize(set(&[0, 1, 2])), None);
    let mut follower = fresh();
    follower.target_state = State::Follower;
    assert_eq!(follower.initialize(set(&[0, 1, 2])), None);
    assert_eq!(follower.last_log_id, None);
}

#[test]
fn leader_opens_its_term_with_a_blank_entry() {
    let mut core = follower(2, &[0, 1, 2]);
    core.vote = Vote::new(3, 2);
    core.target_state = State::Leader;
    core.last_log_id = Some(log_id(1, 7));
    let entry = core.leader_blank_entry();
    assert_eq!(entry.log_id, LogId::new(LeaderId::new(3, 2), 8));
    assert_eq!(entry.payload, raftcore::EntryPayload::Blank);
    assert_eq!(core.last_log_id, Some(entry.log_id));
    let mut empty = follower(2, &[2]);
    assert_eq!(empty.leader_blank_entry().log_id.index, 1);
}

#[test]
fn persisted_vote_never_goes_back() {
    let mut core = follower(1, &[0, 1, 2]);
    let mut seen: Vec<Vote> = vec![core.vote];
    let requests = [
        VoteRequest::new(Vote::new(3, 0), None),
        VoteRequest::new(Vote::new(2, 2), None),
        VoteRequest::new(Vote::new(3, 2), None),
        VoteRequest::new(Vote::new_uncommitted(3), None),
    ];
    for (i, req) in requests.iter().enumerate() {
        let out = core.handle_vote_request(req, i as u64);
        if let Some(v) = out.persist {
            assert_eq!(v, core.vote);
            seen.push(v);
        }
    }
    let mut candidate = core.start_election();
    seen.push(core.vote);
    let answers = [
        VoteResponse { vote: Vote::new(2, 0), vote_granted: false, last_log_id: None },
        VoteResponse { vote: Vote::new(9, 0), vote_granted: false, last_log_id: None },
        VoteResponse { vote: Vote::new(5, 0), vote_granted: true, last_log_id: None },
    ];
    for res in &answers {
        if let Some(v) = candidate.handle_vote_response(&mut core, res, 0) {
            assert_eq!(v, core.vote);
            seen.push(v);
        }
    }
    assert_eq!(
        seen,
        vec![Vote::new_uncommitted(0), Vote::new(3, 0), Vote::new(3, 2), Vote::new(4, 1), Vote::new(9, 0)]
    );
    for pair in seen.windows(2) {
        assert!(pair[0].le(&pair[1]));
    }
}

fn elect(nodes: &mut Vec<RaftCore>, who: usize, alive: &[usize], now: u64) -> CandidateState {
    let mut candidate = nodes[who].start_election();
    let requests = candidate.vote_requests(&nodes[who]);
    for (target, req) in requests {
        let target = target as usize;
        if !alive.contains(&target) {
            continue;
        }
        let out = nodes[target].handle_vote_request(&req, now);
        let answer = nodes[target].vote_persisted(out, Ok(())).unwrap();
        candidate.handle_vote_response(&mut nodes[who], &answer, target as u64);
    }
    candidate
}

fn leaders_of(nodes: &[RaftCore], term: u64) -> Vec<u64> {
    nodes.iter().filter(|n| n.target_state == State::Leader && n.vote.term == term).map(|n| n.id).collect()
}

fn stable_cluster() -> Vec<RaftCore> {
    let mut nodes: Vec<RaftCore> = (0..3u64)
        .map(|id| {
            RaftCore::new(id, 150, EffectiveMembership::new(log_id(0, 0), MembershipConfig::new(set(&[id]))))
        })
        .collect();
    for n in &nodes {
        assert_eq!(n.target_state, State::NonVoter);
        assert_eq!(n.last_log_id, None);
    }
    let first = nodes[0].initialize(set(&[0, 1, 2])).unwrap();
    // the first entry reaches the other nodes by replication
    for n in nodes.iter_mut().skip(1) {
        n.effective_membership = nodes_membership(&first);
        n.last_log_id = Some(first.log_id);
        n.target_state = State::Follower;
    }
    elect(&mut nodes, 0, &[0, 1, 2], 0);
    nodes
}

fn nodes_membership(first: &raftcore::Entry) -> EffectiveMembership {
    match &first.payload {
        raftcore::EntryPayload::Membership(m) => EffectiveMembership::new(first.log_id, m.clone()),
        _ => panic!("the first entry sets the membership"),
    }
}

#[test]
fn cluster_bring_up() {
    let nodes = stable_cluster();
    assert_eq!(leaders_of(&nodes, 1), vec![0]);
    assert_eq!(nodes.iter().filter(|n| n.target_state == State::Leader).count(), 1);
    for n in &nodes {
        assert_eq!(n.vote, Vote::new(1, 0));
        assert_eq!(n.last_log_id.unwrap().index, 1);
    }
    assert_eq!(nodes[1].target_state, State::Follower);
    assert_eq!(nodes[2].target_state, State::Follower);
}

#[test]
fn leader_failure() {
    let mut nodes = stable_cluster();
    for n in nodes.iter_mut().skip(1) {
        n.record_heartbeat(1000);
    }
    // node 0 stops; the election timer of node 1 fires once the heartbeat is old
    elect(&mut nodes, 1, &[1, 2], 1000 + 151);
    assert_eq!(nodes[1].target_state, State::Leader);
    assert!(nodes[1].vote.term >= 2);
    assert_eq!(leaders_of(&nodes[1..], nodes[1].vote.term), vec![1]);
    assert_eq!(nodes[2].vote, nodes[1].vote);
}

#[test]
fn election_within_the_stickiness_window_fails() {
    let mut nodes = stable_cluster();
    for n in nodes.iter_mut().skip(1) {
        n.record_heartbeat(1000);
    }
    elect(&mut nodes, 1, &[1, 2], 1000 + 150);
    assert_eq!(nodes[1].target_state, State::Candidate);
    assert_eq!(nodes[2].vote, Vote::new(1, 0));
}

#[test]
fn one_leader_per_term() {
    let mut nodes: Vec<RaftCore> = (0..3u64).map(|id| follower(id, &[0, 1, 2])).collect();
    // nodes 2 and 1 both stand in term 1; node 0 hears node 2 first
    let mut second = nodes[2].start_election();
    let mut first = nodes[1].start_election();
    let req2 = VoteRequest::new(nodes[2].vote, None);
    let req1 = VoteRequest::new(nodes[1].vote, None);
    let out = nodes[0].handle_vote_request(&req2, 0);
    let answer = nodes[0].vote_persisted(out, Ok(())).unwrap();
    second.handle_vote_response(&mut nodes[2], &answer, 0);
    let out = nodes[0].handle_vote_request(&req1, 0);
    assert!(!out.response.vote_granted);
    let answer = nodes[0].vote_persisted(out, Ok(())).unwrap();
    first.handle_vote_response(&mut nodes[1], &answer, 0);
    assert_eq!(leaders_of(&nodes, 1), vec![2]);
    assert_eq!(nodes[1].target_state, State::Follower);
    assert_eq!(nodes[1].vote, Vote::new(1, 2));
}

#[test]
fn clock_does_not_run_backwards() {
    let clock = raftcore::Clock::start();
    let a = clock.now_ms();
    let b = clock.now_ms();
    assert!(a <= b);
    assert!(a < 60_000);
}

#[test]
fn vote_request_at_the_clocks_time() {
    let clock = raftcore::Clock::start();
    let mut sticky = follower(0, &[0, 1, 2]);
    sticky.election_timeout_min = 60_000;
    sticky.record_heartbeat_now(&clock);
    assert!(sticky.last_heartbeat.is_some());
    let req = VoteRequest::new(Vote::new(2, 2), None);
    let out = sticky.handle_vote_request_now(&req, &clock);
    assert!(!out.response.vote_granted);
    assert_eq!(sticky.vote, Vote::new_uncommitted(0));
    let mut free = follower(0, &[0, 1, 2]);
    let out = free.handle_vote_request_now(&req, &clock);
    assert!(out.response.vote_granted);
    assert_eq!(out.persist, Some(Vote::new(2, 2)));
}

#[test]
fn node_removed_from_the_voters_becomes_a_non_voter() {
    let mut core = follower(2, &[0, 1, 2]);
    core.target_state = State::Leader;
    core.membership_committed(&MembershipConfig::new(set(&[0, 1, 2])));
    assert_eq!(core.target_state, State::Leader);
    core.membership_committed(&MembershipConfig::new(set(&[0, 1])));
    assert_eq!(core.target_state, State::NonVoter);
    assert_eq!(core.vote, Vote::new_uncommitted(0));
}

#[test]
fn voter_grants_a_higher_node_in_the_same_term() {
    let mut voter = follower(0, &[0, 1, 2]);
    let first = voter.handle_vote_request(&VoteRequest::new(Vote::new(1, 1), None), 0);
    assert!(first.response.vote_granted);
    let second = voter.handle_vote_request(&VoteRequest::new(Vote::new(1, 2), None), 0);
    assert!(second.response.vote_granted);
    assert_eq!(voter.vote, Vote::new(1, 2));
    let lower = voter.handle_vote_request(&VoteRequest::new(Vote::new(1, 1), None), 0);
    assert!(!lower.response.vote_granted);
    let nobody = voter.handle_vote_request(&VoteRequest::new(Vote::new_uncommitted(1), None), 0);
    assert!(!nobody.response.vote_granted);
}
