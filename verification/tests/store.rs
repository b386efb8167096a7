use raftcore::store::snapshot_name;
use raftcore::ClientRequest;
use raftcore::ClientResponse;
use raftcore::EffectiveMembership;
use raftcore::Entry;
use raftcore::EntryPayload;
use raftcore::ErrorSubject;
use raftcore::ErrorVerb;
use raftcore::IndexBound;
use raftcore::LeaderId;
use raftcore::LogId;
use raftcore::LogState;
use raftcore::MemStore;
use raftcore::MemStoreStateMachine;
use raftcore::MembershipConfig;
use raftcore::SnapshotMeta;
use raftcore::StateMachineChanges;
use raftcore::Vote;
use std::collections::BTreeSet;

fn log_id(term: u64, index: u64) -> LogId {
    LogId::new(LeaderId::new(term, 0), index)
}

fn blank(term: u64, index: u64) -> Entry {
    Entry::new(log_id(term, index), EntryPayload::Blank)
}

fn request(term: u64, index: u64, client: &str, serial: u64, status: &str) -> Entry {
    Entry::new(
        log_id(term, index),
        EntryPayload::Normal(ClientRequest {
            client: client.to_string(),
            serial,
            status: status.to_string(),
        }),
    )
}

fn append(store: &mut MemStore, entries: &[Entry]) {
    let refs: Vec<&Entry> = entries.iter().collect();
    store.append_to_log(&refs);
}

fn apply(store: &mut MemStore, entries: &[Entry]) -> Vec<ClientResponse> {
    let refs: Vec<&Entry> = entries.iter().collect();
    store.apply_to_state_machine(&refs)
}

fn all(store: &MemStore) -> Vec<Entry> {
    store.try_get_log_entries(IndexBound::Unbounded, IndexBound::Unbounded)
}

fn indexes(entries: &[Entry]) -> Vec<u64> {
    entries.iter().map(|e| e.log_id.index).collect()
}

fn store_with(term: u64, from: u64, to: u64) -> MemStore {
    let mut store = MemStore::new();
    let entries: Vec<Entry> = (from..=to).map(|i| blank(term, i)).collect();
    append(&mut store, &entries);
    store
}

fn text(s: &str) -> Option<String> {
    Some(s.to_string())
}

#[test]
fn fresh_store_holds_nothing() {
    let store = MemStore::new();
    assert_eq!(store.read_vote(), None);
    assert_eq!(store.get_log_state(), LogState { last_purged_log_id: None, last_log_id: None });
    assert!(all(&store).is_empty());
    assert_eq!(store.get_current_snapshot(), None);
    assert_eq!(store.last_applied_state(), (None, None));
    let sm = store.get_state_machine();
    assert_eq!(sm.last_applied_log, None);
    assert_eq!(sm.last_membership, None);
    assert_eq!(sm.client_status.len(), 0);
    assert_eq!(sm.client_serial_responses.len(), 0);
    assert!(store.begin_receiving_snapshot().is_empty());
}

#[test]
fn saved_vote_is_read_back() {
    let mut store = MemStore::new();
    store.save_vote(&Vote::new(3, 1));
    assert_eq!(store.read_vote(), Some(Vote::new(3, 1)));
    store.save_vote(&Vote::new_uncommitted(4));
    assert_eq!(store.read_vote(), Some(Vote { term: 4, voted_for: None }));
}

#[test]
fn appended_entry_is_read_back() {
    let mut store = store_with(1, 1, 3);
    let e = request(2, 4, "alice", 7, "ready");
    append(&mut store, &[e.clone()]);
    let out = store.try_get_log_entries(IndexBound::Included(4), IndexBound::Included(4));
    assert_eq!(out, vec![e]);
}

#[test]
fn entries_come_in_ascending_order() {
    let mut store = MemStore::new();
    append(&mut store, &[blank(1, 3), blank(1, 1), blank(1, 2)]);
    assert_eq!(indexes(&all(&store)), vec![1, 2, 3]);
}

#[test]
fn append_replaces_the_entry_at_the_same_index() {
    let mut store = store_with(1, 1, 3);
    append(&mut store, &[request(2, 2, "bob", 1, "x")]);
    let out = all(&store);
    assert_eq!(indexes(&out), vec![1, 2, 3]);
    assert_eq!(out[1], request(2, 2, "bob", 1, "x"));
    // of two entries with one index in one call the later stays
    append(&mut store, &[blank(5, 9), blank(6, 9)]);
    assert_eq!(store.get_log_state().last_log_id, Some(log_id(6, 9)));
}

#[test]
fn ranges_of_the_log() {
    let store = store_with(1, 1, 10);
    let get = |a, b| indexes(&store.try_get_log_entries(a, b));
    assert_eq!(get(IndexBound::Included(3), IndexBound::Included(5)), vec![3, 4, 5]);
    assert_eq!(get(IndexBound::Included(3), IndexBound::Excluded(5)), vec![3, 4]);
    assert_eq!(get(IndexBound::Excluded(3), IndexBound::Included(5)), vec![4, 5]);
    assert_eq!(get(IndexBound::Unbounded, IndexBound::Excluded(3)), vec![1, 2]);
    assert_eq!(get(IndexBound::Included(9), IndexBound::Unbounded), vec![9, 10]);
    assert_eq!(get(IndexBound::Included(11), IndexBound::Unbounded), Vec::<u64>::new());
    assert_eq!(get(IndexBound::Included(5), IndexBound::Included(4)), Vec::<u64>::new());
    assert_eq!(get(IndexBound::Excluded(5), IndexBound::Excluded(5)), Vec::<u64>::new());
    assert_eq!(get(IndexBound::Excluded(u64::MAX), IndexBound::Unbounded), Vec::<u64>::new());
    assert_eq!(get(IndexBound::Unbounded, IndexBound::Included(0)), Vec::<u64>::new());
}

#[test]
fn purged_indexes_give_no_entries() {
    let mut store = store_with(1, 1, 10);
    store.purge_logs_upto(log_id(1, 6));
    assert!(store.try_get_log_entries(IndexBound::Included(2), IndexBound::Included(5)).is_empty());
    let out = store.try_get_log_entries(IndexBound::Included(5), IndexBound::Included(8));
    assert_eq!(indexes(&out), vec![7, 8]);
}

#[test]
fn log_state_follows_the_log() {
    let mut store = MemStore::new();
    append(&mut store, &[blank(1, 1), blank(2, 2)]);
    assert_eq!(
        store.get_log_state(),
        LogState { last_purged_log_id: None, last_log_id: Some(log_id(2, 2)) }
    );
    store.purge_logs_upto(log_id(1, 1));
    assert_eq!(
        store.get_log_state(),
        LogState { last_purged_log_id: Some(log_id(1, 1)), last_log_id: Some(log_id(2, 2)) }
    );
    store.purge_logs_upto(log_id(2, 2));
    assert_eq!(
        store.get_log_state(),
        LogState { last_purged_log_id: Some(log_id(2, 2)), last_log_id: Some(log_id(2, 2)) }
    );
    assert!(all(&store).is_empty());
}

#[test]
fn purge_at_the_purged_mark_changes_nothing() {
    let mut store = store_with(1, 1, 10);
    store.purge_logs_upto(log_id(1, 4));
    let state = store.get_log_state();
    let entries = all(&store);
    assert_eq!(indexes(&entries), vec![5, 6, 7, 8, 9, 10]);
    store.purge_logs_upto(log_id(1, 4));
    assert_eq!(store.get_log_state(), state);
    assert_eq!(all(&store), entries);
}

#[test]
fn purge_beyond_the_log_empties_it() {
    let mut store = store_with(1, 1, 3);
    store.purge_logs_upto(log_id(2, 50));
    assert!(all(&store).is_empty());
    assert_eq!(
        store.get_log_state(),
        LogState { last_purged_log_id: Some(log_id(2, 50)), last_log_id: Some(log_id(2, 50)) }
    );
    append(&mut store, &[blank(2, 51)]);
    assert_eq!(store.get_log_state().last_log_id, Some(log_id(2, 51)));
}

#[test]
fn delete_beyond_the_last_entry_changes_nothing() {
    let mut store = store_with(1, 1, 5);
    let state = store.get_log_state();
    let entries = all(&store);
    store.delete_conflict_logs_since(log_id(1, 6));
    assert_eq!(store.get_log_state(), state);
    assert_eq!(all(&store), entries);
    let mut empty = MemStore::new();
    empty.delete_conflict_logs_since(log_id(0, 1));
    assert_eq!(empty.get_log_state(), LogState { last_purged_log_id: None, last_log_id: None });
}

#[test]
fn delete_removes_the_tail() {
    let mut store = store_with(1, 1, 5);
    store.delete_conflict_logs_since(log_id(1, 5));
    assert_eq!(indexes(&all(&store)), vec![1, 2, 3, 4]);
    store.delete_conflict_logs_since(log_id(9, 1));
    assert!(all(&store).is_empty());
    assert_eq!(store.get_log_state().last_log_id, None);
}

#[test]
fn log_conflict_truncation() {
    let mut store = store_with(1, 1, 10);
    // the leader holds (term 2, index 7); this log holds term 1 there
    let at_seven = store.try_get_log_entries(IndexBound::Included(7), IndexBound::Included(7));
    assert_eq!(at_seven[0].log_id, log_id(1, 7));
    assert_ne!(at_seven[0].log_id, log_id(2, 7));
    store.delete_conflict_logs_since(log_id(1, 7));
    assert_eq!(indexes(&all(&store)), vec![1, 2, 3, 4, 5, 6]);
    assert_eq!(store.get_log_state().last_log_id, Some(log_id(1, 6)));
    append(&mut store, &[blank(2, 7), blank(2, 8)]);
    assert_eq!(indexes(&all(&store)), vec![1, 2, 3, 4, 5, 6, 7, 8]);
    assert_eq!(store.get_log_state().last_log_id, Some(log_id(2, 8)));
}

#[test]
fn last_log_id_advances_with_appends_and_purges() {
    let mut store = MemStore::new();
    let mut last = store.get_log_state().last_log_id;
    let mut check = |store: &MemStore| {
        let now = store.get_log_state().last_log_id;
        assert!(raftcore::log_id::opt_le(&last, &now));
        last = now;
    };
    append(&mut store, &[blank(1, 1), blank(1, 2)]);
    check(&store);
    append(&mut store, &[blank(2, 3)]);
    check(&store);
    store.purge_logs_upto(log_id(1, 2));
    check(&store);
    store.save_vote(&Vote::new(2, 0));
    check(&store);
    store.purge_logs_upto(log_id(2, 3));
    check(&store);
    store.purge_logs_upto(log_id(3, 10));
    check(&store);
}

#[test]
fn blank_entry_answers_nothing() {
    let mut store = MemStore::new();
    let res = apply(&mut store, &[blank(1, 1)]);
    assert_eq!(res, vec![ClientResponse::new(None)]);
    assert_eq!(store.last_applied_state().0, Some(log_id(1, 1)));
}

#[test]
fn request_answers_the_status_before() {
    let mut store = MemStore::new();
    let res = apply(
        &mut store,
        &[
            request(1, 1, "alice", 1, "a1"),
            request(1, 2, "bob", 1, "b1"),
            request(1, 3, "alice", 2, "a2"),
        ],
    );
    assert_eq!(
        res,
        vec![ClientResponse::new(None), ClientResponse::new(None), ClientResponse::new(text("a1"))]
    );
    assert_eq!(res[2].previous(), &text("a1"));
    let sm = store.get_state_machine();
    assert_eq!(sm.last_applied_log, Some(log_id(1, 3)));
    assert_eq!(sm.client_status.get(&"alice".to_string()), Some(&"a2".to_string()));
    assert_eq!(sm.client_status.get(&"bob".to_string()), Some(&"b1".to_string()));
    assert_eq!(sm.client_status.get(&"carol".to_string()), None);
    assert_eq!(sm.client_serial_responses.get(&"alice".to_string()), Some(&(2, text("a1"))));
    assert_eq!(sm.client_serial_responses.get(&"bob".to_string()), Some(&(1, None)));
    assert_eq!(sm.client_status.len(), 2);
}

#[test]
fn repeated_serial_gets_the_earlier_answer() {
    let mut store = MemStore::new();
    apply(&mut store, &[request(1, 1, "alice", 1, "a1"), request(1, 2, "alice", 2, "a2")]);
    let res = apply(&mut store, &[request(1, 3, "alice", 2, "other")]);
    assert_eq!(res, vec![ClientResponse::new(text("a1"))]);
    let sm = store.get_state_machine();
    assert_eq!(sm.client_status.get(&"alice".to_string()), Some(&"a2".to_string()));
    assert_eq!(sm.last_applied_log, Some(log_id(1, 3)));
    // an earlier serial is a new request
    let res = apply(&mut store, &[request(1, 4, "alice", 1, "a3")]);
    assert_eq!(res, vec![ClientResponse::new(text("a2"))]);
    assert_eq!(
        store.get_state_machine().client_serial_responses.get(&"alice".to_string()),
        Some(&(1, text("a2")))
    );
}

#[test]
fn membership_entry_sets_the_membership() {
    let mut store = MemStore::new();
    let mut voters = BTreeSet::new();
    voters.insert(0);
    voters.insert(1);
    let config = MembershipConfig::new(voters);
    let e = Entry::new(log_id(1, 1), EntryPayload::Membership(config.clone()));
    let res = apply(&mut store, &[e, blank(1, 2)]);
    assert_eq!(res, vec![ClientResponse::new(None), ClientResponse::new(None)]);
    assert_eq!(
        store.last_applied_state(),
        (Some(log_id(1, 2)), Some(EffectiveMembership::new(log_id(1, 1), config)))
    );
}

#[test]
fn applying_nothing_changes_nothing() {
    let mut store = MemStore::new();
    assert!(apply(&mut store, &[]).is_empty());
    assert_eq!(store.last_applied_state(), (None, None));
    append(&mut store, &[]);
    assert!(all(&store).is_empty());
}

#[test]
fn snapshot_names() {
    assert_eq!(snapshot_name(&LogId::new(LeaderId::new(3, 7), 100), 1), "3-7-100-1");
    assert_eq!(snapshot_name(&LogId::new(LeaderId::new(0, 0), 0), 0), "0-0-0-0");
    assert_eq!(snapshot_name(&LogId::new(LeaderId::new(10, 9), 1090), 12), "10-9-1090-12");
    assert_eq!(
        snapshot_name(&LogId::new(LeaderId::new(u64::MAX, 1), 1), 1),
        "18446744073709551615-1-1-1"
    );
}

#[test]
fn build_snapshot_names_and_keeps_the_snapshot() {
    let mut store = MemStore::new();
    apply(&mut store, &[Entry::new(LogId::new(LeaderId::new(3, 7), 100), EntryPayload::Blank)]);
    let first = store.build_snapshot(Ok(vec![1, 2, 3])).unwrap();
    assert_eq!(first.meta.last_log_id, LogId::new(LeaderId::new(3, 7), 100));
    assert_eq!(first.meta.snapshot_id, "3-7-100-1");
    assert_eq!(first.data, vec![1, 2, 3]);
    assert_eq!(store.get_current_snapshot(), Some(first));
    let second = store.build_snapshot(Ok(vec![4])).unwrap();
    assert_eq!(second.meta.snapshot_id, "3-7-100-2");
    assert_eq!(store.get_current_snapshot(), Some(second));
}

#[test]
fn build_snapshot_reports_a_failed_encoding() {
    let mut store = MemStore::new();
    let err = store.build_snapshot(Err("no bytes".to_string())).unwrap_err();
    assert_eq!(err.subject, ErrorSubject::StateMachine);
    assert_eq!(err.verb, ErrorVerb::Read);
    assert_eq!(err.source, "no bytes");
    assert_eq!(store.get_current_snapshot(), None);
    apply(&mut store, &[blank(1, 1)]);
    assert_eq!(store.build_snapshot(Ok(vec![])).unwrap().meta.snapshot_id, "1-0-1-1");
}

#[test]
fn snapshot_install() {
    // the leader applies up to (term 3, index 100) and builds a snapshot
    let mut leader = MemStore::new();
    let mut entries: Vec<Entry> = (1..100).map(|i| request(3, i, "alice", i, "busy")).collect();
    entries.push(request(3, 100, "bob", 1, "idle"));
    append(&mut leader, &entries);
    apply(&mut leader, &entries);
    let source = leader.get_state_machine();
    let snapshot = leader.build_snapshot(Ok(b"bytes of the state machine".to_vec())).unwrap();
    assert_eq!(snapshot.meta.last_log_id, log_id(3, 100));

    // a fresh node receives the bytes and installs what they decode to
    let mut node = MemStore::new();
    let mut buffer = node.begin_receiving_snapshot();
    buffer.extend_from_slice(&snapshot.data);
    let decoded = source.clone();
    let changes = node.install_snapshot(&snapshot.meta, buffer, Ok(decoded)).unwrap();
    assert_eq!(changes, StateMachineChanges { last_applied: log_id(3, 100), is_snapshot: true });
    node.purge_logs_upto(changes.last_applied);

    let installed = node.get_state_machine();
    assert!(same_state_machine(&installed, &source));
    assert_eq!(installed.last_applied_log, Some(log_id(3, 100)));
    assert_eq!(installed.client_status.get(&"alice".to_string()), Some(&"busy".to_string()));
    assert_eq!(installed.client_serial_responses.get(&"alice".to_string()), Some(&(99, text("busy"))));
    assert_eq!(installed.client_status.get(&"bob".to_string()), Some(&"idle".to_string()));
    assert!(all(&node).is_empty());
    assert_eq!(
        node.get_log_state(),
        LogState { last_purged_log_id: Some(log_id(3, 100)), last_log_id: Some(log_id(3, 100)) }
    );
    assert_eq!(node.get_current_snapshot(), Some(snapshot));
}

fn same_state_machine(a: &MemStoreStateMachine, b: &MemStoreStateMachine) -> bool {
    a.last_applied_log == b.last_applied_log
        && a.last_membership == b.last_membership
        && a.client_status.len() == b.client_status.len()
        && a.client_serial_responses.len() == b.client_serial_responses.len()
        && (0..a.client_status.len()).all(|i| {
            let (k, v) = a.client_status.pair(i);
            b.client_status.get(k) == Some(v)
        })
        && (0..a.client_serial_responses.len()).all(|i| {
            let (k, v) = a.client_serial_responses.pair(i);
            b.client_serial_responses.get(k) == Some(v)
        })
}

#[test]
fn install_snapshot_leaves_the_log_alone() {
    let mut store = store_with(1, 1, 5);
    let meta = SnapshotMeta { last_log_id: log_id(1, 3), snapshot_id: "1-0-3-1".to_string() };
    let mut sm = MemStoreStateMachine::default();
    sm.last_applied_log = Some(log_id(1, 3));
    store.install_snapshot(&meta, vec![9], Ok(sm)).unwrap();
    assert_eq!(indexes(&all(&store)), vec![1, 2, 3, 4, 5]);
    assert_eq!(store.last_applied_state().0, Some(log_id(1, 3)));
    let current = store.get_current_snapshot().unwrap();
    assert_eq!(current.meta, meta);
    assert_eq!(current.data, vec![9]);
}

#[test]
fn install_snapshot_reports_a_failed_decoding() {
    let mut store = MemStore::new();
    apply(&mut store, &[request(1, 1, "alice", 1, "a1")]);
    let meta = SnapshotMeta { last_log_id: log_id(2, 9), snapshot_id: "2-0-9-4".to_string() };
    let err = store.install_snapshot(&meta, vec![0xff], Err("not a state machine".to_string())).unwrap_err();
    assert_eq!(err.subject, ErrorSubject::Snapshot(meta));
    assert_eq!(err.verb, ErrorVerb::Read);
    assert_eq!(err.source, "not a state machine");
    assert_eq!(store.get_current_snapshot(), None);
    assert_eq!(store.last_applied_state().0, Some(log_id(1, 1)));
    assert_eq!(
        store.get_state_machine().client_status.get(&"alice".to_string()),
        Some(&"a1".to_string())
    );
}

#[test]
fn state_machine_copy_is_independent() {
    let mut store = MemStore::new();
    apply(&mut store, &[request(1, 1, "alice", 1, "a1")]);
    let mut copy = store.get_state_machine();
    copy.apply(&request(1, 2, "alice", 2, "a2"));
    assert_eq!(copy.client_status.get(&"alice".to_string()), Some(&"a2".to_string()));
    assert_eq!(
        store.get_state_machine().client_status.get(&"alice".to_string()),
        Some(&"a1".to_string())
    );
}
