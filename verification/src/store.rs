//! An in-memory store for everything a node has to keep: the log, the vote,
//! the state machine and the current snapshot.

use crate::entry::ClientResponse;
use crate::entry::Entry;
use crate::entry::EntryView;
use crate::log_id::opt_is_at_most;
use crate::log_id::LogId;
use crate::membership::EffectiveMembership;
use crate::membership::EffectiveMembershipView;
use crate::model::in_range;
use crate::model::is_last_key;
use crate::model::is_log_range;
use crate::model::log_above;
use crate::model::log_below;
use crate::model::log_with;
use crate::model::snapshot_id_text;
use crate::model::IndexBound;
use crate::model::LogState;
use crate::model::MemStoreView;
use crate::model::SnapshotMetaView;
use crate::model::SnapshotView;
use crate::ordered::ascending;
use crate::ordered::drop_entry;
use crate::ordered::entry_at;
use crate::ordered::put_entry;
use crate::ordered::sorted_keys;
use crate::state_machine::after_entries;
use crate::state_machine::responses_to;
use crate::state_machine::MemStoreStateMachine;
use crate::text::push_decimal;
use crate::text::push_hyphen;
use crate::vote::Vote;
use std::collections::BTreeMap;
use vstd::prelude::*;

verus! {

/// What identifies a snapshot.
#[derive(Debug, PartialEq, Eq)]
pub struct SnapshotMeta {
    /// The log id of the last entry that the snapshot covers.
    pub last_log_id: LogId,
    /// A name for the snapshot; peers only compare it.
    pub snapshot_id: String,
}

/// A snapshot: the state machine at one log id, as bytes.
#[derive(Debug, PartialEq, Eq)]
pub struct MemStoreSnapshot {
    pub meta: SnapshotMeta,
    /// The data of the state machine at the time of this snapshot.
    pub data: Vec<u8>,
}

/// What installing a snapshot changed.
#[derive(Clone, Copy, Debug, PartialEq, Eq, Structural)]
pub struct StateMachineChanges {
    pub last_applied: LogId,
    pub is_snapshot: bool,
}

/// The part of the store that an error is about.
#[derive(Debug, PartialEq, Eq)]
pub enum ErrorSubject {
    StateMachine,
    Snapshot(SnapshotMeta),
}

/// What the store was doing when an error arose.
#[derive(Clone, Copy, Debug, PartialEq, Eq, Structural)]
pub enum ErrorVerb {
    Read,
    Write,
}

/// The store could not read or write what it keeps.
#[derive(Debug, PartialEq, Eq)]
pub struct StorageError {
    pub subject: ErrorSubject,
    pub verb: ErrorVerb,
    /// What went wrong, in words.
    pub source: String,
}

/// An in-memory store of log, vote, state machine and snapshot.
#[derive(Debug)]
pub struct MemStore {
    last_purged_log_id: Option<LogId>,
    /// The log, each entry under its index.
    log: BTreeMap<u64, Entry>,
    /// The state machine.
    sm: MemStoreStateMachine,
    /// The vote saved last.
    vote: Option<Vote>,
    /// How many snapshots were built.
    snapshot_idx: u64,
    /// The current snapshot.
    current_snapshot: Option<MemStoreSnapshot>,
}

impl View for SnapshotMeta {
    type V = SnapshotMetaView;

    open spec fn view(&self) -> SnapshotMetaView {
        SnapshotMetaView { last_log_id: self.last_log_id, snapshot_id: self.snapshot_id@ }
    }
}

impl View for MemStoreSnapshot {
    type V = SnapshotView;

    open spec fn view(&self) -> SnapshotView {
        SnapshotView { meta: self.meta@, data: self.data@ }
    }
}

impl Clone for SnapshotMeta {
    fn clone(&self) -> (r: SnapshotMeta)
        ensures
            r@ == self@,
    {
        SnapshotMeta { last_log_id: self.last_log_id, snapshot_id: self.snapshot_id.clone() }
    }
}

impl Clone for MemStoreSnapshot {
    fn clone(&self) -> (r: MemStoreSnapshot)
        ensures
            r@ == self@,
    {
        let data = self.data.clone();
        assert(data@ =~= self.data@);
        MemStoreSnapshot { meta: self.meta.clone(), data }
    }
}

/// What a list of entries stands for in contracts.
pub open spec fn views_of(entries: Seq<Entry>) -> Seq<EntryView> {
    Seq::new(entries.len(), |i: int| entries[i]@)
}

/// What a list of borrowed entries stands for in contracts.
pub open spec fn views_of_refs(entries: Seq<&Entry>) -> Seq<EntryView> {
    Seq::new(entries.len(), |i: int| entries[i]@)
}

/// What a list of answers stands for in contracts.
pub open spec fn views_of_responses(responses: Seq<ClientResponse>) -> Seq<Option<Seq<char>>> {
    Seq::new(responses.len(), |i: int| responses[i]@)
}

/// What an optional snapshot stands for in contracts.
pub open spec fn opt_snapshot_view(s: Option<MemStoreSnapshot>) -> Option<SnapshotView> {
    match s {
        Some(s) => Some(s@),
        None => None,
    }
}

/// What an optional membership stands for in contracts.
pub open spec fn opt_membership_view(m: Option<EffectiveMembership>) -> Option<
    EffectiveMembershipView,
> {
    match m {
        Some(m) => Some(m@),
        None => None,
    }
}

/// The entries of a log, each as what it stands for.
pub open spec fn log_view(log: Map<u64, Entry>) -> Map<u64, EntryView> {
    log.map_values(|e: Entry| e@)
}

/// Whether `k` lies between `start` and `end`.
pub fn index_in_range(start: IndexBound, end: IndexBound, k: u64) -> (r: bool)
    ensures
        r == in_range(start, end, k),
{
    let after_start = match start {
        IndexBound::Included(a) => a <= k,
        IndexBound::Excluded(a) => a < k,
        IndexBound::Unbounded => true,
    };
    let before_end = match end {
        IndexBound::Included(b) => k <= b,
        IndexBound::Excluded(b) => k < b,
        IndexBound::Unbounded => true,
    };
    after_start && before_end
}

/// `k` is to leave the log: it is at or above `pivot` where `above` is set,
/// at or below it otherwise.
pub open spec fn leaves(pivot: u64, above: bool, k: u64) -> bool {
    if above {
        k >= pivot
    } else {
        k <= pivot
    }
}

/// `k` stands among the first `i` of `keys`.
pub open spec fn seen(keys: Seq<u64>, i: int, k: u64) -> bool {
    exists|n: int| 0 <= n < i && n < keys.len() && keys[n] == k
}

/// Removes from `log` every entry with an index at or above `pivot`, or at
/// or below it.
fn drop_keys(log: &mut BTreeMap<u64, Entry>, pivot: u64, above: bool)
    ensures
        forall|k: u64| #[trigger]
            final(log)@.contains_key(k) <==> old(log)@.contains_key(k) && !leaves(pivot, above, k),
        forall|k: u64| #[trigger] final(log)@.contains_key(k) ==> final(log)@[k] == old(log)@[k],
        final(log)@.dom().finite(),
{
    let keys = sorted_keys(log);
    let mut i: usize = 0;
    while i < keys.len()
        invariant
            i <= keys.len(),
            log@.dom().finite(),
            forall|k: u64| keys@.contains(k) <==> old(log)@.contains_key(k),
            forall|k: u64| #[trigger]
                log@.contains_key(k) <==> old(log)@.contains_key(k) && !(leaves(pivot, above, k)
                    && seen(keys@, i as int, k)),
            forall|k: u64| #[trigger] log@.contains_key(k) ==> log@[k] == old(log)@[k],
        decreases keys.len() - i,
    {
        let k = keys[i];
        let gone = if above {
            k >= pivot
        } else {
            k <= pivot
        };
        let ghost before = log@;
        if gone {
            drop_entry(log, k);
        }
        proof {
            assert forall|x: u64| #[trigger]
                log@.contains_key(x) <==> old(log)@.contains_key(x) && !(leaves(pivot, above, x)
                    && seen(keys@, i + 1, x)) by {
                assert(before.contains_key(x) <==> old(log)@.contains_key(x) && !(leaves(
                    pivot,
                    above,
                    x,
                ) && seen(keys@, i as int, x)));
                if seen(keys@, i + 1, x) {
                    let n = choose|n: int| 0 <= n < i + 1 && n < keys.len() && keys[n] == x;
                    if n < i {
                        assert(seen(keys@, i as int, x));
                    }
                }
                if seen(keys@, i as int, x) {
                    let n = choose|n: int| 0 <= n < i && n < keys.len() && keys[n] == x;
                    assert(seen(keys@, i + 1, x));
                }
                if x == k {
                    assert(seen(keys@, i + 1, x));
                }
            }
        }
        i = i + 1;
    }
    proof {
        assert forall|k: u64| #[trigger]
            log@.contains_key(k) <==> old(log)@.contains_key(k) && !leaves(pivot, above, k) by {
            if old(log)@.contains_key(k) {
                assert(keys@.contains(k));
                let n = choose|n: int| 0 <= n < keys.len() && keys[n] == k;
                assert(seen(keys@, keys.len() as int, k));
            }
        }
    }
}

impl View for MemStore {
    type V = MemStoreView;

    closed spec fn view(&self) -> MemStoreView {
        MemStoreView {
            last_purged_log_id: self.last_purged_log_id,
            log: log_view(self.log@),
            sm: self.sm@,
            vote: self.vote,
            snapshot_idx: self.snapshot_idx,
            current_snapshot: opt_snapshot_view(self.current_snapshot),
        }
    }
}

impl MemStore {
    /// The store is in order: every entry of the log stands under its own
    /// index, and the tables of the state machine hold no client twice.
    /// It holds of a new store and every operation keeps it.
    pub closed spec fn wf(&self) -> bool {
        &&& self.sm.wf()
        &&& self.log@.dom().finite()
        &&& forall|k: u64| #[trigger] self.log@.contains_key(k) ==> self.log@[k].log_id.index == k
    }

    /// A well-formed store stands for a value whose entries are keyed by index.
    pub proof fn wf_view(&self)
        requires
            self.wf(),
        ensures
            self@.keyed_by_index(),
    {
        assert(self@.log.dom() =~= self.log@.dom());
    }

    /// Create a new `MemStore` instance: no log, no vote, a state machine
    /// that has applied nothing, and no snapshot.
    pub fn new() -> (store: MemStore)
        ensures
            store.wf(),
            store@ == MemStoreView::empty(),
    {
        let store = MemStore {
            last_purged_log_id: None,
            log: BTreeMap::new(),
            sm: MemStoreStateMachine::default(),
            vote: None,
            snapshot_idx: 0,
            current_snapshot: None,
        };
        proof {
            assert(store@.log =~= Map::<u64, EntryView>::empty());
        }
        store
    }

    /// A copy of the state machine.
    pub fn get_state_machine(&self) -> (sm: MemStoreStateMachine)
        requires
            self.wf(),
        ensures
            sm.wf(),
            sm@ == self@.sm,
    {
        self.sm.clone()
    }

    /// Saves `vote` in place of the vote saved before.
    pub fn save_vote(&mut self, vote: &Vote)
        requires
            old(self).wf(),
        ensures
            final(self).wf(),
            final(self)@ == old(self)@.save_vote(*vote),
    {
        self.vote = Some(*vote);
    }

    /// The vote saved last, if one ever was.
    pub fn read_vote(&self) -> (vote: Option<Vote>)
        ensures
            vote == self@.vote,
    {
        self.vote
    }

    /// The entries whose index lies between `start` and `end`, in ascending
    /// order of index. Indexes that the log does not hold, purged ones among
    /// them, contribute nothing.
    pub fn try_get_log_entries(&self, start: IndexBound, end: IndexBound) -> (out: Vec<Entry>)
        requires
            self.wf(),
        ensures
            is_log_range(views_of(out@), self@.log, start, end),
    {
        let keys = sorted_keys(&self.log);
        let mut out: Vec<Entry> = Vec::new();
        let mut i: usize = 0;
        while i < keys.len()
            invariant
                i <= keys.len(),
                self.wf(),
                ascending(keys@),
                forall|k: u64| keys@.contains(k) <==> self.log@.contains_key(k),
                forall|n: int|
                    0 <= n < out.len() ==> {
                        let k = (#[trigger] out[n]).log_id.index;
                        &&& self.log@.contains_key(k)
                        &&& self.log@[k]@ == out[n]@
                        &&& in_range(start, end, k)
                        &&& exists|j: int| 0 <= j < i && keys[j] == k
                    },
                forall|n: int, m: int|
                    0 <= n < m < out.len() ==> (#[trigger] out[n]).log_id.index < (
                    #[trigger] out[m]).log_id.index,
                forall|j: int|
                    0 <= j < i && in_range(start, end, #[trigger] keys[j]) ==> exists|n: int|
                        0 <= n < out.len() && out[n].log_id.index == keys[j],
            decreases keys.len() - i,
        {
            let k = keys[i];
            if index_in_range(start, end, k) {
                proof {
                    assert(keys@.contains(keys@[i as int]));
                }
                match entry_at(&self.log, k) {
                    Some(entry) => {
                        let ghost before = out@;
                        out.push(entry.clone());
                        proof {
                            assert forall|n: int, m: int| 0 <= n < m < out.len() implies (
                            #[trigger] out[n]).log_id.index < (#[trigger] out[m]).log_id.index by {
                                if m == out.len() - 1 {
                                    let j = choose|j: int|
                                        0 <= j < i && keys[j] == before[n].log_id.index;
                                    assert(keys[j] < keys[i as int]);
                                }
                            }
                            assert forall|j: int|
                                0 <= j < i + 1 && in_range(
                                    start,
                                    end,
                                    #[trigger] keys[j],
                                ) implies exists|n: int|
                                0 <= n < out.len() && out[n].log_id.index == keys[j] by {
                                if j < i {
                                    let n = choose|n: int|
                                        0 <= n < before.len() && before[n].log_id.index == keys[j];
                                    assert(out[n].log_id.index == keys[j]);
                                } else {
                                    assert(out[out.len() - 1].log_id.index == keys[j]);
                                }
                            }
                        }
                    },
                    None => {},
                }
            }
            i = i + 1;
        }
        proof {
            let views = views_of(out@);
            let log = self@.log;
            assert forall|n: int| 0 <= n < views.len() implies {
                let k = (#[trigger] views[n]).log_id.index;
                log.contains_key(k) && log[k] == views[n] && in_range(start, end, k)
            } by {
                let k = out[n].log_id.index;
                assert(self.log@.contains_key(k));
            }
            assert forall|n: int, m: int| 0 <= n < m < views.len() implies (
            #[trigger] views[n]).log_id.index < (#[trigger] views[m]).log_id.index by {
                assert(out[n].log_id.index < out[m].log_id.index);
            }
            assert forall|k: u64| #[trigger]
                log.contains_key(k) && in_range(start, end, k) implies exists|n: int|
                0 <= n < views.len() && (#[trigger] views[n]).log_id.index == k by {
                assert(keys@.contains(k));
                let j = choose|j: int| 0 <= j < keys.len() && keys[j] == k;
                let n = choose|n: int| 0 <= n < out.len() && out[n].log_id.index == keys[j];
                assert(views[n].log_id.index == k);
            }
        }
        out
    }

    /// Where the log starts and ends.
    pub fn get_log_state(&self) -> (state: LogState)
        requires
            self.wf(),
        ensures
            state == self@.log_state(),
    {
        let keys = sorted_keys(&self.log);
        let last_deleted = self.last_purged_log_id;
        let last = if keys.len() == 0 {
            proof {
                assert forall|k: u64| !is_last_key(self@.log, k) by {
                    if self@.log.contains_key(k) {
                        assert(keys@.contains(k));
                    }
                }
            }
            last_deleted
        } else {
            let k = keys[keys.len() - 1];
            proof {
                assert(keys@.contains(keys@[keys.len() - 1]));
                assert forall|j: u64| self@.log.contains_key(j) implies j <= k by {
                    assert(keys@.contains(j));
                    let n = choose|n: int| 0 <= n < keys.len() && keys[n] == j;
                    assert(n < keys.len() - 1 ==> keys[n] < keys[keys.len() - 1]);
                }
                assert(is_last_key(self@.log, k));
                let chosen = choose|c: u64| is_last_key(self@.log, c);
                assert(chosen == k);
            }
            match entry_at(&self.log, k) {
                Some(entry) => Some(entry.log_id),
                None => last_deleted,
            }
        };
        LogState { last_purged_log_id: last_deleted, last_log_id: last }
    }

    /// The log id applied last and the membership in force, as the state
    /// machine has them.
    pub fn last_applied_state(&self) -> (r: (Option<LogId>, Option<EffectiveMembership>))
        ensures
            r.0 == self@.sm.last_applied_log,
            opt_membership_view(r.1) == self@.sm.last_membership,
    {
        let membership = match &self.sm.last_membership {
            Some(m) => Some(m.clone()),
            None => None,
        };
        (self.sm.last_applied_log, membership)
    }
    /// Removes every entry with an index at or above that of `log_id`.
    pub fn delete_conflict_logs_since(&mut self, log_id: LogId)
        requires
            old(self).wf(),
        ensures
            final(self).wf(),
            final(self)@ == old(self)@.delete_conflict_logs_since(log_id),
    {
        drop_keys(&mut self.log, log_id.index, true);
        proof {
            assert(self@.log =~= log_below(old(self)@.log, log_id.index));
        }
    }

    /// Removes every entry with an index at or below that of `log_id` and
    /// records `log_id` as the place up to which the log is purged.
    pub fn purge_logs_upto(&mut self, log_id: LogId)
        requires
            old(self).wf(),
            opt_is_at_most(old(self)@.last_purged_log_id, Some(log_id)),
        ensures
            final(self).wf(),
            final(self)@ == old(self)@.purge_logs_upto(log_id),
    {
        self.last_purged_log_id = Some(log_id);
        drop_keys(&mut self.log, log_id.index, false);
        proof {
            assert(self@.log =~= log_above(old(self)@.log, log_id.index));
        }
    }

    /// Stores `entries` in order, each under its index and in place of what
    /// stood there.
    pub fn append_to_log(&mut self, entries: &[&Entry])
        requires
            old(self).wf(),
        ensures
            final(self).wf(),
            final(self)@ == old(self)@.append_to_log(views_of_refs(entries@)),
    {
        let ghost views = views_of_refs(entries@);
        let mut i: usize = 0;
        while i < entries.len()
            invariant
                i <= entries.len(),
                self.wf(),
                views == views_of_refs(entries@),
                self@ == (MemStoreView { log: log_with(old(self)@.log, views.take(i as int)), ..old(self)@ }),
            decreases entries.len() - i,
        {
            let entry = entries[i];
            let ghost before = self.log@;
            let copy = entry.clone();
            put_entry(&mut self.log, entry.log_id.index, copy);
            proof {
                assert(views.take(i + 1).drop_last() == views.take(i as int));
                assert(views.take(i + 1).last() == entry@);
                assert(log_view(self.log@) =~= log_view(before).insert(entry.log_id.index, entry@));
                assert(self.log@.dom() =~= before.dom().insert(entry.log_id.index));
            }
            i = i + 1;
        }
        proof {
            assert(views.take(entries.len() as int) == views);
        }
    }

    /// Applies `entries` to the state machine in order and returns the
    /// answers, one for each entry.
    pub fn apply_to_state_machine(&mut self, entries: &[&Entry]) -> (res: Vec<ClientResponse>)
        requires
            old(self).wf(),
        ensures
            final(self).wf(),
            final(self)@ == old(self)@.apply_to_state_machine(views_of_refs(entries@)),
            views_of_responses(res@) == responses_to(old(self)@.sm, views_of_refs(entries@)),
    {
        let ghost views = views_of_refs(entries@);
        let mut res: Vec<ClientResponse> = Vec::new();
        let mut i: usize = 0;
        while i < entries.len()
            invariant
                i <= entries.len(),
                self.wf(),
                views == views_of_refs(entries@),
                self@ == (MemStoreView { sm: after_entries(old(self)@.sm, views.take(i as int)), ..old(self)@ }),
                res.len() == i,
                forall|n: int|
                    0 <= n < i ==> (#[trigger] res[n])@ == responses_to(old(self)@.sm, views)[n],
            decreases entries.len() - i,
        {
            let entry = entries[i];
            proof {
                assert(views.take(i + 1).drop_last() == views.take(i as int));
                assert(views.take(i + 1).last() == entry@);
            }
            let response = self.sm.apply(entry);
            res.push(response);
            i = i + 1;
        }
        proof {
            assert(views.take(entries.len() as int) == views);
            assert(views_of_responses(res@) =~= responses_to(old(self)@.sm, views));
        }
        res
    }

    /// Makes the bytes `encoded`, which hold the state machine as it is,
    /// the current snapshot, and returns that snapshot.
    ///
    /// The snapshot covers the log up to the entry applied last and is named
    /// after that entry and the number of snapshots this store has built.
    /// Where the state machine could not be encoded, `encoded` holds the
    /// reason: the store stays as it is and the error reports a failed read
    /// of the state machine.
    pub fn build_snapshot(&mut self, encoded: Result<Vec<u8>, String>) -> (r: Result<
        MemStoreSnapshot,
        StorageError,
    >)
        requires
            old(self).wf(),
            encoded is Ok ==> old(self)@.sm.last_applied_log is Some,
            encoded is Ok ==> old(self)@.snapshot_idx < u64::MAX,
        ensures
            final(self).wf(),
            match encoded {
                Ok(data) => r matches Ok(snapshot) && snapshot@ == old(self)@.next_snapshot(data@)
                    && final(self)@ == old(self)@.build_snapshot(data@),
                Err(reason) => r matches Err(e) && e.subject == ErrorSubject::StateMachine
                    && e.verb == ErrorVerb::Read && e.source@ == reason@ && final(self)@ == old(
                    self,
                )@,
            },
    {
        let data = match encoded {
            Ok(data) => data,
            Err(reason) => {
                return Err(
                    StorageError {
                        subject: ErrorSubject::StateMachine,
                        verb: ErrorVerb::Read,
                        source: reason,
                    },
                );
            },
        };
        let last_applied_log = self.sm.last_applied_log.unwrap();
        self.snapshot_idx = self.snapshot_idx + 1;
        let snapshot_id = snapshot_name(&last_applied_log, self.snapshot_idx);
        let meta = SnapshotMeta { last_log_id: last_applied_log, snapshot_id };
        let snapshot = MemStoreSnapshot { meta: meta.clone(), data: data.clone() };
        proof {
            assert(snapshot.data@ =~= data@);
        }
        self.current_snapshot = Some(snapshot);
        Ok(MemStoreSnapshot { meta, data })
    }

    /// How many snapshots this store has built.
    pub fn snapshot_count(&self) -> (n: u64)
        ensures
            n == self@.snapshot_idx,
    {
        self.snapshot_idx
    }

    /// An empty buffer to receive the bytes of a snapshot in.
    pub fn begin_receiving_snapshot(&self) -> (buffer: Vec<u8>)
        ensures
            buffer@ == Seq::<u8>::empty(),
    {
        Vec::new()
    }

    /// Puts the state machine `decoded`, read from the bytes `data`, in
    /// place of the store's own, and makes `meta` and `data` the current
    /// snapshot. The log is left as it is: purging what the snapshot covers
    /// is up to the caller.
    ///
    /// Where `data` could not be decoded, `decoded` holds the reason: the
    /// store stays as it is and the error reports a failed read of the
    /// snapshot `meta`.
    pub fn install_snapshot(
        &mut self,
        meta: &SnapshotMeta,
        data: Vec<u8>,
        decoded: Result<MemStoreStateMachine, String>,
    ) -> (r: Result<StateMachineChanges, StorageError>)
        requires
            old(self).wf(),
            decoded matches Ok(sm) ==> sm.wf(),
        ensures
            final(self).wf(),
            match decoded {
                Ok(sm) => r == Ok::<StateMachineChanges, StorageError>(
                    StateMachineChanges { last_applied: meta.last_log_id, is_snapshot: true },
                ) && final(self)@ == old(self)@.install_snapshot(meta@, data@, sm@),
                Err(reason) => r matches Err(e) && (e.subject matches ErrorSubject::Snapshot(m)
                    && m@ == meta@) && e.verb == ErrorVerb::Read && e.source@ == reason@
                    && final(self)@ == old(self)@,
            },
    {
        let new_sm = match decoded {
            Ok(sm) => sm,
            Err(reason) => {
                return Err(
                    StorageError {
                        subject: ErrorSubject::Snapshot(meta.clone()),
                        verb: ErrorVerb::Read,
                        source: reason,
                    },
                );
            },
        };
        self.sm = new_sm;
        self.current_snapshot = Some(MemStoreSnapshot { meta: meta.clone(), data });
        Ok(StateMachineChanges { last_applied: meta.last_log_id, is_snapshot: true })
    }

    /// A copy of the current snapshot, if there is one.
    pub fn get_current_snapshot(&self) -> (r: Option<MemStoreSnapshot>)
        ensures
            opt_snapshot_view(r) == self@.current_snapshot,
    {
        match &self.current_snapshot {
            Some(snapshot) => Some(snapshot.clone()),
            None => None,
        }
    }
}

/// The name of the snapshot taken at `last_applied` as number `counter`.
pub fn snapshot_name(last_applied: &LogId, counter: u64) -> (name: String)
    ensures
        name@ == snapshot_id_text(*last_applied, counter),
{
    let mut name = String::new();
    push_decimal(&mut name, last_applied.leader_id.term);
    push_hyphen(&mut name);
    push_decimal(&mut name, last_applied.leader_id.node_id);
    push_hyphen(&mut name);
    push_decimal(&mut name, last_applied.index);
    push_hyphen(&mut name);
    push_decimal(&mut name, counter);
    proof {
        assert(name@ =~= snapshot_id_text(*last_applied, counter));
    }
    name
}

} // verus!
