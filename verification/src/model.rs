//! The store as a mathematical value, and what each operation makes of it.

use crate::entry::EntryView;
use crate::log_id::opt_index;
use crate::log_id::LogId;
use crate::state_machine::after_entries;
use crate::state_machine::empty_state_machine;
use crate::state_machine::StateMachineView;
use crate::text::decimal;
use crate::vote::Vote;
use vstd::prelude::*;

verus! {

/// One end of a range of log indexes.
#[derive(Clone, Copy, Debug, PartialEq, Eq, Structural)]
pub enum IndexBound {
    /// The range reaches this index and holds it.
    Included(u64),
    /// The range reaches this index and leaves it out.
    Excluded(u64),
    /// The range has no end on this side.
    Unbounded,
}

/// Where the log starts and where it ends.
#[derive(Clone, Copy, Debug, PartialEq, Eq, Structural)]
pub struct LogState {
    /// The log id of the last entry that was purged.
    pub last_purged_log_id: Option<LogId>,
    /// The log id of the last entry in the log, or `last_purged_log_id`
    /// where the log holds no entry.
    pub last_log_id: Option<LogId>,
}

/// What the meta data of a snapshot stands for in contracts.
pub struct SnapshotMetaView {
    pub last_log_id: LogId,
    pub snapshot_id: Seq<char>,
}

/// What a snapshot stands for in contracts.
pub struct SnapshotView {
    pub meta: SnapshotMetaView,
    pub data: Seq<u8>,
}

/// What a store stands for in contracts.
#[verifier::ext_equal]
pub struct MemStoreView {
    pub last_purged_log_id: Option<LogId>,
    /// The entries of the live log, each under its index.
    pub log: Map<u64, EntryView>,
    pub sm: StateMachineView,
    pub vote: Option<Vote>,
    /// How many snapshots this store has built.
    pub snapshot_idx: u64,
    pub current_snapshot: Option<SnapshotView>,
}

/// `k` lies between `start` and `end`.
pub open spec fn in_range(start: IndexBound, end: IndexBound, k: u64) -> bool {
    &&& match start {
        IndexBound::Included(a) => a <= k,
        IndexBound::Excluded(a) => a < k,
        IndexBound::Unbounded => true,
    }
    &&& match end {
        IndexBound::Included(b) => k <= b,
        IndexBound::Excluded(b) => k < b,
        IndexBound::Unbounded => true,
    }
}

/// `k` is the greatest index in `log`.
pub open spec fn is_last_key(log: Map<u64, EntryView>, k: u64) -> bool {
    log.contains_key(k) && forall|j: u64| log.contains_key(j) ==> j <= k
}

/// `out` holds the entries of `log` whose index lies between `start` and
/// `end`, each once and in ascending order of index.
pub open spec fn is_log_range(
    out: Seq<EntryView>,
    log: Map<u64, EntryView>,
    start: IndexBound,
    end: IndexBound,
) -> bool {
    &&& forall|i: int|
        0 <= i < out.len() ==> {
            let k = (#[trigger] out[i]).log_id.index;
            log.contains_key(k) && log[k] == out[i] && in_range(start, end, k)
        }
    &&& forall|i: int, j: int|
        0 <= i < j < out.len() ==> (#[trigger] out[i]).log_id.index < (
        #[trigger] out[j]).log_id.index
    &&& forall|k: u64|
        #[trigger] log.contains_key(k) && in_range(start, end, k) ==> exists|i: int|
            0 <= i < out.len() && (#[trigger] out[i]).log_id.index == k
}

/// `log` after the entries `es` were stored in order, each under its index
/// and in place of what stood there.
pub open spec fn log_with(log: Map<u64, EntryView>, es: Seq<EntryView>) -> Map<u64, EntryView>
    decreases es.len(),
{
    if es.len() == 0 {
        log
    } else {
        log_with(log, es.drop_last()).insert(es.last().log_id.index, es.last())
    }
}

/// The entries of `log` with an index below `index`.
pub open spec fn log_below(log: Map<u64, EntryView>, index: u64) -> Map<u64, EntryView> {
    Map::new(|k: u64| log.contains_key(k) && k < index, |k: u64| log[k])
}

/// The entries of `log` with an index above `index`.
pub open spec fn log_above(log: Map<u64, EntryView>, index: u64) -> Map<u64, EntryView> {
    Map::new(|k: u64| log.contains_key(k) && k > index, |k: u64| log[k])
}

/// The text that names a snapshot: term and node of the leader of the last
/// applied entry, the entry's index, and the number of the snapshot on this
/// store, joined by hyphens.
pub open spec fn snapshot_id_text(last_applied: LogId, counter: u64) -> Seq<char> {
    decimal(last_applied.leader_id.term as nat).push('-') + decimal(
        last_applied.leader_id.node_id as nat,
    ).push('-') + decimal(last_applied.index as nat).push('-') + decimal(counter as nat)
}

impl MemStoreView {
    /// The store that holds nothing.
    pub open spec fn empty() -> MemStoreView {
        MemStoreView {
            last_purged_log_id: None,
            log: Map::empty(),
            sm: empty_state_machine(),
            vote: None,
            snapshot_idx: 0,
            current_snapshot: None,
        }
    }

    /// Every entry stands under its own index, and the entries are finitely many.
    pub open spec fn keyed_by_index(self) -> bool {
        &&& self.log.dom().finite()
        &&& forall|k: u64| #[trigger] self.log.contains_key(k) ==> self.log[k].log_id.index == k
    }

    /// The live log starts right after the purged part and has no gap.
    pub open spec fn is_contiguous(self) -> bool {
        &&& forall|k: u64| #[trigger]
            self.log.contains_key(k) ==> opt_index(self.last_purged_log_id) < k
        &&& forall|i: u64, j: u64|
            #![trigger self.log.contains_key(i), self.log.contains_key(j)]
            self.log.contains_key(j) && opt_index(self.last_purged_log_id) < i <= j
                ==> self.log.contains_key(i)
    }

    /// The log id of the last entry of the log; where the log holds no
    /// entry, the log id up to which it was purged.
    pub open spec fn last_log_id(self) -> Option<LogId> {
        if exists|k: u64| is_last_key(self.log, k) {
            Some(self.log[choose|k: u64| is_last_key(self.log, k)].log_id)
        } else {
            self.last_purged_log_id
        }
    }

    pub open spec fn log_state(self) -> LogState {
        LogState { last_purged_log_id: self.last_purged_log_id, last_log_id: self.last_log_id() }
    }

    pub open spec fn save_vote(self, vote: Vote) -> MemStoreView {
        MemStoreView { vote: Some(vote), ..self }
    }

    pub open spec fn append_to_log(self, es: Seq<EntryView>) -> MemStoreView {
        MemStoreView { log: log_with(self.log, es), ..self }
    }

    pub open spec fn delete_conflict_logs_since(self, log_id: LogId) -> MemStoreView {
        MemStoreView { log: log_below(self.log, log_id.index), ..self }
    }

    pub open spec fn purge_logs_upto(self, log_id: LogId) -> MemStoreView {
        MemStoreView {
            last_purged_log_id: Some(log_id),
            log: log_above(self.log, log_id.index),
            ..self
        }
    }

    pub open spec fn apply_to_state_machine(self, es: Seq<EntryView>) -> MemStoreView {
        MemStoreView { sm: after_entries(self.sm, es), ..self }
    }

    /// The snapshot that the store builds next from the bytes `data`.
    pub open spec fn next_snapshot(self, data: Seq<u8>) -> SnapshotView {
        SnapshotView {
            meta: SnapshotMetaView {
                last_log_id: self.sm.last_applied_log->0,
                snapshot_id: snapshot_id_text(
                    self.sm.last_applied_log->0,
                    (self.snapshot_idx + 1) as u64,
                ),
            },
            data,
        }
    }

    pub open spec fn build_snapshot(self, data: Seq<u8>) -> MemStoreView {
        MemStoreView {
            snapshot_idx: (self.snapshot_idx + 1) as u64,
            current_snapshot: Some(self.next_snapshot(data)),
            ..self
        }
    }

    pub open spec fn install_snapshot(
        self,
        meta: SnapshotMetaView,
        data: Seq<u8>,
        sm: StateMachineView,
    ) -> MemStoreView {
        MemStoreView { sm, current_snapshot: Some(SnapshotView { meta, data }), ..self }
    }
}

} // verus!
