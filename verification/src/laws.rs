//! What holds of the store whatever it is asked to do, stated over the
//! values that stores stand for.

use crate::entry::EntryView;
use crate::log_id::opt_index;
use crate::log_id::opt_is_at_most;
use crate::log_id::opt_is_before;
use crate::log_id::LogId;
use crate::model::in_range;
use crate::model::is_last_key;
use crate::model::is_log_range;
use crate::model::log_with;
use crate::model::IndexBound;
use crate::model::MemStoreView;
use crate::model::SnapshotMetaView;
use crate::state_machine::StateMachineView;
use crate::vote::Vote;
use vstd::prelude::*;

verus! {

/// The entries `es` continue the log of `v`: the first has the index after
/// the last log id of `v`, and each further one the index after its
/// predecessor's.
pub open spec fn continues(v: MemStoreView, es: Seq<EntryView>) -> bool {
    forall|n: int|
        0 <= n < es.len() ==> (#[trigger] es[n]).log_id.index == opt_index(v.last_log_id()) + 1 + n
}

/// The log ids of `v` grow with the index, and all lie after the purged part.
pub open spec fn is_ordered(v: MemStoreView) -> bool {
    &&& forall|k: u64| #[trigger]
        v.log.contains_key(k) ==> opt_is_before(v.last_purged_log_id, Some(v.log[k].log_id))
    &&& forall|i: u64, j: u64|
        #![trigger v.log.contains_key(i), v.log.contains_key(j)]
        v.log.contains_key(i) && v.log.contains_key(j) && i < j ==> v.log[i].log_id.is_before(
            v.log[j].log_id,
        )
}

/// A finite log that holds an entry has a last one.
pub proof fn lemma_last_key_exists(log: Map<u64, EntryView>)
    requires
        log.dom().finite(),
        log.dom().len() > 0,
    ensures
        exists|k: u64| is_last_key(log, k),
    decreases log.dom().len(),
{
    let a = log.dom().choose();
    let rest = log.remove(a);
    assert(rest.dom() =~= log.dom().remove(a));
    if rest.dom().len() == 0 {
        assert forall|j: u64| log.contains_key(j) implies j <= a by {
            if j != a {
                assert(rest.dom().contains(j));
            }
        }
        assert(is_last_key(log, a));
    } else {
        lemma_last_key_exists(rest);
        let m = choose|m: u64| is_last_key(rest, m);
        let top = if a > m {
            a
        } else {
            m
        };
        assert forall|j: u64| log.contains_key(j) implies j <= top by {
            if j != a {
                assert(rest.contains_key(j));
            }
        }
        assert(is_last_key(log, top));
    }
}

/// The last log id of a store whose entries are keyed by index: the id of
/// the entry under the greatest index, which is that entry's index; the
/// purged mark where the log is empty.
pub proof fn lemma_last_log_id(v: MemStoreView)
    requires
        v.keyed_by_index(),
    ensures
        v.log.dom().len() == 0 ==> v.last_log_id() == v.last_purged_log_id,
        v.log.dom().len() > 0 ==> exists|k: u64|
            is_last_key(v.log, k) && v.last_log_id() == Some(v.log[k].log_id),
        forall|k: u64| is_last_key(v.log, k) ==> v.last_log_id() == Some(v.log[k].log_id),
{
    if v.log.dom().len() > 0 {
        lemma_last_key_exists(v.log);
    } else {
        assert forall|k: u64| !is_last_key(v.log, k) by {
            if v.log.contains_key(k) {
                assert(v.log.dom().contains(k));
                assert(v.log.dom().len() > 0);
            }
        }
    }
    assert forall|k: u64| is_last_key(v.log, k) implies v.last_log_id() == Some(
        v.log[k].log_id,
    ) by {
        let c = choose|c: u64| is_last_key(v.log, c);
        assert(c == k);
    }
}

/// What `log_with` holds: the entries of `es` under their indexes, and the
/// entries of `log` under the other indexes.
pub proof fn lemma_log_with(log: Map<u64, EntryView>, es: Seq<EntryView>)
    requires
        forall|n: int, m: int|
            0 <= n < m < es.len() ==> (#[trigger] es[n]).log_id.index != (
            #[trigger] es[m]).log_id.index,
    ensures
        forall|k: u64| #[trigger]
            log_with(log, es).contains_key(k) <==> log.contains_key(k) || exists|n: int|
                0 <= n < es.len() && (#[trigger] es[n]).log_id.index == k,
        forall|n: int|
            0 <= n < es.len() ==> log_with(log, es)[(#[trigger] es[n]).log_id.index] == es[n],
        forall|k: u64|
            log.contains_key(k) && !(exists|n: int|
                0 <= n < es.len() && (#[trigger] es[n]).log_id.index == k) ==> #[trigger] log_with(
                log,
                es,
            )[k] == log[k],
        log.dom().finite() ==> log_with(log, es).dom().finite(),
    decreases es.len(),
{
    if es.len() > 0 {
        let head = es.drop_last();
        let e = es.last();
        lemma_log_with(log, head);
        let before = log_with(log, head);
        let after = log_with(log, es);
        assert(after == before.insert(e.log_id.index, e));
        assert forall|k: u64| #[trigger]
            after.contains_key(k) <==> log.contains_key(k) || exists|n: int|
                0 <= n < es.len() && (#[trigger] es[n]).log_id.index == k by {
            if before.contains_key(k) && !log.contains_key(k) {
                let n = choose|n: int| 0 <= n < head.len() && (#[trigger] head[n]).log_id.index == k;
                assert(es[n].log_id.index == k);
            }
            if k == e.log_id.index {
                assert(es[es.len() - 1].log_id.index == k);
            }
            if exists|n: int| 0 <= n < es.len() && (#[trigger] es[n]).log_id.index == k {
                let n = choose|n: int| 0 <= n < es.len() && (#[trigger] es[n]).log_id.index == k;
                if n < head.len() {
                    assert(head[n].log_id.index == k);
                }
            }
        }
        assert forall|n: int| 0 <= n < es.len() implies after[(#[trigger] es[n]).log_id.index]
            == es[n] by {
            if n < head.len() {
                assert(head[n] == es[n]);
                assert(es[n].log_id.index != es[es.len() - 1].log_id.index);
            }
        }
        assert forall|k: u64|
            log.contains_key(k) && !(exists|n: int|
                0 <= n < es.len() && (#[trigger] es[n]).log_id.index == k) implies #[trigger] after[k]
            == log[k] by {
            assert(es[es.len() - 1].log_id.index != k);
            if exists|n: int| 0 <= n < head.len() && (#[trigger] head[n]).log_id.index == k {
                let n = choose|n: int| 0 <= n < head.len() && (#[trigger] head[n]).log_id.index == k;
                assert(es[n].log_id.index == k);
            }
        }
    }
}

/// A new store holds no vote: reading the vote of a store on which no vote
/// was saved gives none.
pub proof fn fresh_store_has_no_vote()
    ensures
        MemStoreView::empty().vote is None,
        MemStoreView::empty().keyed_by_index(),
        MemStoreView::empty().is_contiguous(),
        is_ordered(MemStoreView::empty()),
        MemStoreView::empty().last_log_id() is None,
{
    let v = MemStoreView::empty();
    assert forall|k: u64| !is_last_key(v.log, k) by {}
}

/// After a vote was saved, it is the vote that the store holds.
pub proof fn saved_vote_is_read(v: MemStoreView, vote: Vote)
    ensures
        v.save_vote(vote).vote == Some(vote),
{
}

/// Where the log is empty the last log id is the purged mark; where the log
/// ids grow with the index, the purged mark never lies past the last log id.
pub proof fn purged_mark_is_at_most_last_log_id(v: MemStoreView)
    requires
        v.keyed_by_index(),
        is_ordered(v),
    ensures
        v.log.dom().len() == 0 ==> v.last_log_id() == v.last_purged_log_id,
        opt_is_at_most(v.last_purged_log_id, v.last_log_id()),
{
    lemma_last_log_id(v);
    crate::log_id::log_id_order_laws(v.last_purged_log_id, v.last_log_id(), None);
    if v.log.dom().len() > 0 {
        let k = choose|k: u64| is_last_key(v.log, k) && v.last_log_id() == Some(v.log[k].log_id);
        assert(v.log.contains_key(k));
    }
}

/// Appending one entry and then asking for exactly its index gives exactly
/// that entry.
pub proof fn appended_entry_is_read_back(v: MemStoreView, e: EntryView, out: Seq<EntryView>)
    requires
        is_log_range(
            out,
            v.append_to_log(seq![e]).log,
            IndexBound::Included(e.log_id.index),
            IndexBound::Included(e.log_id.index),
        ),
    ensures
        out == seq![e],
{
    let es = seq![e];
    let k = e.log_id.index;
    let log = v.append_to_log(es).log;
    assert(es.drop_last() == Seq::<EntryView>::empty());
    assert(log_with(v.log, es.drop_last()) == v.log);
    assert(log == v.log.insert(k, e));
    assert(log.contains_key(k) && in_range(IndexBound::Included(k), IndexBound::Included(k), k));
    let n = choose|n: int| 0 <= n < out.len() && (#[trigger] out[n]).log_id.index == k;
    assert(out.len() == 1) by {
        if out.len() > 1 {
            assert(out[0].log_id.index == k);
            assert(out[1].log_id.index == k);
        }
    }
    assert(out[0] == e);
    assert(out =~= seq![e]);
}

/// The entries in a range of the log are determined: two lists that both
/// hold them in ascending order are the same list.
pub proof fn log_range_is_unique(
    a: Seq<EntryView>,
    b: Seq<EntryView>,
    log: Map<u64, EntryView>,
    start: IndexBound,
    end: IndexBound,
)
    requires
        is_log_range(a, log, start, end),
        is_log_range(b, log, start, end),
    ensures
        a == b,
    decreases a.len(),
{
    if a.len() == 0 {
        if b.len() > 0 {
            let k = b[0].log_id.index;
            assert(log.contains_key(k) && in_range(start, end, k));
            let n = choose|n: int| 0 <= n < a.len() && (#[trigger] a[n]).log_id.index == k;
        }
        assert(a =~= b);
    } else {
        let ka = a.last().log_id.index;
        assert(log.contains_key(ka) && in_range(start, end, ka));
        let nb = choose|n: int| 0 <= n < b.len() && (#[trigger] b[n]).log_id.index == ka;
        let kb = b.last().log_id.index;
        assert(log.contains_key(kb) && in_range(start, end, kb));
        let na = choose|n: int| 0 <= n < a.len() && (#[trigger] a[n]).log_id.index == kb;
        assert(ka == kb) by {
            if na < a.len() - 1 {
                assert(a[na].log_id.index < a[a.len() - 1].log_id.index);
            }
            if nb < b.len() - 1 {
                assert(b[nb].log_id.index < b[b.len() - 1].log_id.index);
            }
        }
        let upto = IndexBound::Excluded(ka);
        let a0 = a.drop_last();
        let b0 = b.drop_last();
        let narrow = Map::new(|k: u64| log.contains_key(k) && in_range(start, end, k), |k: u64| log[k]);
        assert(is_log_range(a0, narrow, IndexBound::Unbounded, upto)) by {
            assert forall|i: int| 0 <= i < a0.len() implies {
                let k = (#[trigger] a0[i]).log_id.index;
                narrow.contains_key(k) && narrow[k] == a0[i] && in_range(IndexBound::Unbounded, upto, k)
            } by {
                assert(a0[i] == a[i]);
                assert(a[i].log_id.index < a[a.len() - 1].log_id.index);
            }
            assert forall|k: u64|
                #[trigger] narrow.contains_key(k) && in_range(
                    IndexBound::Unbounded,
                    upto,
                    k,
                ) implies exists|i: int| 0 <= i < a0.len() && (#[trigger] a0[i]).log_id.index == k by {
                assert(log.contains_key(k));
                let i = choose|i: int| 0 <= i < a.len() && (#[trigger] a[i]).log_id.index == k;
                assert(a0[i].log_id.index == k);
            }
            assert forall|i: int, j: int| 0 <= i < j < a0.len() implies (#[trigger] a0[i]).log_id.index
                < (#[trigger] a0[j]).log_id.index by {
                assert(a[i].log_id.index < a[j].log_id.index);
            }
        }
        assert(is_log_range(b0, narrow, IndexBound::Unbounded, upto)) by {
            assert forall|i: int| 0 <= i < b0.len() implies {
                let k = (#[trigger] b0[i]).log_id.index;
                narrow.contains_key(k) && narrow[k] == b0[i] && in_range(IndexBound::Unbounded, upto, k)
            } by {
                assert(b0[i] == b[i]);
                assert(b[i].log_id.index < b[b.len() - 1].log_id.index);
            }
            assert forall|k: u64|
                #[trigger] narrow.contains_key(k) && in_range(
                    IndexBound::Unbounded,
                    upto,
                    k,
                ) implies exists|i: int| 0 <= i < b0.len() && (#[trigger] b0[i]).log_id.index == k by {
                assert(log.contains_key(k));
                let i = choose|i: int| 0 <= i < b.len() && (#[trigger] b[i]).log_id.index == k;
                assert(b0[i].log_id.index == k);
            }
            assert forall|i: int, j: int| 0 <= i < j < b0.len() implies (#[trigger] b0[i]).log_id.index
                < (#[trigger] b0[j]).log_id.index by {
                assert(b[i].log_id.index < b[j].log_id.index);
            }
        }
        log_range_is_unique(a0, b0, narrow, IndexBound::Unbounded, upto);
        assert(a.last() == b.last());
        assert(a =~= a0.push(a.last()));
        assert(b =~= b0.push(b.last()));
    }
}

/// Purging up to the purged mark again changes nothing.
pub proof fn purge_at_purged_mark_changes_nothing(v: MemStoreView, x: LogId)
    requires
        v.is_contiguous(),
        v.last_purged_log_id == Some(x),
    ensures
        v.purge_logs_upto(x) == v,
{
    assert(v.purge_logs_upto(x).log =~= v.log);
}

/// Deleting from an index beyond the last log id changes nothing.
pub proof fn delete_beyond_last_changes_nothing(v: MemStoreView, log_id: LogId)
    requires
        v.keyed_by_index(),
        log_id.index > opt_index(v.last_log_id()),
    ensures
        v.delete_conflict_logs_since(log_id) == v,
{
    lemma_last_log_id(v);
    if v.log.dom().len() > 0 {
        let k = choose|k: u64| is_last_key(v.log, k) && v.last_log_id() == Some(v.log[k].log_id);
        assert(v.log[k].log_id.index == k);
    } else {
        assert forall|k: u64| !v.log.contains_key(k) by {
            if v.log.contains_key(k) {
                assert(v.log.dom().contains(k));
            }
        }
    }
    assert(v.delete_conflict_logs_since(log_id).log =~= v.log);
}

/// Where the bytes of a snapshot decode to the state machine they were made
/// from, installing the snapshot that one store built on a new store gives
/// the new store that state machine and that snapshot.
pub proof fn built_snapshot_installs_its_state_machine(
    source: MemStoreView,
    data: Seq<u8>,
    decoded: StateMachineView,
)
    requires
        decoded == source.sm,
    ensures
        ({
            let built = source.build_snapshot(data).current_snapshot->0;
            let installed = MemStoreView::empty().install_snapshot(built.meta, built.data, decoded);
            &&& source.build_snapshot(data).current_snapshot is Some
            &&& installed.sm == source.sm
            &&& installed.current_snapshot == Some(built)
            &&& built.meta.last_log_id == source.sm.last_applied_log->0
        }),
{
}

/// Installing a snapshot on a new store and purging up to the snapshot's
/// last log id leaves an empty log that starts and ends at that log id.
pub proof fn installed_snapshot_bounds_the_log(
    meta: SnapshotMetaView,
    data: Seq<u8>,
    sm: StateMachineView,
)
    ensures
        ({
            let v = MemStoreView::empty().install_snapshot(meta, data, sm).purge_logs_upto(
                meta.last_log_id,
            );
            &&& v.log == Map::<u64, EntryView>::empty()
            &&& v.last_purged_log_id == Some(meta.last_log_id)
            &&& v.last_log_id() == Some(meta.last_log_id)
            &&& v.keyed_by_index()
            &&& v.is_contiguous()
        }),
{
    let v = MemStoreView::empty().install_snapshot(meta, data, sm).purge_logs_upto(
        meta.last_log_id,
    );
    assert(v.log =~= Map::<u64, EntryView>::empty());
    assert forall|k: u64| !is_last_key(v.log, k) by {}
}

/// Saving a vote, applying entries, building and installing a snapshot
/// leave the log, and with it the last log id, as they are.
pub proof fn only_log_operations_move_last_log_id(
    v: MemStoreView,
    vote: Vote,
    es: Seq<EntryView>,
    data: Seq<u8>,
    meta: SnapshotMetaView,
    sm: StateMachineView,
)
    ensures
        v.save_vote(vote).last_log_id() == v.last_log_id(),
        v.apply_to_state_machine(es).last_log_id() == v.last_log_id(),
        v.build_snapshot(data).last_log_id() == v.last_log_id(),
        v.install_snapshot(meta, data, sm).last_log_id() == v.last_log_id(),
{
}

/// Appending entries that continue the log keeps the log without gaps and
/// keyed by index, and makes the last of them the last entry of the log.
/// Where that entry's log id is not before the last log id of the store, as
/// it is whenever terms do not fall along the log, the last log id does not
/// go back.
pub proof fn append_advances_last_log_id(v: MemStoreView, es: Seq<EntryView>)
    requires
        v.keyed_by_index(),
        v.is_contiguous(),
        continues(v, es),
        es.len() > 0,
        opt_index(v.last_log_id()) + es.len() <= u64::MAX,
    ensures
        v.append_to_log(es).keyed_by_index(),
        v.append_to_log(es).is_contiguous(),
        v.append_to_log(es).last_log_id() == Some(es.last().log_id),
        opt_is_at_most(v.last_log_id(), Some(es.last().log_id)) ==> opt_is_at_most(
            v.last_log_id(),
            v.append_to_log(es).last_log_id(),
        ),
{
    let after = v.append_to_log(es);
    let base = opt_index(v.last_log_id());
    lemma_last_log_id(v);
    lemma_log_with(v.log, es);
    // every old key is at most `base`, and lies above the purged mark
    assert forall|k: u64| v.log.contains_key(k) implies k <= base by {
        assert(v.log.dom().contains(k));
        let top = choose|t: u64| is_last_key(v.log, t) && v.last_log_id() == Some(v.log[t].log_id);
        assert(v.log[top].log_id.index == top);
    }
    assert(opt_index(v.last_purged_log_id) <= base) by {
        if v.log.dom().len() > 0 {
            let top = choose|t: u64|
                is_last_key(v.log, t) && v.last_log_id() == Some(v.log[t].log_id);
            assert(v.log[top].log_id.index == top);
            assert(v.log.contains_key(top));
        }
    }
    assert forall|k: u64| #[trigger] after.log.contains_key(k) implies after.log[k].log_id.index
        == k by {
        if exists|n: int| 0 <= n < es.len() && (#[trigger] es[n]).log_id.index == k {
            let n = choose|n: int| 0 <= n < es.len() && (#[trigger] es[n]).log_id.index == k;
            assert(after.log[es[n].log_id.index] == es[n]);
        } else {
            assert(after.log[k] == v.log[k]);
        }
    }
    let last = es.last().log_id.index;
    assert(es[es.len() - 1].log_id.index == last);
    assert(after.log.contains_key(last));
    assert forall|j: u64| after.log.contains_key(j) implies j <= last by {
        if exists|n: int| 0 <= n < es.len() && (#[trigger] es[n]).log_id.index == j {
        }
    }
    assert(is_last_key(after.log, last));
    lemma_last_log_id(after);
    assert forall|i: u64, j: u64|
        #![trigger after.log.contains_key(i), after.log.contains_key(j)]
        after.log.contains_key(j) && opt_index(after.last_purged_log_id) < i <= j implies after.log.contains_key(
        i,
    ) by {
        if i <= base {
            if v.log.dom().len() > 0 {
                let top = choose|t: u64|
                    is_last_key(v.log, t) && v.last_log_id() == Some(v.log[t].log_id);
                assert(v.log[top].log_id.index == top);
                assert(v.log.contains_key(top));
                assert(v.log.contains_key(i));
            }
        } else {
            let n = i - base - 1;
            assert(es[n].log_id.index == i);
        }
    }
}

/// Deleting a tail of the log keeps the log without gaps and keyed by index.
pub proof fn delete_keeps_log_contiguous(v: MemStoreView, log_id: LogId)
    requires
        v.keyed_by_index(),
        v.is_contiguous(),
    ensures
        v.delete_conflict_logs_since(log_id).keyed_by_index(),
        v.delete_conflict_logs_since(log_id).is_contiguous(),
        is_ordered(v) ==> is_ordered(v.delete_conflict_logs_since(log_id)),
{
    let after = v.delete_conflict_logs_since(log_id);
    assert(after.log.dom().subset_of(v.log.dom()));
    vstd::set_lib::lemma_set_subset_finite(v.log.dom(), after.log.dom());
    assert forall|i: u64, j: u64|
        #![trigger after.log.contains_key(i), after.log.contains_key(j)]
        after.log.contains_key(j) && opt_index(after.last_purged_log_id) < i <= j implies after.log.contains_key(
        i,
    ) by {
        assert(v.log.contains_key(j));
        assert(v.log.contains_key(i));
    }
}

/// Purging up to a log id whose index is not below the purged mark keeps
/// the log without gaps and keyed by index. The last log id stays where an
/// entry is left, and becomes the purged mark where none is; so it does not
/// go back unless the log ended on an entry that lies past the new mark.
pub proof fn purge_keeps_log_contiguous(v: MemStoreView, x: LogId)
    requires
        v.keyed_by_index(),
        v.is_contiguous(),
        opt_index(v.last_purged_log_id) <= x.index,
    ensures
        v.purge_logs_upto(x).keyed_by_index(),
        v.purge_logs_upto(x).is_contiguous(),
        opt_index(v.last_log_id()) > x.index ==> v.purge_logs_upto(x).last_log_id()
            == v.last_log_id(),
        opt_index(v.last_log_id()) <= x.index ==> v.purge_logs_upto(x).last_log_id() == Some(x),
        (opt_index(v.last_log_id()) > x.index || opt_is_at_most(v.last_log_id(), Some(x)))
            ==> opt_is_at_most(v.last_log_id(), v.purge_logs_upto(x).last_log_id()),
{
    let after = v.purge_logs_upto(x);
    assert(after.log.dom().subset_of(v.log.dom()));
    vstd::set_lib::lemma_set_subset_finite(v.log.dom(), after.log.dom());
    lemma_last_log_id(v);
    lemma_last_log_id(after);
    crate::log_id::log_id_order_laws(v.last_log_id(), v.last_log_id(), None);
    assert forall|i: u64, j: u64|
        #![trigger after.log.contains_key(i), after.log.contains_key(j)]
        after.log.contains_key(j) && opt_index(after.last_purged_log_id) < i <= j implies after.log.contains_key(
        i,
    ) by {
        assert(v.log.contains_key(j));
        assert(v.log.contains_key(i));
    }
    if v.log.dom().len() > 0 {
        let top = choose|t: u64| is_last_key(v.log, t) && v.last_log_id() == Some(v.log[t].log_id);
        assert(v.log[top].log_id.index == top);
        assert(v.log.contains_key(top));
        if top > x.index {
            assert(after.log.contains_key(top));
            assert(is_last_key(after.log, top));
        } else {
            assert forall|k: u64| !is_last_key(after.log, k) by {
                if after.log.contains_key(k) {
                    assert(v.log.contains_key(k));
                }
            }
        }
    } else {
        assert forall|k: u64| !is_last_key(after.log, k) by {
            if after.log.contains_key(k) {
                assert(v.log.dom().contains(k));
            }
        }
        assert(opt_index(v.last_log_id()) <= x.index);
    }
}

} // verus!
