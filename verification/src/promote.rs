//! Promotion of due jobs: the `scheduled -> pending` transition.
//!
//! The remote store executes this transition as one atomic script: it reads
//! every scheduled entry whose due time has passed, removes them from the
//! scheduled set and appends their ids to the pending list, in due-time
//! order, returning the count moved. Because removal and insertion happen in
//! the same indivisible step, an entry can never be promoted twice.
//!
//! [`promote_model`] is the exact statement of that script's effect;
//! [`QueueStore::promote_due`] is the executable transition, proved equal to
//! the model; the lemmas state the promotion laws: exactly the due entries
//! move, later entries stay, and an immediate second run moves nothing.

use vstd::prelude::*;

use crate::store::due_prefix_len;
use crate::store::ids_of;
use crate::store::ids_unique;
use crate::store::lemma_due_prefix_len_props;
use crate::store::sorted_by_due;
use crate::store::stages_disjoint;
use crate::store::store_wf;
use crate::store::QueueStore;
use crate::store::StoreView;

verus! {

broadcast use vstd::seq_lib::group_seq_properties;

/// The effect of one promotion pass at time `now`: the store afterwards and
/// the number of entries moved.
///
/// On a store whose scheduled set is sorted by due time, the due entries are
/// exactly the maximal due prefix; they leave the scheduled set and their
/// ids are appended to the pending list in due-time order.
pub open spec fn promote_model(v: StoreView, now: int) -> (StoreView, int) {
    let k = due_prefix_len(v.scheduled, now);
    (
        StoreView {
            scheduled: v.scheduled.skip(k),
            pending: v.pending + ids_of(v.scheduled.take(k)),
            ..v
        },
        k,
    )
}

impl QueueStore {
    /// Move every scheduled entry due at or before `now` into the pending
    /// list, returning how many moved. Moves nothing and returns 0 when no
    /// entry is due.
    pub fn promote_due(&mut self, now: i64) -> (count: usize)
        requires
            old(self).wf(),
        ensures
            final(self)@ == promote_model(old(self)@, now as int).0,
            count as int == promote_model(old(self)@, now as int).1,
            count == 0 ==> final(self)@ == old(self)@,
            final(self).wf(),
    {
        let ghost v0 = self@;
        let mut moved: usize = 0;
        let total = self.scheduled.len();
        proof {
            lemma_due_prefix_len_props(v0.scheduled, now as int);
            assert(v0.scheduled.skip(0) =~= v0.scheduled);
            assert(v0.pending + ids_of(v0.scheduled.take(0)) =~= v0.pending);
        }
        while self.scheduled.len() > 0 && self.scheduled[0].due <= now
            invariant
                v0.scheduled.len() == total as int,
                moved as int <= v0.scheduled.len(),
                moved as int <= due_prefix_len(v0.scheduled, now as int),
                due_prefix_len(v0.scheduled, now as int) == moved + due_prefix_len(
                    self@.scheduled,
                    now as int,
                ),
                self@.scheduled =~= v0.scheduled.skip(moved as int),
                self@.pending =~= v0.pending + ids_of(v0.scheduled.take(moved as int)),
                self@.leases == v0.leases,
                self@.records == v0.records,
                self@.done == v0.done,
            decreases self.scheduled.len(),
        {
            let ghost before = self@.scheduled;
            proof {
                lemma_due_prefix_len_props(before, now as int);
            }
            let e = self.scheduled.remove(0);
            let ghost ev = e@;
            let ghost pd = self.pending.deep_view();
            self.pending.push(e.job_id);
            proof {
                assert(ev == before[0]);
                assert(self.scheduled.deep_view() =~= before.skip(1));
                assert(before == v0.scheduled.skip(moved as int));
                assert(ev == v0.scheduled[moved as int]);
                assert(before.skip(1) =~= v0.scheduled.skip(moved + 1)) by {
                    assert forall|i: int| 0 <= i < before.skip(1).len() implies before.skip(1)[i]
                        == v0.scheduled.skip(moved + 1)[i] by {
                        assert(before.skip(1)[i] == before[i + 1]);
                        assert(before[i + 1] == v0.scheduled[moved + 1 + i]);
                        assert(v0.scheduled.skip(moved + 1)[i] == v0.scheduled[moved + 1 + i]);
                    }
                }
                assert(v0.scheduled.take(moved + 1) =~= v0.scheduled.take(moved as int).push(
                    ev,
                )) by {
                    assert forall|i: int| 0 <= i < moved + 1 implies v0.scheduled.take(moved + 1)[i]
                        == v0.scheduled.take(moved as int).push(ev)[i] by {
                        assert(v0.scheduled.take(moved + 1)[i] == v0.scheduled[i]);
                        if i < moved {
                            assert(v0.scheduled.take(moved as int).push(ev)[i] == v0.scheduled[i]);
                        } else {
                            assert(v0.scheduled.take(moved as int).push(ev)[i] == ev);
                        }
                    }
                }
                assert(ids_of(v0.scheduled.take(moved + 1)) =~= ids_of(
                    v0.scheduled.take(moved as int),
                ).push(ev.id));
                assert(self.pending.deep_view() =~= pd.push(ev.id));
                assert(pd.push(ev.id) =~= v0.pending + ids_of(v0.scheduled.take(moved as int)).push(
                    ev.id,
                ));
                assert(self.pending.deep_view() =~= v0.pending + ids_of(
                    v0.scheduled.take(moved + 1),
                ));
            }
            moved = moved + 1;
        }
        proof {
            assert(due_prefix_len(self@.scheduled, now as int) == 0);
            assert(self@ =~= promote_model(v0, now as int).0);
            lemma_promote_preserves_wf(v0, now as int);
            if moved == 0 {
                assert(self@ =~= v0);
            }
        }
        moved
    }
}

/// Promotion moves exactly the due entries and leaves strictly later ones
/// untouched: every scheduled entry due at or before `now` is moved (its id
/// is appended to the pending list, in order), every other entry keeps its
/// place in the scheduled set, and the count returned is the number moved.
pub proof fn lemma_promote_due_exact(v: StoreView, now: int)
    requires
        sorted_by_due(v.scheduled),
    ensures
        0 <= promote_model(v, now).1 <= v.scheduled.len(),
        forall|i: int|
            0 <= i < v.scheduled.len() ==> (v.scheduled[i].due <= now <==> i < promote_model(
                v,
                now,
            ).1),
        promote_model(v, now).0.scheduled == v.scheduled.skip(promote_model(v, now).1),
        promote_model(v, now).0.pending == v.pending + ids_of(
            v.scheduled.take(promote_model(v, now).1),
        ),
        promote_model(v, now).0.leases == v.leases,
        promote_model(v, now).0.records == v.records,
        promote_model(v, now).0.done == v.done,
{
    let k = due_prefix_len(v.scheduled, now);
    lemma_due_prefix_len_props(v.scheduled, now);
    assert forall|i: int| 0 <= i < v.scheduled.len() && v.scheduled[i].due <= now implies i
        < k by {
        if i >= k {
            assert(v.scheduled[k].due <= v.scheduled[i].due);
        }
    }
}

/// Promotion is idempotent: an immediate second pass with the same time
/// moves nothing and returns 0.
pub proof fn lemma_promote_due_idempotent(v: StoreView, now: int)
    ensures
        promote_model(promote_model(v, now).0, now).1 == 0,
        promote_model(promote_model(v, now).0, now).0 == promote_model(v, now).0,
{
    let k = due_prefix_len(v.scheduled, now);
    let v1 = promote_model(v, now).0;
    lemma_due_prefix_len_props(v.scheduled, now);
    if v1.scheduled.len() > 0 {
        assert(v1.scheduled[0] == v.scheduled[k]);
    }
    assert(due_prefix_len(v1.scheduled, now) == 0);
    assert(v1.scheduled.skip(0) =~= v1.scheduled);
    assert(v1.pending + ids_of(v1.scheduled.take(0)) =~= v1.pending);
    assert(promote_model(v1, now).0 =~= v1);
}

/// Promotion preserves the store invariant: order and uniqueness of what
/// stays scheduled, uniqueness of the grown pending list, and disjointness
/// of the four stages.
pub proof fn lemma_promote_preserves_wf(v: StoreView, now: int)
    requires
        store_wf(v),
    ensures
        store_wf(promote_model(v, now).0),
{
    let k = due_prefix_len(v.scheduled, now);
    let v1 = promote_model(v, now).0;
    lemma_due_prefix_len_props(v.scheduled, now);
    assert(ids_unique(v1.pending)) by {
        assert forall|i: int, j: int| 0 <= i < j < v1.pending.len() implies v1.pending[i]
            != v1.pending[j] by {
            if j >= v.pending.len() {
                assert(v1.pending[j] == v.scheduled[j - v.pending.len()].id);
                if i >= v.pending.len() {
                    assert(v1.pending[i] == v.scheduled[i - v.pending.len()].id);
                }
            }
        }
    }
    assert(stages_disjoint(v1)) by {
        assert forall|i: int, j: int|
            0 <= i < v1.scheduled.len() && 0 <= j < v1.pending.len() implies v1.scheduled[i].id
            != v1.pending[j] by {
            assert(v1.scheduled[i] == v.scheduled[k + i]);
            if j >= v.pending.len() {
                assert(v1.pending[j] == v.scheduled[j - v.pending.len()].id);
            }
        }
        assert forall|i: int, j: int|
            0 <= i < v1.pending.len() && 0 <= j < v1.leases.len() implies v1.pending[i]
            != v1.leases[j].id by {
            if i >= v.pending.len() {
                assert(v1.pending[i] == v.scheduled[i - v.pending.len()].id);
            }
        }
        assert forall|i: int, j: int|
            0 <= i < v1.pending.len() && 0 <= j < v1.done.len() implies v1.pending[i]
            != v1.done[j] by {
            if i >= v.pending.len() {
                assert(v1.pending[i] == v.scheduled[i - v.pending.len()].id);
            }
        }
    }
}

} // verus!
