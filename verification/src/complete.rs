//! Fenced completion: the `leased -> done` transition.
//!
//! A worker that claimed a job was granted the lease's expiry as its fencing
//! token. To complete the job it must present that exact value. The remote
//! store runs the comparison and the mutation as one atomic script, so
//! between the read of the lease and the removal nothing can interleave.
//! A stale worker — one whose lease has expired and been reclaimed — can
//! therefore never silently mark the job done: either its token still equals
//! the recorded expiry and it owns the job, or nothing is mutated at all.
//!
//! A mismatch is an ordinary negative outcome, not an error: the transition
//! returns `false` and leaves every structure untouched.

use vstd::prelude::*;

use crate::store::lease_index;
use crate::store::lease_ids_unique;
use crate::store::leased;
use crate::store::lemma_lease_index_props;
use crate::store::lemma_record_index_props;
use crate::store::record_index;
use crate::store::record_ids_unique;
use crate::store::stages_disjoint;
use crate::store::store_wf;
use crate::store::JobRecord;
use crate::store::QueueStore;
use crate::store::RecordView;
use crate::store::StoreView;

verus! {

broadcast use vstd::seq_lib::group_seq_properties;

/// Whether the lease set holds this job id with exactly this expiry: the
/// fencing condition.
pub open spec fn leased_with(v: StoreView, id: Seq<char>, expiry: int) -> bool {
    exists|i: int|
        0 <= i < v.leases.len() && v.leases[i].id == id && v.leases[i].expiry == expiry
}

/// The record sequence after completion writes `end = now, success = true`
/// for this job id: the existing record is updated in place, or a fresh one
/// is appended when the job had none.
pub open spec fn records_after_completion(
    records: Seq<RecordView>,
    id: Seq<char>,
    now: int,
) -> Seq<RecordView> {
    let r = record_index(records, id);
    if r < records.len() {
        records.update(r, RecordView { id: records[r].id, end: Some(now), success: Some(true) })
    } else {
        records.push(RecordView { id: id, end: Some(now), success: Some(true) })
    }
}

/// The effect of one completion attempt: the store afterwards and the
/// success flag.
///
/// Success requires the lease set to hold `id` with expiry exactly
/// `expected`; then the lease is removed, the id is appended to the done
/// list and the record gains `end = now, success = true`. On any mismatch —
/// including the id being absent — the store is returned unchanged.
pub open spec fn complete_model(v: StoreView, id: Seq<char>, expected: int, now: int) -> (
    StoreView,
    bool,
) {
    let i = lease_index(v.leases, id);
    if i < v.leases.len() && v.leases[i].expiry == expected {
        (
            StoreView {
                leases: v.leases.remove(i),
                done: v.done.push(id),
                records: records_after_completion(v.records, id, now),
                ..v
            },
            true,
        )
    } else {
        (v, false)
    }
}

impl QueueStore {
    /// Index of the first record holding this job id, or the record count
    /// if no record holds it.
    pub fn find_record(&self, job_id: &String) -> (i: usize)
        ensures
            i as int == record_index(self@.records, job_id@),
    {
        let n = self.records.len();
        let mut i: usize = 0;
        proof {
            assert(self@.records.skip(0) =~= self@.records);
        }
        while i < n
            invariant
                0 <= i <= n,
                n == self.records.len(),
                record_index(self@.records, job_id@) == i + record_index(
                    self@.records.skip(i as int),
                    job_id@,
                ),
                forall|j: int| 0 <= j < i ==> self@.records[j].id != job_id@,
            decreases n - i,
        {
            let ghost rest = self@.records.skip(i as int);
            assert(rest[0] == self@.records[i as int]);
            if self.records[i].job_id == *job_id {
                proof {
                    lemma_record_index_props(rest, job_id@);
                }
                return i;
            }
            proof {
                assert(rest.skip(1) =~= self@.records.skip(i + 1));
            }
            i = i + 1;
        }
        proof {
            assert(self@.records.skip(n as int) =~= Seq::<RecordView>::empty());
        }
        i
    }

    /// Attempt to complete the job under the fencing token
    /// `expected_expiry`. Returns whether the store accepted the
    /// completion; on refusal nothing is mutated.
    pub fn complete_job(&mut self, job_id: &String, expected_expiry: i64, now: i64) -> (r: bool)
        requires
            old(self).wf(),
        ensures
            final(self)@ == complete_model(
                old(self)@,
                job_id@,
                expected_expiry as int,
                now as int,
            ).0,
            r == complete_model(old(self)@, job_id@, expected_expiry as int, now as int).1,
            r == leased_with(old(self)@, job_id@, expected_expiry as int),
            final(self).wf(),
    {
        let ghost v0 = self@;
        let i = self.find_lease(job_id);
        proof {
            lemma_lease_index_props(v0.leases, job_id@);
        }
        if i < self.leases.len() && self.leases[i].expiry == expected_expiry {
            let ghost lv = self.leases@;
            self.leases.remove(i);
            proof {
                assert(self.leases.deep_view() =~= v0.leases.remove(i as int)) by {
                    assert forall|j: int|
                        0 <= j < self.leases.deep_view().len() implies self.leases.deep_view()[j]
                        == v0.leases.remove(i as int)[j] by {
                        if j < i {
                            assert(self.leases@[j] == lv[j]);
                        } else {
                            assert(self.leases@[j] == lv[j + 1]);
                        }
                    }
                }
            }
            let ghost dv = self.done.deep_view();
            self.done.push(job_id.clone());
            proof {
                assert(self.done.deep_view() =~= dv.push(job_id@));
            }
            let ridx = self.find_record(job_id);
            proof {
                lemma_record_index_props(v0.records, job_id@);
            }
            let ghost rv = self.records@;
            if ridx < self.records.len() {
                let mut rec = self.records.remove(ridx);
                rec.end = Some(now);
                rec.success = Some(true);
                let ghost recv = rec;
                self.records.insert(ridx, rec);
                proof {
                    assert(self.records.deep_view() =~= records_after_completion(
                        v0.records,
                        job_id@,
                        now as int,
                    )) by {
                        assert forall|j: int|
                            0 <= j < self.records.deep_view().len() implies self.records.deep_view()[j]
                            == records_after_completion(v0.records, job_id@, now as int)[j] by {
                            if j < ridx {
                                assert(self.records@[j] == rv.remove(ridx as int).insert(
                                    ridx as int,
                                    recv,
                                )[j]);
                                assert(self.records@[j] == rv[j]);
                            } else if j == ridx {
                                assert(self.records@[j] == recv);
                            } else {
                                assert(self.records@[j] == rv.remove(ridx as int)[j - 1]);
                                assert(self.records@[j] == rv[j]);
                            }
                        }
                    }
                }
            } else {
                self.records.push(JobRecord {
                    job_id: job_id.clone(),
                    end: Some(now),
                    success: Some(true),
                });
                proof {
                    assert(self.records.deep_view() =~= records_after_completion(
                        v0.records,
                        job_id@,
                        now as int,
                    ));
                }
            }
            proof {
                assert(self@ =~= complete_model(
                    v0,
                    job_id@,
                    expected_expiry as int,
                    now as int,
                ).0);
                lemma_complete_preserves_wf(v0, job_id@, expected_expiry as int, now as int);
                lemma_complete_job_fenced(v0, job_id@, expected_expiry as int, now as int);
            }
            true
        } else {
            proof {
                lemma_complete_job_fenced(v0, job_id@, expected_expiry as int, now as int);
            }
            false
        }
    }
}

/// The fencing law: completion succeeds exactly when the lease set holds
/// the job id with expiry equal to the presented token; on success the
/// lease is gone, the id is appended to the done list and the record reads
/// `end = now, success = true`; on failure nothing changes.
pub proof fn lemma_complete_job_fenced(v: StoreView, id: Seq<char>, expected: int, now: int)
    requires
        lease_ids_unique(v.leases),
    ensures
        complete_model(v, id, expected, now).1 == leased_with(v, id, expected),
        !complete_model(v, id, expected, now).1 ==> complete_model(v, id, expected, now).0 == v,
        complete_model(v, id, expected, now).1 ==> !leased(
            complete_model(v, id, expected, now).0,
            id,
        ),
        complete_model(v, id, expected, now).1 ==> complete_model(v, id, expected, now).0.done
            == v.done.push(id),
        complete_model(v, id, expected, now).1 ==> {
            let recs = complete_model(v, id, expected, now).0.records;
            let r = record_index(recs, id);
            &&& r < recs.len()
            &&& recs[r].id == id
            &&& recs[r].end == Some(now)
            &&& recs[r].success == Some(true)
        },
{
    let i = lease_index(v.leases, id);
    lemma_lease_index_props(v.leases, id);
    if i < v.leases.len() && v.leases[i].expiry == expected {
        assert(leased_with(v, id, expected));
        let v1 = complete_model(v, id, expected, now).0;
        assert forall|j: int| 0 <= j < v1.leases.len() implies v1.leases[j].id != id by {
            if j < i {
                assert(v1.leases[j] == v.leases[j]);
            } else {
                assert(v1.leases[j] == v.leases[j + 1]);
            }
        }
        lemma_records_after_completion(v.records, id, now);
    } else {
        if leased_with(v, id, expected) {
            let w = choose|j: int|
                0 <= j < v.leases.len() && v.leases[j].id == id && v.leases[j].expiry == expected;
            assert(i <= w);
            assert(v.leases[i].id == id);
            if i < w {
                assert(false);
            }
        }
    }
}

/// After `records_after_completion`, the job's record exists, is found at
/// the same index search finds it, and reads `end = now, success = true`;
/// every other record is untouched and id uniqueness is preserved.
pub proof fn lemma_records_after_completion(records: Seq<RecordView>, id: Seq<char>, now: int)
    ensures
        ({
            let recs = records_after_completion(records, id, now);
            let r = record_index(recs, id);
            &&& r < recs.len()
            &&& recs[r].id == id
            &&& recs[r].end == Some(now)
            &&& recs[r].success == Some(true)
            &&& record_ids_unique(records) ==> record_ids_unique(recs)
        }),
{
    let r0 = record_index(records, id);
    lemma_record_index_props(records, id);
    let recs = records_after_completion(records, id, now);
    if r0 < records.len() {
        assert(recs[r0].id == records[r0].id);
        assert(records[r0].id == id);
        lemma_record_index_props(recs, id);
        lemma_record_index_stable(records, recs, id);
    } else {
        assert(recs[records.len() as int].id == id);
        lemma_record_index_props(recs, id);
        if record_index(recs, id) < records.len() {
            assert(recs[record_index(recs, id)] == records[record_index(recs, id)]);
            assert(false);
        }
    }
}

/// Two record sequences of equal length whose ids agree index by index are
/// searched identically.
proof fn lemma_record_index_stable(a: Seq<RecordView>, b: Seq<RecordView>, id: Seq<char>)
    requires
        a.len() == b.len(),
        forall|i: int| 0 <= i < a.len() ==> a[i].id == b[i].id,
    ensures
        record_index(a, id) == record_index(b, id),
    decreases a.len(),
{
    if a.len() > 0 {
        assert(a[0].id == b[0].id);
        if a[0].id != id {
            assert forall|i: int| 0 <= i < a.skip(1).len() implies a.skip(1)[i].id == b.skip(
                1,
            )[i].id by {
                assert(a.skip(1)[i] == a[i + 1]);
                assert(b.skip(1)[i] == b[i + 1]);
            }
            lemma_record_index_stable(a.skip(1), b.skip(1), id);
        }
    }
}

/// Completing twice with the same token mutates the store exactly once:
/// when the first attempt succeeds, the immediate second attempt fails and
/// leaves the store of the first attempt unchanged. Two racing workers are
/// serialized by the store's atomic script execution, so this is the
/// guarantee that exactly one of them wins and the record is written once.
pub proof fn lemma_complete_job_exactly_once(
    v: StoreView,
    id: Seq<char>,
    expected: int,
    now1: int,
    now2: int,
)
    requires
        lease_ids_unique(v.leases),
        complete_model(v, id, expected, now1).1,
    ensures
        complete_model(complete_model(v, id, expected, now1).0, id, expected, now2).1 == false,
        complete_model(complete_model(v, id, expected, now1).0, id, expected, now2).0
            == complete_model(v, id, expected, now1).0,
{
    let v1 = complete_model(v, id, expected, now1).0;
    lemma_complete_job_fenced(v, id, expected, now1);
    lemma_lease_index_props(v1.leases, id);
    if leased_with(v1, id, expected) {
        assert(leased(v1, id));
    }
    assert(!complete_model(v1, id, expected, now2).1) by {
        let i1 = lease_index(v1.leases, id);
        if i1 < v1.leases.len() {
            assert(v1.leases[i1].id == id);
            assert(leased(v1, id));
        }
    }
}

/// Completion preserves the store invariant: uniqueness inside every stage,
/// uniqueness of the records, and disjointness of the four stages.
pub proof fn lemma_complete_preserves_wf(v: StoreView, id: Seq<char>, expected: int, now: int)
    requires
        store_wf(v),
    ensures
        store_wf(complete_model(v, id, expected, now).0),
{
    let i = lease_index(v.leases, id);
    lemma_lease_index_props(v.leases, id);
    if i < v.leases.len() && v.leases[i].expiry == expected {
        let v1 = complete_model(v, id, expected, now).0;
        lemma_records_after_completion(v.records, id, now);
        assert(forall|j: int|
            0 <= j < v1.leases.len() ==> v1.leases[j] == (if j < i {
                v.leases[j]
            } else {
                v.leases[j + 1]
            }));
        assert(lease_ids_unique(v1.leases));
        assert(v.leases[i].id == id);
        assert(forall|j: int| 0 <= j < v.done.len() ==> v1.done[j] == v.done[j]);
        assert(v1.done[v.done.len() as int] == id);
        assert(stages_disjoint(v1)) by {
            assert forall|x: int, j: int|
                0 <= x < v1.scheduled.len() && 0 <= j < v1.done.len() implies v1.scheduled[x].id
                != v1.done[j] by {
                if j == v.done.len() {
                    assert(v1.done[j] == v.leases[i].id);
                }
            }
            assert forall|x: int, j: int|
                0 <= x < v1.pending.len() && 0 <= j < v1.done.len() implies v1.pending[x]
                != v1.done[j] by {
                if j == v.done.len() {
                    assert(v1.done[j] == v.leases[i].id);
                }
            }
            assert forall|x: int, j: int|
                0 <= x < v1.leases.len() && 0 <= j < v1.done.len() implies v1.leases[x].id
                != v1.done[j] by {
                let xv = if x < i {
                    x
                } else {
                    x + 1
                };
                assert(v1.leases[x] == v.leases[xv]);
                if j == v.done.len() {
                    assert(v1.done[j] == v.leases[i].id);
                    assert(xv != i);
                }
            }
        }
        assert(ids_unique_done(v, id)) by {
            assert(forall|j: int| 0 <= j < v.done.len() ==> v.leases[i].id != v.done[j]);
        }
    }
}

/// The done list stays duplicate-free when an id held by no done entry is
/// appended.
spec fn ids_unique_done(v: StoreView, id: Seq<char>) -> bool {
    crate::store::ids_unique(v.done.push(id))
}

} // verus!
