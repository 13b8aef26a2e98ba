//! The queue store: the keyed structures a job moves through.
//!
//! A job travels `scheduled -> pending -> leased -> done`. The scheduled set
//! is ordered by due time, the pending list is a FIFO of job ids ready to be
//! claimed, the lease set maps a job id to the expiry of the worker's
//! ownership, and the done list is append-only. The per-job record keeps the
//! fields that the completion transition writes.
//!
//! The store lives on a remote server in reality; this model is the exact
//! statement of what each atomic transition does to it. Every operation's
//! contract is given against [`StoreView`], the mathematical image of the
//! store.

use vstd::prelude::*;

verus! {

broadcast use vstd::seq_lib::group_seq_properties;

/// One entry of the time-ordered scheduled set: a job waiting for its due time.
#[derive(Clone, Debug, PartialEq)]
pub struct ScheduledEntry {
    /// The globally unique job id.
    pub job_id: String,
    /// Due time in epoch milliseconds.
    pub due: i64,
}

/// One entry of the lease set: a job currently owned by a worker.
///
/// The expiry doubles as the fencing token: a worker may complete the job
/// only by presenting this exact value.
#[derive(Clone, Debug, PartialEq)]
pub struct Lease {
    /// The globally unique job id.
    pub job_id: String,
    /// Lease expiry in epoch milliseconds.
    pub expiry: i64,
}

/// The per-job record fields that the completion transition writes.
#[derive(Clone, Debug, PartialEq)]
pub struct JobRecord {
    /// The globally unique job id.
    pub job_id: String,
    /// End time in epoch milliseconds, set on successful completion.
    pub end: Option<i64>,
    /// Success flag, set on successful completion.
    pub success: Option<bool>,
}

/// The whole queue store.
#[derive(Clone, Debug, PartialEq)]
pub struct QueueStore {
    /// Scheduled set, kept ordered by non-decreasing due time.
    pub scheduled: Vec<ScheduledEntry>,
    /// FIFO of job ids ready for immediate claim; front is index 0.
    pub pending: Vec<String>,
    /// Jobs currently owned by a worker, with their lease expiry.
    pub leases: Vec<Lease>,
    /// Per-job records, at most one per job id.
    pub records: Vec<JobRecord>,
    /// Append-only list of completed job ids.
    pub done: Vec<String>,
}

/// Mathematical image of a scheduled entry.
#[verifier::ext_equal]
pub struct EntryView {
    pub id: Seq<char>,
    pub due: int,
}

/// Mathematical image of a lease.
#[verifier::ext_equal]
pub struct LeaseView {
    pub id: Seq<char>,
    pub expiry: int,
}

/// Mathematical image of a job record.
#[verifier::ext_equal]
pub struct RecordView {
    pub id: Seq<char>,
    pub end: Option<int>,
    pub success: Option<bool>,
}

/// Mathematical image of the whole store.
#[verifier::ext_equal]
pub struct StoreView {
    pub scheduled: Seq<EntryView>,
    pub pending: Seq<Seq<char>>,
    pub leases: Seq<LeaseView>,
    pub records: Seq<RecordView>,
    pub done: Seq<Seq<char>>,
}

impl View for ScheduledEntry {
    type V = EntryView;

    open spec fn view(&self) -> EntryView {
        EntryView { id: self.job_id@, due: self.due as int }
    }
}

impl DeepView for ScheduledEntry {
    type V = EntryView;

    open spec fn deep_view(&self) -> EntryView {
        self.view()
    }
}

impl View for Lease {
    type V = LeaseView;

    open spec fn view(&self) -> LeaseView {
        LeaseView { id: self.job_id@, expiry: self.expiry as int }
    }
}

impl DeepView for Lease {
    type V = LeaseView;

    open spec fn deep_view(&self) -> LeaseView {
        self.view()
    }
}

impl View for JobRecord {
    type V = RecordView;

    open spec fn view(&self) -> RecordView {
        RecordView {
            id: self.job_id@,
            end: match self.end {
                Some(t) => Some(t as int),
                None => None,
            },
            success: self.success,
        }
    }
}

impl DeepView for JobRecord {
    type V = RecordView;

    open spec fn deep_view(&self) -> RecordView {
        self.view()
    }
}

impl View for QueueStore {
    type V = StoreView;

    open spec fn view(&self) -> StoreView {
        StoreView {
            scheduled: self.scheduled.deep_view(),
            pending: self.pending.deep_view(),
            leases: self.leases.deep_view(),
            records: self.records.deep_view(),
            done: self.done.deep_view(),
        }
    }
}

/// The job ids of a sequence of scheduled entries, in the same order.
pub open spec fn ids_of(s: Seq<EntryView>) -> Seq<Seq<char>> {
    s.map_values(|e: EntryView| e.id)
}

/// The scheduled set is ordered by non-decreasing due time.
pub open spec fn sorted_by_due(s: Seq<EntryView>) -> bool {
    forall|i: int, j: int| 0 <= i <= j < s.len() ==> s[i].due <= s[j].due
}

/// No job id occurs twice among scheduled entries.
pub open spec fn entry_ids_unique(s: Seq<EntryView>) -> bool {
    forall|i: int, j: int| 0 <= i < j < s.len() ==> s[i].id != s[j].id
}

/// No job id occurs twice among leases.
pub open spec fn lease_ids_unique(s: Seq<LeaseView>) -> bool {
    forall|i: int, j: int| 0 <= i < j < s.len() ==> s[i].id != s[j].id
}

/// No job id occurs twice among records.
pub open spec fn record_ids_unique(s: Seq<RecordView>) -> bool {
    forall|i: int, j: int| 0 <= i < j < s.len() ==> s[i].id != s[j].id
}

/// No job id occurs twice in a plain id list.
pub open spec fn ids_unique(s: Seq<Seq<char>>) -> bool {
    forall|i: int, j: int| 0 <= i < j < s.len() ==> s[i] != s[j]
}

/// Whether some scheduled entry carries this job id.
pub open spec fn scheduled_has(v: StoreView, id: Seq<char>) -> bool {
    exists|i: int| 0 <= i < v.scheduled.len() && v.scheduled[i].id == id
}

/// Whether some lease carries this job id.
pub open spec fn leased(v: StoreView, id: Seq<char>) -> bool {
    exists|i: int| 0 <= i < v.leases.len() && v.leases[i].id == id
}

/// Whether the job id occupies any of the four queue stages.
pub open spec fn occupied(v: StoreView, id: Seq<char>) -> bool {
    scheduled_has(v, id) || v.pending.contains(id) || leased(v, id) || v.done.contains(id)
}

/// A job id sits in at most one of the four stages at a time.
pub open spec fn stages_disjoint(v: StoreView) -> bool {
    &&& forall|i: int, j: int|
        0 <= i < v.scheduled.len() && 0 <= j < v.pending.len() ==> v.scheduled[i].id != v.pending[j]
    &&& forall|i: int, j: int|
        0 <= i < v.scheduled.len() && 0 <= j < v.leases.len() ==> v.scheduled[i].id != v.leases[j].id
    &&& forall|i: int, j: int|
        0 <= i < v.scheduled.len() && 0 <= j < v.done.len() ==> v.scheduled[i].id != v.done[j]
    &&& forall|i: int, j: int|
        0 <= i < v.pending.len() && 0 <= j < v.leases.len() ==> v.pending[i] != v.leases[j].id
    &&& forall|i: int, j: int|
        0 <= i < v.pending.len() && 0 <= j < v.done.len() ==> v.pending[i] != v.done[j]
    &&& forall|i: int, j: int|
        0 <= i < v.leases.len() && 0 <= j < v.done.len() ==> v.leases[i].id != v.done[j]
}

/// Well-formedness of the store: ordering, per-stage uniqueness and
/// cross-stage disjointness. These are the structural facts the remote
/// store's data types enforce on their own (a sorted set cannot hold a
/// member twice), together with the system invariant that a job occupies at
/// most one stage at a time.
pub open spec fn store_wf(v: StoreView) -> bool {
    &&& sorted_by_due(v.scheduled)
    &&& entry_ids_unique(v.scheduled)
    &&& ids_unique(v.pending)
    &&& lease_ids_unique(v.leases)
    &&& record_ids_unique(v.records)
    &&& ids_unique(v.done)
    &&& stages_disjoint(v)
}

/// Length of the maximal prefix of `s` whose entries are due at or before `t`.
///
/// On a sorted sequence this is the number of due entries; it is also the
/// position at which an entry with due time `t` is inserted to keep the
/// order stable.
pub open spec fn due_prefix_len(s: Seq<EntryView>, t: int) -> int
    decreases s.len(),
{
    if s.len() == 0 {
        0
    } else if s[0].due <= t {
        1 + due_prefix_len(s.skip(1), t)
    } else {
        0
    }
}

/// Index of the first lease with this job id, or the length if none.
pub open spec fn lease_index(s: Seq<LeaseView>, id: Seq<char>) -> int
    decreases s.len(),
{
    if s.len() == 0 {
        0
    } else if s[0].id == id {
        0
    } else {
        1 + lease_index(s.skip(1), id)
    }
}

/// Index of the first record with this job id, or the length if none.
pub open spec fn record_index(s: Seq<RecordView>, id: Seq<char>) -> int
    decreases s.len(),
{
    if s.len() == 0 {
        0
    } else if s[0].id == id {
        0
    } else {
        1 + record_index(s.skip(1), id)
    }
}

/// What `due_prefix_len` finds: a prefix of due entries, ended either by the
/// end of the sequence or by the first entry that is not yet due.
pub proof fn lemma_due_prefix_len_props(s: Seq<EntryView>, t: int)
    ensures
        0 <= due_prefix_len(s, t) <= s.len(),
        forall|i: int| 0 <= i < due_prefix_len(s, t) ==> s[i].due <= t,
        due_prefix_len(s, t) < s.len() ==> s[due_prefix_len(s, t)].due > t,
    decreases s.len(),
{
    if s.len() > 0 && s[0].due <= t {
        lemma_due_prefix_len_props(s.skip(1), t);
        assert forall|i: int| 0 <= i < due_prefix_len(s, t) implies s[i].due <= t by {
            if i > 0 {
                assert(s.skip(1)[i - 1] == s[i]);
            }
        }
        if due_prefix_len(s, t) < s.len() {
            assert(s.skip(1)[due_prefix_len(s, t) - 1] == s[due_prefix_len(s, t)]);
        }
    }
}

/// What `lease_index` finds: the first matching lease, with nothing matching
/// before it; the length when no lease matches.
pub proof fn lemma_lease_index_props(s: Seq<LeaseView>, id: Seq<char>)
    ensures
        0 <= lease_index(s, id) <= s.len(),
        forall|i: int| 0 <= i < lease_index(s, id) ==> s[i].id != id,
        lease_index(s, id) < s.len() ==> s[lease_index(s, id)].id == id,
    decreases s.len(),
{
    if s.len() > 0 && s[0].id != id {
        lemma_lease_index_props(s.skip(1), id);
        assert forall|i: int| 0 <= i < lease_index(s, id) implies s[i].id != id by {
            if i > 0 {
                assert(s.skip(1)[i - 1] == s[i]);
            }
        }
        if lease_index(s, id) < s.len() {
            assert(s.skip(1)[lease_index(s, id) - 1] == s[lease_index(s, id)]);
        }
    }
}

/// What `record_index` finds, in the same shape as `lemma_lease_index_props`.
pub proof fn lemma_record_index_props(s: Seq<RecordView>, id: Seq<char>)
    ensures
        0 <= record_index(s, id) <= s.len(),
        forall|i: int| 0 <= i < record_index(s, id) ==> s[i].id != id,
        record_index(s, id) < s.len() ==> s[record_index(s, id)].id == id,
    decreases s.len(),
{
    if s.len() > 0 && s[0].id != id {
        lemma_record_index_props(s.skip(1), id);
        assert forall|i: int| 0 <= i < record_index(s, id) implies s[i].id != id by {
            if i > 0 {
                assert(s.skip(1)[i - 1] == s[i]);
            }
        }
        if record_index(s, id) < s.len() {
            assert(s.skip(1)[record_index(s, id) - 1] == s[record_index(s, id)]);
        }
    }
}

/// The empty store.
pub open spec fn empty_store() -> StoreView {
    StoreView {
        scheduled: Seq::empty(),
        pending: Seq::empty(),
        leases: Seq::empty(),
        records: Seq::empty(),
        done: Seq::empty(),
    }
}

impl QueueStore {
    /// Well-formedness of the executable store.
    pub open spec fn wf(&self) -> bool {
        store_wf(self@)
    }

    /// A store with nothing in it.
    pub fn new() -> (s: Self)
        ensures
            s@ == empty_store(),
            s.wf(),
    {
        let s = QueueStore {
            scheduled: Vec::new(),
            pending: Vec::new(),
            leases: Vec::new(),
            records: Vec::new(),
            done: Vec::new(),
        };
        proof {
            assert(s@ =~= empty_store());
        }
        s
    }

    /// Index of the first lease holding this job id, or the lease count if
    /// no lease holds it.
    pub fn find_lease(&self, job_id: &String) -> (i: usize)
        ensures
            i as int == lease_index(self@.leases, job_id@),
    {
        let n = self.leases.len();
        let mut i: usize = 0;
        proof {
            assert(self@.leases.skip(0) =~= self@.leases);
        }
        while i < n
            invariant
                0 <= i <= n,
                n == self.leases.len(),
                lease_index(self@.leases, job_id@) == i + lease_index(
                    self@.leases.skip(i as int),
                    job_id@,
                ),
                forall|j: int| 0 <= j < i ==> self@.leases[j].id != job_id@,
            decreases n - i,
        {
            let ghost rest = self@.leases.skip(i as int);
            assert(rest[0] == self@.leases[i as int]);
            if self.leases[i].job_id == *job_id {
                proof {
                    lemma_lease_index_props(rest, job_id@);
                }
                return i;
            }
            proof {
                assert(rest.skip(1) =~= self@.leases.skip(i + 1));
            }
            i = i + 1;
        }
        proof {
            assert(self@.leases.skip(n as int) =~= Seq::<LeaseView>::empty());
        }
        i
    }

    /// The position at which an entry due at `t` is inserted to keep the
    /// scheduled set ordered: just after every entry due at or before `t`.
    pub fn due_position(&self, t: i64) -> (i: usize)
        ensures
            i as int == due_prefix_len(self@.scheduled, t as int),
    {
        let n = self.scheduled.len();
        let mut i: usize = 0;
        proof {
            assert(self@.scheduled.skip(0) =~= self@.scheduled);
        }
        while i < n && self.scheduled[i].due <= t
            invariant
                0 <= i <= n,
                n == self.scheduled.len(),
                due_prefix_len(self@.scheduled, t as int) == i + due_prefix_len(
                    self@.scheduled.skip(i as int),
                    t as int,
                ),
            decreases n - i,
        {
            let ghost rest = self@.scheduled.skip(i as int);
            proof {
                assert(rest[0] == self@.scheduled[i as int]);
                assert(rest.skip(1) =~= self@.scheduled.skip(i + 1));
            }
            i = i + 1;
        }
        proof {
            if i < n {
                assert(self@.scheduled.skip(i as int)[0] == self@.scheduled[i as int]);
            } else {
                assert(self@.scheduled.skip(n as int) =~= Seq::<EntryView>::empty());
            }
        }
        i
    }

    /// Schedule a new job for future execution. The entry is inserted so
    /// that the scheduled set stays ordered by due time, after every entry
    /// already due at or before the same instant.
    pub fn schedule(&mut self, job_id: String, due: i64)
        requires
            old(self).wf(),
            !occupied(old(self)@, job_id@),
        ensures
            final(self)@ == schedule_model(old(self)@, job_id@, due as int),
            final(self).wf(),
    {
        let ghost v0 = self@;
        let ghost sv = self.scheduled@;
        let k = self.due_position(due);
        proof {
            lemma_due_prefix_len_props(v0.scheduled, due as int);
        }
        let ghost idv = job_id@;
        let entry = ScheduledEntry { job_id, due };
        let ghost ev = entry@;
        self.scheduled.insert(k, entry);
        proof {
            assert(self.scheduled.deep_view() =~= v0.scheduled.insert(k as int, ev)) by {
                assert forall|j: int|
                    0 <= j < self.scheduled.deep_view().len() implies self.scheduled.deep_view()[j]
                    == v0.scheduled.insert(k as int, ev)[j] by {
                    v0.scheduled.insert_ensures(k as int, ev);
                    sv.insert_ensures(k as int, entry);
                    if j < k {
                        assert(self.scheduled@[j] == sv[j]);
                    } else if j == k {
                        assert(self.scheduled@[j] == entry);
                    } else {
                        assert(self.scheduled@[j] == sv[j - 1]);
                    }
                }
            }
            lemma_schedule_preserves_wf(v0, idv, due as int);
            assert(self@ =~= schedule_model(v0, idv, due as int));
        }
    }

    /// Enqueue a job directly at the back of the pending list, skipping the
    /// scheduled stage.
    pub fn enqueue(&mut self, job_id: String)
        requires
            old(self).wf(),
            !occupied(old(self)@, job_id@),
        ensures
            final(self)@ == (StoreView {
                pending: old(self)@.pending.push(job_id@),
                ..old(self)@
            }),
            final(self).wf(),
    {
        let ghost v0 = self@;
        let ghost idv = job_id@;
        self.pending.push(job_id);
        proof {
            assert(self.pending.deep_view() =~= v0.pending.push(idv));
            assert(self@ =~= StoreView { pending: v0.pending.push(idv), ..v0 });
            assert(forall|j: int| 0 <= j < v0.pending.len() ==> v0.pending[j] != idv);
        }
    }

    /// Claim the job at the front of the pending list, granting a lease
    /// with the given expiry; the expiry becomes the worker's fencing
    /// token. Returns the claimed job id, or nothing when the pending list
    /// is empty.
    pub fn claim_next(&mut self, lease_expiry: i64) -> (r: Option<String>)
        requires
            old(self).wf(),
        ensures
            final(self)@ == claim_model(old(self)@, lease_expiry as int),
            (r is Some) <==> old(self)@.pending.len() > 0,
            (r is Some) ==> r.unwrap()@ == old(self)@.pending[0],
            final(self).wf(),
    {
        let ghost v0 = self@;
        if self.pending.len() == 0 {
            proof {
                assert(self@ =~= claim_model(v0, lease_expiry as int));
            }
            return None;
        }
        let ghost pv = self.pending@;
        let id = self.pending.remove(0);
        let ghost idv = id@;
        self.leases.push(Lease { job_id: id.clone(), expiry: lease_expiry });
        proof {
            assert(idv == v0.pending[0]);
            assert(self.pending.deep_view() =~= v0.pending.skip(1)) by {
                assert forall|j: int|
                    0 <= j < self.pending.deep_view().len() implies self.pending.deep_view()[j]
                    == v0.pending.skip(1)[j] by {
                    assert(self.pending@[j] == pv[j + 1]);
                }
            }
            assert(self.leases.deep_view() =~= v0.leases.push(
                LeaseView { id: idv, expiry: lease_expiry as int },
            ));
            assert(self@ =~= claim_model(v0, lease_expiry as int));
            lemma_claim_preserves_wf(v0, lease_expiry as int);
        }
        Some(id)
    }
}

/// The store after scheduling a fresh job: the entry joins the scheduled
/// set at its due-time position, everything else is untouched.
pub open spec fn schedule_model(v: StoreView, id: Seq<char>, due: int) -> StoreView {
    StoreView {
        scheduled: v.scheduled.insert(
            due_prefix_len(v.scheduled, due),
            EntryView { id: id, due: due },
        ),
        ..v
    }
}

/// The store after claiming the front pending job under a lease with the
/// given expiry; unchanged when nothing is pending.
pub open spec fn claim_model(v: StoreView, expiry: int) -> StoreView {
    if v.pending.len() == 0 {
        v
    } else {
        StoreView {
            pending: v.pending.skip(1),
            leases: v.leases.push(LeaseView { id: v.pending[0], expiry: expiry }),
            ..v
        }
    }
}

/// Scheduling a fresh job preserves the store invariant: the scheduled set
/// stays sorted and duplicate-free, and the new id collides with no stage.
pub proof fn lemma_schedule_preserves_wf(v: StoreView, id: Seq<char>, due: int)
    requires
        store_wf(v),
        !occupied(v, id),
    ensures
        store_wf(schedule_model(v, id, due)),
{
    let k = due_prefix_len(v.scheduled, due);
    let e = EntryView { id: id, due: due };
    let s1 = v.scheduled.insert(k, e);
    lemma_due_prefix_len_props(v.scheduled, due);
    v.scheduled.insert_ensures(k, e);
    assert(forall|j: int| 0 <= j < v.scheduled.len() ==> v.scheduled[j].id != id);
    assert forall|a: int, b: int| 0 <= a <= b < s1.len() implies s1[a].due <= s1[b].due by {
        if a < k {
            assert(s1[a] == v.scheduled[a]);
            assert(v.scheduled[a].due <= due);
        }
        if b > k {
            assert(s1[b] == v.scheduled[b - 1]);
            assert(v.scheduled[b - 1].due > due || v.scheduled[b - 1].due >= v.scheduled[k].due);
        }
        if a > k && b > k {
            assert(v.scheduled[a - 1].due <= v.scheduled[b - 1].due);
        }
        if k < v.scheduled.len() {
            assert(v.scheduled[k].due > due);
        }
    }
    assert(entry_ids_unique(s1)) by {
        assert forall|a: int, b: int| 0 <= a < b < s1.len() implies s1[a].id != s1[b].id by {
            if a != k && b != k {
                let av = if a < k {
                    a
                } else {
                    a - 1
                };
                let bv = if b < k {
                    b
                } else {
                    b - 1
                };
                assert(s1[a] == v.scheduled[av]);
                assert(s1[b] == v.scheduled[bv]);
            }
        }
    }
    assert(stages_disjoint(schedule_model(v, id, due))) by {
        assert forall|a: int, j: int|
            0 <= a < s1.len() && 0 <= j < v.pending.len() implies s1[a].id != v.pending[j] by {
            if a != k {
                let av = if a < k {
                    a
                } else {
                    a - 1
                };
                assert(s1[a] == v.scheduled[av]);
            }
        }
        assert forall|a: int, j: int|
            0 <= a < s1.len() && 0 <= j < v.leases.len() implies s1[a].id != v.leases[j].id by {
            if a != k {
                let av = if a < k {
                    a
                } else {
                    a - 1
                };
                assert(s1[a] == v.scheduled[av]);
            }
        }
        assert forall|a: int, j: int|
            0 <= a < s1.len() && 0 <= j < v.done.len() implies s1[a].id != v.done[j] by {
            if a != k {
                let av = if a < k {
                    a
                } else {
                    a - 1
                };
                assert(s1[a] == v.scheduled[av]);
            }
        }
    }
}

/// Claiming preserves the store invariant: the claimed id leaves the
/// pending list as it enters the lease set, so the stages stay disjoint.
pub proof fn lemma_claim_preserves_wf(v: StoreView, expiry: int)
    requires
        store_wf(v),
    ensures
        store_wf(claim_model(v, expiry)),
{
    if v.pending.len() > 0 {
        let id = v.pending[0];
        let v1 = claim_model(v, expiry);
        assert(forall|j: int| 0 <= j < v1.pending.len() ==> v1.pending[j] == v.pending[j + 1]);
        assert(forall|j: int| 0 <= j < v.leases.len() ==> v1.leases[j] == v.leases[j]);
        assert(v1.leases[v.leases.len() as int].id == id);
        assert(lease_ids_unique(v1.leases));
        assert(stages_disjoint(v1));
    }
}

} // verus!
