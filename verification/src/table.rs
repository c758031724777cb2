//! A `jobs` table in memory, on which the queue's statements can be carried out.
//!
//! The queue keeps its rules in the statements that it sends to PostgreSQL. Each method of
//! [`JobTable`] does to rows held in memory what one of the [statements](crate::statement) says. That
//! the two agree rests on reading the SQL: nothing is proved of PostgreSQL. What the server brings in
//! by itself (the time, the ids that it generates, the form in which it stores a payload, the rows
//! that other sessions have locked) is handed in. PostgreSQL promises no order of the rows that an
//! `UPDATE` returns; here they come in one.

use crate::job::{job_views, Job, JobStatus, JobView, LeaseKey};
use crate::rows::{
    acked, before, claimable, clock_fits, created, exhausted, holds_lease, leased, nacked,
    timed_out, touched, MICROS,
};
use serde_json::Value;
use vstd::prelude::*;

verus! {

/// The rows of a `jobs` table, in the order in which they were inserted.
#[derive(Debug)]
pub struct JobTable {
    jobs: Vec<Job>,
}

impl View for JobTable {
    type V = Seq<JobView>;

    closed spec fn view(&self) -> Seq<JobView> {
        job_views(self.jobs@)
    }
}

// ---------------------------
// The state of a table
// ---------------------------

/// Whether a row is as the table's constraints and the statements leave it: it is leased exactly
/// while it is in progress.
pub open spec fn row_wf(row: JobView) -> bool {
    &&& row.attempt_count >= 0
    &&& row.lease_timeout_seconds > 0
    &&& row.lease_id is Some <==> row.status == JobStatus::InProgress
    &&& row.leased_by is Some <==> row.status == JobStatus::InProgress
}

/// Whether no two rows share an id.
pub open spec fn ids_distinct(rows: Seq<JobView>) -> bool {
    forall|i: int, j: int| 0 <= i < j < rows.len() ==> #[trigger] rows[i].id != #[trigger] rows[j].id
}

/// Whether no two rows share an idempotency key.
pub open spec fn keys_distinct(rows: Seq<JobView>) -> bool {
    forall|i: int, j: int|
        0 <= i < j < rows.len() ==> #[trigger] rows[i].idempotency_key
            != #[trigger] rows[j].idempotency_key
}

/// Whether no two rows are leased under the same lease id.
pub open spec fn leases_distinct(rows: Seq<JobView>) -> bool {
    forall|i: int, j: int|
        0 <= i < j < rows.len() && #[trigger] rows[i].lease_id is Some
            && #[trigger] rows[j].lease_id is Some ==> rows[i].lease_id != rows[j].lease_id
}

/// Whether the rows are those of a table that only the queue's statements have written.
pub open spec fn table_wf(rows: Seq<JobView>) -> bool {
    &&& ids_distinct(rows)
    &&& keys_distinct(rows)
    &&& forall|i: int| 0 <= i < rows.len() ==> row_wf(#[trigger] rows[i])
}

/// Whether some row has the idempotency key.
pub open spec fn has_key(rows: Seq<JobView>, key: Seq<char>) -> bool {
    exists|i: int| 0 <= i < rows.len() && #[trigger] rows[i].idempotency_key == key
}

/// Whether some row has the id.
pub open spec fn has_id(rows: Seq<JobView>, id: i64) -> bool {
    exists|i: int| 0 <= i < rows.len() && #[trigger] rows[i].id == id
}

/// Whether `lease` is current: some row is leased under it.
pub open spec fn lease_current(rows: Seq<JobView>, lease: LeaseKey) -> bool {
    exists|i: int| 0 <= i < rows.len() && #[trigger] holds_lease(rows[i], lease)
}

/// The row that is leased under `lease`, where there is one.
pub open spec fn leased_row(rows: Seq<JobView>, lease: LeaseKey) -> JobView {
    rows[choose|i: int| 0 <= i < rows.len() && #[trigger] holds_lease(rows[i], lease)]
}

/// Whether one of `leases` is the current lease on the row.
pub open spec fn holds_any(row: JobView, leases: Seq<LeaseKey>) -> bool {
    exists|k: int| 0 <= k < leases.len() && #[trigger] holds_lease(row, leases[k])
}

// ---------------------------
// What a statement leaves behind
// ---------------------------

/// The rows after the holder of `lease` has completed its job.
pub open spec fn after_ack(rows: Seq<JobView>, lease: LeaseKey, now: int) -> Seq<JobView> {
    rows.map_values(
        |row: JobView|
            if holds_lease(row, lease) {
                acked(row, now)
            } else {
                row
            },
    )
}

/// The rows after the holders of `leases` have completed their jobs.
pub open spec fn after_ack_batch(rows: Seq<JobView>, leases: Seq<LeaseKey>, now: int) -> Seq<
    JobView,
> {
    rows.map_values(
        |row: JobView|
            if holds_any(row, leases) {
                acked(row, now)
            } else {
                row
            },
    )
}

/// The rows that the holders of `leases` complete, as they are afterwards.
pub open spec fn acked_rows(rows: Seq<JobView>, leases: Seq<LeaseKey>, now: int) -> Seq<JobView> {
    rows.filter(|row: JobView| holds_any(row, leases)).map_values(|row: JobView| acked(row, now))
}

/// The rows after the holder of `lease` has given its job up.
pub open spec fn after_nack(
    rows: Seq<JobView>,
    lease: LeaseKey,
    max_attempts: int,
    delay: int,
    now: int,
) -> Seq<JobView> {
    rows.map_values(
        |row: JobView|
            if holds_lease(row, lease) {
                nacked(row, max_attempts, delay, now)
            } else {
                row
            },
    )
}

/// The rows after the holder of `lease` has extended it.
pub open spec fn after_touch(rows: Seq<JobView>, lease: LeaseKey, seconds: int, now: int) -> Seq<
    JobView,
> {
    rows.map_values(
        |row: JobView|
            if holds_lease(row, lease) {
                touched(row, seconds, now)
            } else {
                row
            },
    )
}

/// What a worker asks for when it dequeues, and when.
pub struct Claim {
    /// The ids of the rows that other sessions have locked.
    pub locked: Seq<i64>,
    pub max_attempts: int,
    pub batch_size: int,
    pub now: int,
}

/// Whether the row at `i` may be handed out.
pub open spec fn is_candidate(rows: Seq<JobView>, claim: Claim, i: int) -> bool {
    &&& 0 <= i < rows.len()
    &&& claimable(rows[i], claim.max_attempts, claim.now)
    &&& !claim.locked.contains(rows[i].id)
}

/// Whether `picks` are the positions of the rows that are handed out, in order: the first
/// `batch_size` of those that may be.
pub open spec fn is_next_batch(rows: Seq<JobView>, claim: Claim, picks: Seq<int>) -> bool {
    &&& picks.len() <= claim.batch_size
    &&& forall|k: int| 0 <= k < picks.len() ==> is_candidate(rows, claim, #[trigger] picks[k])
    &&& forall|k: int, l: int|
        0 <= k < l < picks.len() ==> before(rows[#[trigger] picks[k]], rows[#[trigger] picks[l]])
    &&& forall|i: int|
        #![trigger is_candidate(rows, claim, i)]
        is_candidate(rows, claim, i) && !picks.contains(i) ==> {
            &&& picks.len() == claim.batch_size
            &&& forall|k: int| 0 <= k < picks.len() ==> before(rows[#[trigger] picks[k]], rows[i])
        }
}

/// The positions of the rows that are handed out, in order.
pub open spec fn next_batch(rows: Seq<JobView>, claim: Claim) -> Seq<int> {
    choose|picks: Seq<int>| is_next_batch(rows, claim, picks)
}

/// The rows after `worker` has dequeued: those handed out are leased to it, and those whose last
/// attempt has timed out have failed.
pub open spec fn after_dequeue(
    rows: Seq<JobView>,
    claim: Claim,
    worker: Seq<char>,
    lease_ids: Seq<u128>,
) -> Seq<JobView> {
    let picks = next_batch(rows, claim);
    Seq::new(
        rows.len(),
        |i: int|
            if picks.contains(i) {
                leased(rows[i], worker, lease_ids[picks.index_of(i)], claim.now)
            } else if exhausted(rows[i], claim.max_attempts, claim.now) && !claim.locked.contains(
                rows[i].id,
            ) {
                timed_out(rows[i], claim.now)
            } else {
                rows[i]
            },
    )
}

/// The rows that `worker` is handed when it dequeues.
pub open spec fn dequeued_rows(
    rows: Seq<JobView>,
    claim: Claim,
    worker: Seq<char>,
    lease_ids: Seq<u128>,
) -> Seq<JobView> {
    let picks = next_batch(rows, claim);
    Seq::new(picks.len(), |k: int| leased(rows[picks[k]], worker, lease_ids[k], claim.now))
}

/// Whether every lease that a dequeue starts ends at a time that fits.
pub open spec fn leases_fit(rows: Seq<JobView>, claim: Claim) -> bool {
    forall|k: int|
        0 <= k < next_batch(rows, claim).len() ==> claim.now + MICROS
            * rows[#[trigger] next_batch(rows, claim)[k]].lease_timeout_seconds <= i64::MAX
}

// ---------------------------
// Lemmas on the next batch
// ---------------------------

/// Positions in a list as integers.
spec fn positions(picks: Seq<usize>) -> Seq<int> {
    picks.map_values(|pick: usize| pick as int)
}

/// A full batch grows by the first row that it leaves out.
pub(crate) proof fn lemma_next_batch_push(rows: Seq<JobView>, claim: Claim, picks: Seq<int>, i: int)
    requires
        is_next_batch(rows, claim, picks),
        picks.len() == claim.batch_size,
        is_candidate(rows, claim, i),
        !picks.contains(i),
        forall|j: int| #[trigger]
            is_candidate(rows, claim, j) && !picks.contains(j) && j != i ==> before(
                rows[i],
                rows[j],
            ),
    ensures
        is_next_batch(
            rows,
            Claim { batch_size: claim.batch_size + 1, ..claim },
            picks.push(i),
        ),
{
    let more = Claim { batch_size: claim.batch_size + 1, ..claim };
    let grown = picks.push(i);
    assert forall|k: int| 0 <= k < grown.len() implies is_candidate(
        rows,
        more,
        #[trigger] grown[k],
    ) by {
        assert(is_candidate(rows, claim, grown[k]));
    }
    assert forall|j: int|
        #![trigger is_candidate(rows, more, j)]
        is_candidate(rows, more, j) && !grown.contains(j) implies {
        &&& grown.len() == more.batch_size
        &&& forall|k: int| 0 <= k < grown.len() ==> before(rows[#[trigger] grown[k]], rows[j])
    } by {
        assert(is_candidate(rows, claim, j));
        assert(j != i) by {
            assert(grown[picks.len() as int] == i);
        }
        assert(!picks.contains(j)) by {
            if picks.contains(j) {
                let k = choose|k: int| 0 <= k < picks.len() && picks[k] == j;
                assert(grown[k] == j);
            }
        }
    }
}

/// Two descriptions of the next batch describe the same batch.
proof fn lemma_next_batch_prefix(
    rows: Seq<JobView>,
    claim: Claim,
    p: Seq<int>,
    q: Seq<int>,
    n: int,
)
    requires
        ids_distinct(rows),
        is_next_batch(rows, claim, p),
        is_next_batch(rows, claim, q),
        0 <= n <= p.len(),
    ensures
        n <= q.len(),
        forall|k: int| 0 <= k < n ==> p[k] == q[k],
    decreases n,
{
    if n > 0 {
        let k = n - 1;
        lemma_next_batch_prefix(rows, claim, p, q, k);
        assert(is_candidate(rows, claim, p[k]));
        if q.len() <= k {
            assert(!q.contains(p[k])) by {
                if q.contains(p[k]) {
                    let l = choose|l: int| 0 <= l < q.len() && q[l] == p[k];
                    assert(p[l] == q[l]);
                    assert(before(rows[p[l]], rows[p[k]]));
                }
            }
        } else {
            assert(is_candidate(rows, claim, q[k]));
            if p[k] != q[k] {
                assert(before(rows[q[k]], rows[p[k]])) by {
                    if q.contains(p[k]) {
                        let l = choose|l: int| 0 <= l < q.len() && q[l] == p[k];
                        if l < k {
                            assert(p[l] == q[l]);
                            assert(before(rows[p[l]], rows[p[k]]));
                        }
                    }
                }
                assert(before(rows[p[k]], rows[q[k]])) by {
                    if p.contains(q[k]) {
                        let l = choose|l: int| 0 <= l < p.len() && p[l] == q[k];
                        if l < k {
                            assert(p[l] == q[l]);
                            assert(before(rows[q[l]], rows[q[k]]));
                        }
                    }
                }
            }
        }
    }
}

/// The next batch is the only one that fits its description.
pub(crate) proof fn lemma_next_batch_unique(rows: Seq<JobView>, claim: Claim, picks: Seq<int>)
    requires
        ids_distinct(rows),
        is_next_batch(rows, claim, picks),
    ensures
        next_batch(rows, claim) == picks,
{
    let q = next_batch(rows, claim);
    assert(is_next_batch(rows, claim, q));
    lemma_next_batch_prefix(rows, claim, picks, q, picks.len() as int);
    lemma_next_batch_prefix(rows, claim, q, picks, q.len() as int);
    assert(q =~= picks);
}

/// A batch holds no position twice.
pub(crate) proof fn lemma_batch_distinct(rows: Seq<JobView>, claim: Claim, picks: Seq<int>)
    requires
        is_next_batch(rows, claim, picks),
    ensures
        picks.no_duplicates(),
        forall|k: int| 0 <= k < picks.len() ==> picks.index_of(#[trigger] picks[k]) == k,
{
    assert forall|k: int, l: int| 0 <= k < picks.len() && 0 <= l < picks.len() && k != l implies
        picks[k] != picks[l] by {
        if k < l {
            assert(before(rows[picks[k]], rows[picks[l]]));
        } else {
            assert(before(rows[picks[l]], rows[picks[k]]));
        }
    }
    assert forall|k: int| 0 <= k < picks.len() implies picks.index_of(#[trigger] picks[k]) == k by {
        assert(picks.contains(picks[k]));
    }
}

/// A batch holds no more positions than there are rows.
pub(crate) proof fn lemma_picks_fit(rows: Seq<JobView>, claim: Claim, picks: Seq<int>)
    requires
        is_next_batch(rows, claim, picks),
    ensures
        picks.len() <= rows.len(),
{
    lemma_batch_distinct(rows, claim, picks);
    picks.unique_seq_to_set();
    let all = vstd::set_lib::set_int_range(0, rows.len() as int);
    vstd::set_lib::lemma_int_range(0, rows.len() as int);
    assert(picks.to_set().subset_of(all)) by {
        assert forall|i: int| picks.to_set().contains(i) implies all.contains(i) by {
            let k = choose|k: int| 0 <= k < picks.len() && picks[k] == i;
            assert(is_candidate(rows, claim, picks[k]));
        }
    }
    vstd::set_lib::lemma_len_subset(picks.to_set(), all);
}

/// Dequeuing keeps the table well-formed.
pub(crate) proof fn lemma_dequeue_keeps_wf(
    rows: Seq<JobView>,
    claim: Claim,
    worker: Seq<char>,
    lease_ids: Seq<u128>,
)
    requires
        table_wf(rows),
    ensures
        table_wf(after_dequeue(rows, claim, worker, lease_ids)),
{
    let after = after_dequeue(rows, claim, worker, lease_ids);
    assert forall|i: int| 0 <= i < after.len() implies row_wf(#[trigger] after[i]) by {
        assert(row_wf(rows[i]));
    }
    assert forall|i: int, j: int| 0 <= i < j < after.len() implies #[trigger] after[i].id
        != #[trigger] after[j].id by {
        assert(rows[i].id != rows[j].id);
    }
    assert forall|i: int, j: int| 0 <= i < j < after.len() implies #[trigger] after[i].idempotency_key
        != #[trigger] after[j].idempotency_key by {
        assert(rows[i].idempotency_key != rows[j].idempotency_key);
    }
}

// ---------------------------
// The statements
// ---------------------------

fn list_has(list: &Vec<i64>, id: i64) -> (found: bool)
    ensures
        found == list@.contains(id),
{
    let mut i: usize = 0;
    while i < list.len()
        invariant
            i <= list.len(),
            forall|j: int| 0 <= j < i ==> list@[j] != id,
        decreases list.len() - i,
    {
        if list[i] == id {
            assert(list@[i as int] == id);
            return true;
        }
        i += 1;
    }
    false
}

fn picks_have(picks: &Vec<usize>, n: usize) -> (found: bool)
    ensures
        found == positions(picks@).contains(n as int),
{
    let mut i: usize = 0;
    while i < picks.len()
        invariant
            i <= picks.len(),
            forall|j: int| 0 <= j < i ==> positions(picks@)[j] != n,
        decreases picks.len() - i,
    {
        if picks[i] == n {
            assert(positions(picks@)[i as int] == n);
            return true;
        }
        i += 1;
    }
    false
}

impl JobTable {
    /// A table without rows.
    pub fn new() -> (table: JobTable)
        ensures
            table@ == Seq::<JobView>::empty(),
            table_wf(table@),
    {
        let table = JobTable { jobs: Vec::new() };
        assert(table@ =~= Seq::<JobView>::empty());
        table
    }

    /// The rows, in the order in which they were inserted.
    pub fn rows(&self) -> (rows: &Vec<Job>)
        ensures
            job_views(rows@) == self@,
    {
        &self.jobs
    }

    /// Carries out [`ENQUEUE_SQL`](crate::statement::ENQUEUE_SQL): inserts a pending job, unless there
    /// is one with the same idempotency key.
    ///
    /// `stored` is the payload as the server's `jsonb` column gives it back, which may be another
    /// document than the one that was sent: it keeps numbers as `numeric`, so that `1e16` comes back
    /// as `10000000000000000` and `-0.0` as `0.0`. `id` is the one that the server generates for the
    /// row, `now` its time.
    pub fn enqueue(
        &mut self,
        idempotency_key: &str,
        stored: Value,
        lease_timeout_seconds: i32,
        visible_at: Option<i64>,
        id: i64,
        now: i64,
    ) -> (inserted: Option<Job>)
        requires
            table_wf(old(self)@),
            lease_timeout_seconds > 0,
            !has_id(old(self)@, id),
        ensures
            table_wf(final(self)@),
            inserted is None <==> has_key(old(self)@, idempotency_key@),
            inserted is None ==> final(self)@ == old(self)@,
            inserted matches Some(job) ==> {
                &&& job@ == created(
                    id,
                    idempotency_key@,
                    stored,
                    lease_timeout_seconds as int,
                    match visible_at {
                        Some(at) => Some(at as int),
                        None => None,
                    },
                    now as int,
                )
                &&& final(self)@ == old(self)@.push(job@)
            },
    {
        let key: String = idempotency_key.to_owned();
        let mut i: usize = 0;
        while i < self.jobs.len()
            invariant
                i <= self.jobs.len(),
                table_wf(self@),
                self@ == old(self)@,
                key@ == idempotency_key@,
                forall|j: int| 0 <= j < i ==> #[trigger] self@[j].idempotency_key != key@,
            decreases self.jobs.len() - i,
        {
            if self.jobs[i].idempotency_key == key {
                assert(self@[i as int].idempotency_key == key@);
                return None;
            }
            i += 1;
        }
        let job = Job {
            id,
            idempotency_key: key,
            status: JobStatus::Pending,
            payload: stored,
            visible_at: match visible_at {
                Some(at) => at,
                None => now,
            },
            attempt_count: 0,
            lease_timeout_seconds,
            lease_id: None,
            leased_by: None,
            created_at: now,
            updated_at: now,
        };
        let row: Job = job.clone();
        self.jobs.push(row);
        assert(self@ =~= old(self)@.push(job@));
        Some(job)
    }

    /// The position of the row that is leased under `lease`.
    fn find(&self, lease: LeaseKey) -> (found: Option<usize>)
        requires
            ids_distinct(self@),
        ensures
            found is None <==> !lease_current(self@, lease),
            found matches Some(i) ==> {
                &&& 0 <= i < self@.len()
                &&& holds_lease(self@[i as int], lease)
                &&& self@[i as int] == leased_row(self@, lease)
                &&& forall|j: int|
                    0 <= j < self@.len() && #[trigger] holds_lease(self@[j], lease) ==> j == i
            },
    {
        let mut i: usize = 0;
        while i < self.jobs.len()
            invariant
                i <= self.jobs.len(),
                ids_distinct(self@),
                forall|j: int| 0 <= j < i ==> !#[trigger] holds_lease(self@[j], lease),
            decreases self.jobs.len() - i,
        {
            if self.jobs[i].holds(lease) {
                assert(holds_lease(self@[i as int], lease));
                assert forall|j: int|
                    0 <= j < self@.len() && #[trigger] holds_lease(self@[j], lease) implies j
                    == i by {
                    assert(self@[j].id == self@[i as int].id);
                }
                return Some(i);
            }
            i += 1;
        }
        None
    }

    /// Carries out [`ACK_SQL`](crate::statement::ACK_SQL): marks the job that is leased under `lease`
    /// as done.
    pub fn ack(&mut self, lease: LeaseKey, now: i64) -> (updated: Option<Job>)
        requires
            table_wf(old(self)@),
        ensures
            table_wf(final(self)@),
            final(self)@ == after_ack(old(self)@, lease, now as int),
            updated is Some <==> lease_current(old(self)@, lease),
            updated matches Some(job) ==> job@ == acked(leased_row(old(self)@, lease), now as int),
    {
        match self.find(lease) {
            Some(i) => {
                let row: Job = self.jobs[i].complete(now);
                let reply: Job = row.clone();
                self.jobs.set(i, row);
                assert(self@ =~= after_ack(old(self)@, lease, now as int));
                Some(reply)
            },
            None => {
                assert(self@ =~= after_ack(old(self)@, lease, now as int));
                None
            },
        }
    }

    /// Carries out [`NACK_SQL`](crate::statement::NACK_SQL): gives up the job that is leased under
    /// `lease`. It is pending again after `delay_micros`, or failed where `max_attempts` has been
    /// reached.
    pub fn nack(
        &mut self,
        lease: LeaseKey,
        max_attempts: i32,
        delay_micros: u64,
        now: i64,
    ) -> (updated: Option<Job>)
        requires
            table_wf(old(self)@),
            lease_current(old(self)@, lease) && leased_row(old(self)@, lease).attempt_count
                < max_attempts ==> now + delay_micros <= i64::MAX,
        ensures
            table_wf(final(self)@),
            final(self)@ == after_nack(
                old(self)@,
                lease,
                max_attempts as int,
                delay_micros as int,
                now as int,
            ),
            updated is Some <==> lease_current(old(self)@, lease),
            updated matches Some(job) ==> job@ == nacked(
                leased_row(old(self)@, lease),
                max_attempts as int,
                delay_micros as int,
                now as int,
            ),
    {
        let ghost after = after_nack(
            old(self)@,
            lease,
            max_attempts as int,
            delay_micros as int,
            now as int,
        );
        match self.find(lease) {
            Some(i) => {
                let row: Job = self.jobs[i].give_up(max_attempts, delay_micros, now);
                let reply: Job = row.clone();
                self.jobs.set(i, row);
                assert(self@ =~= after);
                Some(reply)
            },
            None => {
                assert(self@ =~= after);
                None
            },
        }
    }

    /// Carries out [`TOUCH_SQL`](crate::statement::TOUCH_SQL): extends `lease` to `lease_seconds` from
    /// now.
    pub fn touch(&mut self, lease: LeaseKey, lease_seconds: i32, now: i64) -> (updated: Option<Job>)
        requires
            table_wf(old(self)@),
            lease_seconds > 0,
            lease_current(old(self)@, lease) ==> now + MICROS * lease_seconds <= i64::MAX,
        ensures
            table_wf(final(self)@),
            final(self)@ == after_touch(old(self)@, lease, lease_seconds as int, now as int),
            updated is Some <==> lease_current(old(self)@, lease),
            updated matches Some(job) ==> job@ == touched(
                leased_row(old(self)@, lease),
                lease_seconds as int,
                now as int,
            ),
    {
        let ghost after = after_touch(old(self)@, lease, lease_seconds as int, now as int);
        match self.find(lease) {
            Some(i) => {
                let row: Job = self.jobs[i].extend(lease_seconds, now);
                let reply: Job = row.clone();
                self.jobs.set(i, row);
                assert(self@ =~= after);
                Some(reply)
            },
            None => {
                assert(self@ =~= after);
                None
            },
        }
    }

    /// Carries out [`ACK_BATCH_SQL`](crate::statement::ACK_BATCH_SQL): marks the jobs that are leased
    /// under one of `leases` as done. The updated rows come in the order of the table, each once.
    pub fn ack_batch(&mut self, leases: &Vec<LeaseKey>, now: i64) -> (updated: Vec<Job>)
        requires
            table_wf(old(self)@),
        ensures
            table_wf(final(self)@),
            final(self)@ == after_ack_batch(old(self)@, leases@, now as int),
            job_views(updated@) == acked_rows(old(self)@, leases@, now as int),
    {
        let ghost rows = self@;
        let ghost held = |row: JobView| holds_any(row, leases@);
        let ghost done = |row: JobView| acked(row, now as int);
        let mut updated: Vec<Job> = Vec::new();
        let mut i: usize = 0;
        assert(job_views(updated@) =~= rows.take(0).filter(held).map_values(done));
        while i < self.jobs.len()
            invariant
                i <= self.jobs.len(),
                table_wf(rows),
                self@.len() == rows.len(),
                held == (|row: JobView| holds_any(row, leases@)),
                done == (|row: JobView| acked(row, now as int)),
                forall|j: int|
                    0 <= j < i ==> #[trigger] self@[j] == if holds_any(rows[j], leases@) {
                        acked(rows[j], now as int)
                    } else {
                        rows[j]
                    },
                forall|j: int| i <= j < rows.len() ==> #[trigger] self@[j] == rows[j],
                job_views(updated@) == rows.take(i as int).filter(held).map_values(done),
            decreases self.jobs.len() - i,
        {
            let ghost so_far = rows.take(i as int).filter(held);
            let ghost prior = self@;
            assert(self@[i as int] == rows[i as int]);
            assert(rows.take(i + 1) =~= rows.take(i as int).push(rows[i as int]));
            proof {
                lemma_filter_push(rows.take(i as int), held, rows[i as int]);
            }
            if any_holds(&self.jobs[i], leases) {
                let row: Job = self.jobs[i].complete(now);
                let ghost before = updated@;
                updated.push(row.clone());
                self.jobs.set(i, row);
                assert(self@ =~= prior.update(i as int, acked(rows[i as int], now as int)));
                assert(job_views(updated@) =~= job_views(before).push(acked(rows[i as int], now as int)));
                assert(so_far.push(rows[i as int]).map_values(done) =~= so_far.map_values(done).push(
                    done(rows[i as int]),
                ));
            }
            i += 1;
        }
        assert(rows.take(rows.len() as int) =~= rows);
        assert(self@ =~= after_ack_batch(rows, leases@, now as int));
        updated
    }

    /// The position of the first row that may be handed out and is not among `picks`.
    fn earliest(
        &self,
        picks: &Vec<usize>,
        max_attempts: i32,
        locked: &Vec<i64>,
        now: i64,
        Ghost(claim): Ghost<Claim>,
    ) -> (found: Option<usize>)
        requires
            ids_distinct(self@),
            claim.locked == locked@,
            claim.max_attempts == max_attempts,
            claim.now == now,
        ensures
            found is None ==> forall|j: int| #[trigger]
                is_candidate(self@, claim, j) ==> positions(picks@).contains(j),
            found matches Some(i) ==> {
                &&& is_candidate(self@, claim, i as int)
                &&& !positions(picks@).contains(i as int)
                &&& forall|j: int| #[trigger]
                    is_candidate(self@, claim, j) && !positions(picks@).contains(j) && j != i
                        ==> before(self@[i as int], self@[j])
            },
    {
        let mut found: Option<usize> = None;
        let mut n: usize = 0;
        while n < self.jobs.len()
            invariant
                n <= self.jobs.len(),
                ids_distinct(self@),
                claim.locked == locked@,
                claim.max_attempts == max_attempts,
                claim.now == now,
                found is None ==> forall|j: int|
                    j < n && #[trigger] is_candidate(self@, claim, j) ==> positions(
                        picks@,
                    ).contains(j),
                found matches Some(i) ==> {
                    &&& i < n
                    &&& is_candidate(self@, claim, i as int)
                    &&& !positions(picks@).contains(i as int)
                    &&& forall|j: int|
                        j < n && #[trigger] is_candidate(self@, claim, j) && !positions(
                            picks@,
                        ).contains(j) && j != i ==> before(self@[i as int], self@[j])
                },
            decreases self.jobs.len() - n,
        {
            assert(self.jobs@[n as int]@ == self@[n as int]);
            let open: bool = self.jobs[n].is_claimable(max_attempts, now) && !list_has(
                locked,
                self.jobs[n].id,
            );
            assert(open == is_candidate(self@, claim, n as int));
            if open && !picks_have(picks, n) {
                match found {
                    Some(i) => {
                        assert(self.jobs@[i as int]@ == self@[i as int]);
                        assert(self@[i as int].id != self@[n as int].id);
                        if self.jobs[n].is_before(&self.jobs[i]) {
                            found = Some(n);
                        }
                    },
                    None => {
                        found = Some(n);
                    },
                }
            }
            n += 1;
        }
        found
    }

    /// The positions of the rows that are handed out, in order.
    fn pick(
        &self,
        batch_size: i64,
        max_attempts: i32,
        locked: &Vec<i64>,
        now: i64,
        Ghost(claim): Ghost<Claim>,
    ) -> (picks: Vec<usize>)
        requires
            ids_distinct(self@),
            batch_size > 0,
            claim.locked == locked@,
            claim.batch_size == batch_size,
            claim.max_attempts == max_attempts,
            claim.now == now,
        ensures
            positions(picks@) == next_batch(self@, claim),
            is_next_batch(self@, claim, positions(picks@)),
    {
        let mut picks: Vec<usize> = Vec::new();
        let mut left: i64 = batch_size;
        while left > 0
            invariant
                0 <= left <= batch_size,
                ids_distinct(self@),
                claim.locked == locked@,
                claim.batch_size == batch_size,
                claim.max_attempts == max_attempts,
                claim.now == now,
                picks@.len() == batch_size - left,
                is_next_batch(
                    self@,
                    Claim { batch_size: batch_size - left, ..claim },
                    positions(picks@),
                ),
            decreases left,
        {
            let ghost part = Claim { batch_size: batch_size - left, ..claim };
            match self.earliest(&picks, max_attempts, locked, now, Ghost(part)) {
                Some(i) => {
                    let ghost prior = positions(picks@);
                    picks.push(i);
                    left -= 1;
                    proof {
                        assert(positions(picks@) =~= prior.push(i as int));
                        lemma_next_batch_push(self@, part, prior, i as int);
                    }
                },
                None => {
                    proof {
                        assert forall|j: int| #[trigger]
                            is_candidate(self@, claim, j) implies positions(picks@).contains(j) by {
                            assert(is_candidate(self@, part, j));
                        }
                        lemma_next_batch_unique(self@, claim, positions(picks@));
                    }
                    return picks;
                },
            }
        }
        proof {
            lemma_next_batch_unique(self@, claim, positions(picks@));
        }
        picks
    }

    /// Carries out [`DEQUEUE_SQL`](crate::statement::DEQUEUE_SQL): leases up to `batch_size` jobs to
    /// `worker_id`, and fails the jobs whose last allowed attempt has timed out. Rows that other
    /// sessions have locked are passed over. The leased rows come in the order in which they were
    /// picked.
    ///
    /// `lease_ids` are the ids that the server generates for the leases, in the order of the picks.
    pub fn dequeue(
        &mut self,
        worker_id: &str,
        batch_size: i64,
        max_attempts: i32,
        lease_ids: &Vec<u128>,
        locked: &Vec<i64>,
        now: i64,
    ) -> (handed_out: Vec<Job>)
        requires
            table_wf(old(self)@),
            batch_size > 0,
            max_attempts > 0,
            lease_ids@.len() >= old(self)@.len() || lease_ids@.len() >= batch_size,
            clock_fits(now as int) || leases_fit(
                old(self)@,
                Claim {
                    locked: locked@,
                    max_attempts: max_attempts as int,
                    batch_size: batch_size as int,
                    now: now as int,
                },
            ),
        ensures
            table_wf(final(self)@),
            ({
                let claim = Claim {
                    locked: locked@,
                    max_attempts: max_attempts as int,
                    batch_size: batch_size as int,
                    now: now as int,
                };
                &&& final(self)@ == after_dequeue(old(self)@, claim, worker_id@, lease_ids@)
                &&& job_views(handed_out@) == dequeued_rows(
                    old(self)@,
                    claim,
                    worker_id@,
                    lease_ids@,
                )
            }),
    {
        let ghost claim = Claim {
            locked: locked@,
            max_attempts: max_attempts as int,
            batch_size: batch_size as int,
            now: now as int,
        };
        let ghost rows = self@;
        let picks: Vec<usize> = self.pick(batch_size, max_attempts, locked, now, Ghost(claim));
        let ghost chosen = positions(picks@);
        proof {
            lemma_picks_fit(rows, claim, chosen);
        }
        self.reap(max_attempts, locked, now, Ghost(claim));
        let ghost reaped = self@;
        let mut handed_out: Vec<Job> = Vec::new();
        let mut k: usize = 0;
        while k < picks.len()
            invariant
                k <= picks.len(),
                handed_out.len() == k,
                picks.len() <= lease_ids.len(),
                table_wf(rows),
                clock_fits(now as int) || leases_fit(rows, claim),
                chosen == next_batch(rows, claim),
                claim.now == now,
                claim.max_attempts == max_attempts,
                chosen == positions(picks@),
                is_next_batch(rows, claim, chosen),
                reaped.len() == rows.len(),
                self@.len() == rows.len(),
                forall|i: int|
                    is_candidate(rows, claim, i) ==> #[trigger] reaped[i] == rows[i],
                forall|l: int|
                    k <= l < chosen.len() ==> self@[#[trigger] chosen[l]] == rows[chosen[l]],
                forall|l: int|
                    0 <= l < k ==> self@[#[trigger] chosen[l]] == leased(
                        rows[chosen[l]],
                        worker_id@,
                        lease_ids@[l],
                        now as int,
                    ),
                forall|i: int|
                    0 <= i < rows.len() && !chosen.contains(i) ==> #[trigger] self@[i]
                        == reaped[i],
                forall|l: int|
                    0 <= l < k ==> (#[trigger] handed_out@[l])@ == leased(
                        rows[chosen[l]],
                        worker_id@,
                        lease_ids@[l],
                        now as int,
                    ),
            decreases picks.len() - k,
        {
            let i: usize = picks[k];
            assert(chosen[k as int] == i);
            assert(is_candidate(rows, claim, i as int));
            assert(self.jobs@[i as int]@ == self@[i as int]);
            assert(row_wf(rows[i as int]));
            assert(now + MICROS * self.jobs@[i as int].lease_timeout_seconds <= i64::MAX) by {
                assert(self.jobs@[i as int].lease_timeout_seconds
                    == rows[next_batch(rows, claim)[k as int]].lease_timeout_seconds);
            }
            let row: Job = self.jobs[i].lease(worker_id, lease_ids[k], now);
            let ghost prior = self@;
            let ghost lent = row@;
            handed_out.push(row.clone());
            self.jobs.set(i, row);
            proof {
                assert(self@ =~= prior.update(i as int, lent));
                assert forall|l: int| 0 <= l < chosen.len() && l != k implies #[trigger] chosen[l]
                    != i by {
                    if l < k {
                        assert(before(rows[chosen[l]], rows[chosen[k as int]]));
                    } else {
                        assert(before(rows[chosen[k as int]], rows[chosen[l]]));
                    }
                }
            }
            k += 1;
        }
        proof {
            lemma_batch_distinct(rows, claim, chosen);
            assert forall|i: int| 0 <= i < rows.len() implies self@[i] == after_dequeue(
                rows,
                claim,
                worker_id@,
                lease_ids@,
            )[i] by {
                if chosen.contains(i) {
                    let l = chosen.index_of(i);
                    assert(chosen[l] == i);
                }
            }
            assert(self@ =~= after_dequeue(rows, claim, worker_id@, lease_ids@));
            assert(job_views(handed_out@) =~= dequeued_rows(rows, claim, worker_id@, lease_ids@));
            lemma_dequeue_keeps_wf(rows, claim, worker_id@, lease_ids@);
        }
        handed_out
    }

    /// Fails the jobs whose last allowed attempt has timed out, but for those that are locked.
    fn reap(
        &mut self,
        max_attempts: i32,
        locked: &Vec<i64>,
        now: i64,
        Ghost(claim): Ghost<Claim>,
    )
        requires
            claim.locked == locked@,
            claim.max_attempts == max_attempts,
            claim.now == now,
        ensures
            final(self)@ == old(self)@.map_values(
                |row: JobView|
                    if exhausted(row, claim.max_attempts, claim.now) && !claim.locked.contains(
                        row.id,
                    ) {
                        timed_out(row, claim.now)
                    } else {
                        row
                    },
            ),
    {
        let ghost rows = self@;
        let ghost reaped = rows.map_values(
            |row: JobView|
                if exhausted(row, claim.max_attempts, claim.now) && !claim.locked.contains(
                    row.id,
                ) {
                    timed_out(row, claim.now)
                } else {
                    row
                },
        );
        let mut n: usize = 0;
        while n < self.jobs.len()
            invariant
                n <= self.jobs.len(),
                claim.locked == locked@,
                claim.max_attempts == max_attempts,
                claim.now == now,
                self@.len() == rows.len(),
                reaped == rows.map_values(
                    |row: JobView|
                        if exhausted(row, claim.max_attempts, claim.now) && !claim.locked.contains(
                            row.id,
                        ) {
                            timed_out(row, claim.now)
                        } else {
                            row
                        },
                ),
                forall|j: int| 0 <= j < n ==> #[trigger] self@[j] == reaped[j],
                forall|j: int| n <= j < rows.len() ==> #[trigger] self@[j] == rows[j],
            decreases self.jobs.len() - n,
        {
            assert(self.jobs@[n as int]@ == self@[n as int]);
            if self.jobs[n].is_exhausted(max_attempts, now) && !list_has(locked, self.jobs[n].id) {
                let row: Job = self.jobs[n].time_out(now);
                let ghost prior = self@;
                let ghost failed = row@;
                self.jobs.set(n, row);
                assert(self@ =~= prior.update(n as int, failed));
            }
            n += 1;
        }
        assert(self@ =~= reaped);
    }
}

fn any_holds(job: &Job, leases: &Vec<LeaseKey>) -> (held: bool)
    ensures
        held == holds_any(job@, leases@),
{
    let mut i: usize = 0;
    while i < leases.len()
        invariant
            i <= leases.len(),
            forall|j: int| 0 <= j < i ==> !#[trigger] holds_lease(job@, leases@[j]),
        decreases leases.len() - i,
    {
        if job.holds(leases[i]) {
            return true;
        }
        i += 1;
    }
    false
}

/// Filtering goes element by element.
pub(crate) proof fn lemma_filter_push<T>(s: Seq<T>, pred: spec_fn(T) -> bool, x: T)
    ensures
        s.push(x).filter(pred) == if pred(x) {
            s.filter(pred).push(x)
        } else {
            s.filter(pred)
        },
{
    reveal(Seq::filter);
    assert(s.push(x).drop_last() =~= s);
}

} // verus!
