//! The job registry and its lifecycle state machine.
//!
//! A `JobTracker` owns every job the agent has admitted.  Each job moves
//! along `Pending -> Running -> Completed -> Stopped -> Finished` (with the
//! shortcuts `Running -> Stopped` for timeouts and shutdown); every other
//! move is rejected.  Entering `Completed`, `Stopped` or `Finished` stamps
//! the matching timestamp exactly once.  Times are milliseconds supplied by
//! the caller; progress is tracked in thousandths of completion.

use crate::job::{Job, JobModel};
use vstd::string::StringSliceAdditionalSpecFns;
use vstd::prelude::*;

verus! {

/// Lifecycle states of a tracked job.
#[derive(Debug, Clone, Copy, PartialEq, Eq, Structural)]
pub enum JobStatus {
    Pending,
    Running,
    Completed,
    Stopped,
    Finished,
}

/// Progress is measured in thousandths of completion, so full completion is
/// this value.
pub const PROGRESS_SCALE: u32 = 1000;

/// ASCII upper-casing of a single byte.
pub open spec fn spec_upper_byte(b: u8) -> u8 {
    if 97 <= b && b <= 122 {
        (b - 32) as u8
    } else {
        b
    }
}

/// ASCII upper-casing of a byte string.
pub open spec fn spec_upper_bytes(s: Seq<u8>) -> Seq<u8> {
    s.map_values(|b: u8| spec_upper_byte(b))
}

/// The status named by a byte string, compared case-insensitively; `None`
/// for anything that names no status.
pub open spec fn spec_parse_status(s: Seq<u8>) -> Option<JobStatus> {
    let u = spec_upper_bytes(s);
    if u == "PENDING".spec_bytes() {
        Some(JobStatus::Pending)
    } else if u == "RUNNING".spec_bytes() {
        Some(JobStatus::Running)
    } else if u == "COMPLETED".spec_bytes() {
        Some(JobStatus::Completed)
    } else if u == "STOPPED".spec_bytes() {
        Some(JobStatus::Stopped)
    } else if u == "FINISHED".spec_bytes() {
        Some(JobStatus::Finished)
    } else {
        None
    }
}

fn to_upper_byte(b: u8) -> (r: u8)
    ensures
        r == spec_upper_byte(b),
{
    if b >= 97 && b <= 122 {
        b - 32
    } else {
        b
    }
}

/// Whether upper-casing `s` yields exactly the bytes of `upper`.
fn eq_upper(s: &str, upper: &str) -> (r: bool)
    ensures
        r == (spec_upper_bytes(s.spec_bytes()) == upper.spec_bytes()),
{
    let sb = s.as_bytes();
    let ub = upper.as_bytes();
    if sb.len() != ub.len() {
        proof {
            assert(spec_upper_bytes(sb@).len() == sb@.len());
        }
        return false;
    }
    let n = sb.len();
    let mut i: usize = 0;
    while i < n
        invariant
            n == sb@.len() == ub@.len(),
            i <= n,
            sb@ == s.spec_bytes(),
            ub@ == upper.spec_bytes(),
            forall|k: int| 0 <= k < i ==> spec_upper_byte(sb@[k]) == ub@[k],
        decreases n - i,
    {
        if to_upper_byte(sb[i]) != ub[i] {
            proof {
                assert(spec_upper_bytes(sb@)[i as int] != ub@[i as int]);
            }
            return false;
        }
        i = i + 1;
    }
    proof {
        assert(spec_upper_bytes(sb@) =~= ub@);
    }
    true
}

/// Parses a status name case-insensitively, as named in the agent's HTTP
/// headers (`PENDING`, `running`, ...).
pub fn parse_status(s: &str) -> (r: Option<JobStatus>)
    ensures
        r == spec_parse_status(s.spec_bytes()),
{
    if eq_upper(s, "PENDING") {
        Some(JobStatus::Pending)
    } else if eq_upper(s, "RUNNING") {
        Some(JobStatus::Running)
    } else if eq_upper(s, "COMPLETED") {
        Some(JobStatus::Completed)
    } else if eq_upper(s, "STOPPED") {
        Some(JobStatus::Stopped)
    } else if eq_upper(s, "FINISHED") {
        Some(JobStatus::Finished)
    } else {
        None
    }
}

/// The error a failed status parse reports.
#[derive(Debug, Clone, Copy, PartialEq, Eq, Structural)]
pub struct ParseJobStatusError;

impl core::str::FromStr for JobStatus {
    type Err = ParseJobStatusError;

    fn from_str(s: &str) -> Result<JobStatus, ParseJobStatusError> {
        match parse_status(s) {
            Some(status) => Ok(status),
            None => Err(ParseJobStatusError),
        }
    }
}

/// The moves the state machine allows.  A repeated status is tolerated as a
/// no-op edge; every other move follows the lifecycle diagram.
pub open spec fn spec_can_transition(from: JobStatus, to: JobStatus) -> bool {
    ||| from == to
    ||| (from is Pending && to is Running)
    ||| (from is Running && to is Completed)
    ||| (from is Running && to is Stopped)
    ||| (from is Completed && to is Stopped)
    ||| (from is Stopped && to is Finished)
}

/// Whether the state machine allows moving `from -> to`.
pub fn can_transition(from: JobStatus, to: JobStatus) -> (r: bool)
    ensures
        r == spec_can_transition(from, to),
{
    if from == to {
        true
    } else {
        match (from, to) {
            (JobStatus::Pending, JobStatus::Running) => true,
            (JobStatus::Running, JobStatus::Completed) => true,
            (JobStatus::Running, JobStatus::Stopped) => true,
            (JobStatus::Completed, JobStatus::Stopped) => true,
            (JobStatus::Stopped, JobStatus::Finished) => true,
            _ => false,
        }
    }
}

/// Why the tracker refused a command.
#[derive(Debug, Clone, Copy, PartialEq, Eq, Structural)]
pub enum TrackerError {
    /// No job with the given id is in the registry.
    UnknownJob,
    /// The state machine does not allow the requested move.
    IllegalTransition { from: JobStatus, to: JobStatus },
}

/// Mathematical image of one tracked job.
#[verifier::ext_equal]
pub ghost struct TrackedJobModel {
    pub job: JobModel,
    pub status: JobStatus,
    pub progress: u32,
    pub start_time: u64,
    pub completed_time: Option<u64>,
    pub stopped_time: Option<u64>,
    pub finished_time: Option<u64>,
}

/// A job together with its lifecycle state.
pub struct TrackedJob {
    job: Job,
    status: JobStatus,
    progress: u32,
    start_time: u64,
    completed_time: Option<u64>,
    stopped_time: Option<u64>,
    finished_time: Option<u64>,
}

impl View for TrackedJob {
    type V = TrackedJobModel;

    closed spec fn view(&self) -> TrackedJobModel {
        TrackedJobModel {
            job: self.job@,
            status: self.status,
            progress: self.progress,
            start_time: self.start_time,
            completed_time: self.completed_time,
            stopped_time: self.stopped_time,
            finished_time: self.finished_time,
        }
    }
}

impl TrackedJob {
    /// The job this entry tracks.
    pub fn inner(&self) -> (r: &Job)
        ensures
            r@ == self@.job,
    {
        &self.job
    }

    /// The entry's current lifecycle state.
    pub fn status(&self) -> (r: &JobStatus)
        ensures
            *r == self@.status,
    {
        &self.status
    }

    /// Progress in thousandths of completion.
    pub fn progress(&self) -> (r: u32)
        ensures
            r == self@.progress,
    {
        self.progress
    }

    /// When the job was admitted, in caller-supplied milliseconds.
    pub fn start_time(&self) -> (r: u64)
        ensures
            r == self@.start_time,
    {
        self.start_time
    }

    /// When the job first entered `Completed`, if it ever has.
    pub fn completed_time(&self) -> (r: Option<u64>)
        ensures
            r == self@.completed_time,
    {
        self.completed_time
    }

    /// When the job first entered `Stopped`, if it ever has.
    pub fn stopped_time(&self) -> (r: Option<u64>)
        ensures
            r == self@.stopped_time,
    {
        self.stopped_time
    }

    /// When the job first entered `Finished`, if it ever has.
    pub fn finished_time(&self) -> (r: Option<u64>)
        ensures
            r == self@.finished_time,
    {
        self.finished_time
    }

    /// A value copy of this entry.
    pub fn snapshot(&self) -> (r: TrackedJob)
        ensures
            r@ == self@,
    {
        TrackedJob {
            job: self.job.clone(),
            status: self.status,
            progress: self.progress,
            start_time: self.start_time,
            completed_time: self.completed_time,
            stopped_time: self.stopped_time,
            finished_time: self.finished_time,
        }
    }
}

/// The entry a fresh `Insert` creates.
pub open spec fn spec_new_tracked(job: JobModel, now: u64) -> TrackedJobModel {
    TrackedJobModel {
        job,
        status: JobStatus::Pending,
        progress: 0,
        start_time: now,
        completed_time: None,
        stopped_time: None,
        finished_time: None,
    }
}

/// The entry an accepted `UpdateStatus` leaves behind: the new status, the
/// new progress when one was supplied, and a first-entry stamp for each
/// terminal state.
pub open spec fn spec_updated_job(
    j: TrackedJobModel,
    status: JobStatus,
    progress: Option<u32>,
    now: u64,
) -> TrackedJobModel {
    TrackedJobModel {
        job: j.job,
        status,
        progress: if progress is Some {
            progress->0
        } else {
            j.progress
        },
        start_time: j.start_time,
        completed_time: if status is Completed && !(j.status is Completed) {
            Some(now)
        } else {
            j.completed_time
        },
        stopped_time: if status is Stopped && !(j.status is Stopped) {
            Some(now)
        } else {
            j.stopped_time
        },
        finished_time: if status is Finished && !(j.status is Finished) {
            Some(now)
        } else {
            j.finished_time
        },
    }
}

/// Index of the first entry with the given id, or -1 when none has it.
pub open spec fn spec_find_index(s: Seq<TrackedJobModel>, id: Seq<char>) -> int
    decreases s.len(),
{
    if s.len() == 0 {
        -1
    } else if s[0].job.id == id {
        0
    } else {
        let r = spec_find_index(s.drop_first(), id);
        if r == -1 {
            -1
        } else {
            r + 1
        }
    }
}

/// What `spec_find_index` means position by position.
pub proof fn lemma_find_index(s: Seq<TrackedJobModel>, id: Seq<char>)
    ensures
        spec_find_index(s, id) == -1 ==> forall|i: int|
            0 <= i < s.len() ==> s[i].job.id != id,
        spec_find_index(s, id) != -1 ==> {
            let k = spec_find_index(s, id);
            &&& 0 <= k < s.len()
            &&& s[k].job.id == id
            &&& forall|i: int| 0 <= i < k ==> s[i].job.id != id
        },
    decreases s.len(),
{
    if s.len() > 0 && s[0].job.id != id {
        let sub = s.drop_first();
        lemma_find_index(sub, id);
        let r = spec_find_index(sub, id);
        if r == -1 {
            assert(spec_find_index(s, id) == -1);
            assert forall|i: int| 0 <= i < s.len() implies s[i].job.id != id by {
                if i > 0 {
                    assert(sub[i - 1] == s[i]);
                    assert(sub[i - 1].job.id != id);
                }
            }
        } else {
            let k = spec_find_index(s, id);
            assert(k == r + 1);
            assert(s[k] == sub[r]);
            assert forall|i: int| 0 <= i < k implies s[i].job.id != id by {
                if i > 0 {
                    assert(sub[i - 1] == s[i]);
                    assert(sub[i - 1].job.id != id);
                }
            }
        }
    }
}

/// Validity of one registry entry: progress within scale, and each state
/// that requires a stamp carries one.
pub open spec fn job_model_wf(j: TrackedJobModel) -> bool {
    &&& j.progress <= PROGRESS_SCALE
    &&& j.status is Completed ==> j.completed_time is Some
    &&& j.status is Stopped ==> j.stopped_time is Some
    &&& j.status is Finished ==> (j.stopped_time is Some && j.finished_time is Some)
}

/// What `Insert` does to the registry: a duplicate id is dropped, a new id
/// appends a pending entry.
pub open spec fn spec_insert(s: Seq<TrackedJobModel>, job: JobModel, now: u64) -> Seq<
    TrackedJobModel,
> {
    if spec_find_index(s, job.id) >= 0 {
        s
    } else {
        s.push(spec_new_tracked(job, now))
    }
}

/// What `UpdateStatus` promises about the registry before and after the
/// call and about its result.
pub open spec fn update_transition(
    pre: Seq<TrackedJobModel>,
    post: Seq<TrackedJobModel>,
    id: Seq<char>,
    status: JobStatus,
    progress: Option<u32>,
    now: u64,
    r: Result<(), TrackerError>,
) -> bool {
    let k = spec_find_index(pre, id);
    if k == -1 {
        &&& r == Err::<(), TrackerError>(TrackerError::UnknownJob)
        &&& post == pre
    } else {
        let j = pre[k];
        if spec_can_transition(j.status, status) {
            &&& r is Ok
            &&& post == pre.update(k, spec_updated_job(j, status, progress, now))
        } else {
            &&& r == Err::<(), TrackerError>(
                TrackerError::IllegalTransition { from: j.status, to: status },
            )
            &&& post == pre
        }
    }
}

/// Ids of the entries with the given status, in registry order.
pub open spec fn spec_ids_with_status(s: Seq<TrackedJobModel>, status: JobStatus) -> Seq<
    Seq<char>,
>
    decreases s.len(),
{
    if s.len() == 0 {
        Seq::empty()
    } else {
        let rest = spec_ids_with_status(s.drop_last(), status);
        if s.last().status == status {
            rest.push(s.last().job.id)
        } else {
            rest
        }
    }
}

/// How many entries hold the given status.
pub open spec fn spec_count_with_status(s: Seq<TrackedJobModel>, status: JobStatus) -> nat
    decreases s.len(),
{
    if s.len() == 0 {
        0
    } else {
        spec_count_with_status(s.drop_last(), status) + if s.last().status == status {
            1nat
        } else {
            0nat
        }
    }
}

/// Whether a running entry has exceeded the completion timeout at `now`.
pub open spec fn spec_timed_out(j: TrackedJobModel, now: u64, timeout: u64) -> bool {
    &&& j.status is Running
    &&& now >= j.start_time
    &&& now - j.start_time > timeout
}

/// Whether a stopped entry has aged past the removal timeout at `now`.
pub open spec fn spec_stopped_and_expired(j: TrackedJobModel, now: u64, timeout: u64) -> bool {
    &&& j.status is Stopped
    &&& j.stopped_time is Some
    &&& now >= j.stopped_time->0
    &&& now - j.stopped_time->0 > timeout
}

/// Ids of the running entries that have timed out.
pub open spec fn spec_timed_out_ids(s: Seq<TrackedJobModel>, now: u64, timeout: u64) -> Seq<
    Seq<char>,
>
    decreases s.len(),
{
    if s.len() == 0 {
        Seq::empty()
    } else {
        let rest = spec_timed_out_ids(s.drop_last(), now, timeout);
        if spec_timed_out(s.last(), now, timeout) {
            rest.push(s.last().job.id)
        } else {
            rest
        }
    }
}

/// Ids of the stopped entries that have aged out.
pub open spec fn spec_stopped_and_expired_ids(
    s: Seq<TrackedJobModel>,
    now: u64,
    timeout: u64,
) -> Seq<Seq<char>>
    decreases s.len(),
{
    if s.len() == 0 {
        Seq::empty()
    } else {
        let rest = spec_stopped_and_expired_ids(s.drop_last(), now, timeout);
        if spec_stopped_and_expired(s.last(), now, timeout) {
            rest.push(s.last().job.id)
        } else {
            rest
        }
    }
}

/// The registry of every job the agent has admitted.
pub struct JobTracker {
    jobs: Vec<TrackedJob>,
}

impl View for JobTracker {
    type V = Seq<TrackedJobModel>;

    closed spec fn view(&self) -> Seq<TrackedJobModel> {
        self.jobs@.map_values(|j: TrackedJob| j@)
    }
}

impl JobTracker {
    /// Well-formedness: ids are unique and every entry is valid.
    pub open spec fn wf(&self) -> bool {
        &&& forall|i: int, k: int|
            0 <= i < k < self@.len() ==> self@[i].job.id != self@[k].job.id
        &&& forall|i: int| 0 <= i < self@.len() ==> job_model_wf(#[trigger] self@[i])
    }

    /// An empty registry.
    pub fn new() -> (r: JobTracker)
        ensures
            r@ == Seq::<TrackedJobModel>::empty(),
            r.wf(),
    {
        let t = JobTracker { jobs: Vec::new() };
        proof {
            assert(t@ =~= Seq::<TrackedJobModel>::empty());
        }
        t
    }

    /// Index of the entry with the given id, if any.
    #[verifier::loop_isolation(false)]
    fn find_index(&self, id: &String) -> (r: Option<usize>)
        ensures
            match r {
                Some(i) => 0 <= i < self@.len() && i == spec_find_index(self@, id@),
                None => spec_find_index(self@, id@) == -1,
            },
    {
        proof {
            lemma_find_index(self@, id@);
        }
        let n = self.jobs.len();
        let mut i: usize = 0;
        while i < n
            invariant
                i <= n,
                forall|k: int| 0 <= k < i ==> self@[k].job.id != id@,
            decreases n - i,
        {
            if self.jobs[i].job.id().eq(id) {
                proof {
                    let k = spec_find_index(self@, id@);
                    assert(k != -1);
                    assert(self@[i as int].job.id == id@);
                    if k < i as int {
                        assert(self@[k].job.id != id@);
                    }
                    if k > i as int {
                        assert(self@[i as int].job.id != id@);
                    }
                }
                return Some(i);
            }
            i = i + 1;
        }
        proof {
            let k = spec_find_index(self@, id@);
            if k != -1 {
                assert(self@[k].job.id != id@);
            }
        }
        None
    }

    /// Admits a job at `Pending` with progress zero and start time `now`.
    /// A second insert with an id already present is dropped.
    pub fn insert(&mut self, job: Job, now: u64)
        requires
            old(self).wf(),
        ensures
            final(self).wf(),
            final(self)@ == spec_insert(old(self)@, job@, now),
    {
        let ghost jm = job@;
        let present = self.find_index(job.id());
        match present {
            Some(_) => {},
            None => {
                let entry = TrackedJob {
                    job,
                    status: JobStatus::Pending,
                    progress: 0,
                    start_time: now,
                    completed_time: None,
                    stopped_time: None,
                    finished_time: None,
                };
                self.jobs.push(entry);
                proof {
                    lemma_find_index(old(self)@, jm.id);
                    assert(self@ =~= old(self)@.push(spec_new_tracked(jm, now)));
                    let s2 = self@;
                    assert forall|i: int, k: int|
                        0 <= i < k < s2.len() implies s2[i].job.id != s2[k].job.id by {
                        if k == s2.len() - 1 {
                            assert(old(self)@[i].job.id != jm.id);
                        } else {
                            assert(old(self)@[i].job.id != old(self)@[k].job.id);
                        }
                    }
                    assert forall|i: int| 0 <= i < s2.len() implies job_model_wf(
                        #[trigger] s2[i],
                    ) by {
                        if i < s2.len() - 1 {
                            assert(job_model_wf(old(self)@[i]));
                        }
                    }
                }
            },
        }
    }

    /// A value copy of the entry with the given id, if any.
    pub fn get_job(&self, id: &String) -> (r: Option<TrackedJob>)
        ensures
            match r {
                Some(j) => spec_find_index(self@, id@) >= 0 && j@ == self@[spec_find_index(
                    self@,
                    id@,
                )],
                None => spec_find_index(self@, id@) == -1,
            },
    {
        match self.find_index(id) {
            Some(i) => Some(self.jobs[i].snapshot()),
            None => None,
        }
    }

    /// Applies a status update to the entry with the given id: an unknown
    /// id or a move the state machine refuses changes nothing and reports
    /// why; an accepted move installs the new status, stamps a first entry
    /// into a terminal state with `now`, and updates progress when one is
    /// supplied.
    pub fn update_status(
        &mut self,
        id: &String,
        status: JobStatus,
        progress: Option<u32>,
        now: u64,
    ) -> (r: Result<(), TrackerError>)
        requires
            old(self).wf(),
            progress matches Some(p) ==> p <= PROGRESS_SCALE,
        ensures
            final(self).wf(),
            update_transition(old(self)@, final(self)@, id@, status, progress, now, r),
    {
        let idx = match self.find_index(id) {
            Some(i) => i,
            None => {
                return Err(TrackerError::UnknownJob);
            },
        };
        let current = self.jobs[idx].status;
        if !can_transition(current, status) {
            return Err(TrackerError::IllegalTransition { from: current, to: status });
        }
        let prior = &self.jobs[idx];
        let entry = TrackedJob {
            job: prior.job.clone(),
            status,
            progress: match progress {
                Some(p) => p,
                None => prior.progress,
            },
            start_time: prior.start_time,
            completed_time: if status == JobStatus::Completed && current != JobStatus::Completed {
                Some(now)
            } else {
                prior.completed_time
            },
            stopped_time: if status == JobStatus::Stopped && current != JobStatus::Stopped {
                Some(now)
            } else {
                prior.stopped_time
            },
            finished_time: if status == JobStatus::Finished && current != JobStatus::Finished {
                Some(now)
            } else {
                prior.finished_time
            },
        };
        let ghost k = idx as int;
        let ghost updated = spec_updated_job(old(self)@[k], status, progress, now);
        self.jobs.set(idx, entry);
        proof {
            assert(entry@ =~= updated);
            assert(self@ =~= old(self)@.update(k, updated));
            assert forall|i: int, j: int|
                0 <= i < j < self@.len() implies self@[i].job.id != self@[j].job.id by {
                assert(old(self)@[i].job.id != old(self)@[j].job.id);
                assert(self@[i].job.id == old(self)@[i].job.id);
                assert(self@[j].job.id == old(self)@[j].job.id);
            }
            assert forall|i: int| 0 <= i < self@.len() implies job_model_wf(
                #[trigger] self@[i],
            ) by {
                assert(job_model_wf(old(self)@[i]));
                if i == k {
                    assert(spec_can_transition(old(self)@[k].status, status));
                    assert(job_model_wf(updated));
                }
            }
        }
        Ok(())
    }

    /// Ids of the entries holding the given status, in registry order.
    fn get_job_ids_by_status(&self, status: JobStatus) -> (r: Vec<String>)
        ensures
            r@.map_values(|s: String| s@) == spec_ids_with_status(self@, status),
    {
        let n = self.jobs.len();
        let mut r: Vec<String> = Vec::new();
        let mut i: usize = 0;
        while i < n
            invariant
                i <= n,
                n == self.jobs.len(),
                r@.map_values(|s: String| s@) == spec_ids_with_status(
                    self@.take(i as int),
                    status,
                ),
            decreases n - i,
        {
            let ghost prefix = self@.take(i as int);
            let ghost next = self@.take(i + 1);
            proof {
                assert(next.drop_last() =~= prefix);
                assert(next.last() == self@[i as int]);
            }
            if self.jobs[i].status == status {
                let id = self.jobs[i].job.id().clone();
                r.push(id);
                proof {
                    assert(r@.map_values(|s: String| s@) =~= spec_ids_with_status(next, status));
                }
            } else {
                proof {
                    assert(spec_ids_with_status(next, status) == spec_ids_with_status(
                        prefix,
                        status,
                    ));
                }
            }
            i = i + 1;
        }
        proof {
            assert(self@.take(n as int) =~= self@);
        }
        r
    }

    /// Returns a `Vec<String>` containing the IDs of all completed jobs.
    pub fn get_completed_job_ids(&self) -> (r: Vec<String>)
        ensures
            r@.map_values(|s: String| s@) == spec_ids_with_status(self@, JobStatus::Completed),
    {
        self.get_job_ids_by_status(JobStatus::Completed)
    }

    /// Returns a `Vec<String>` containing the IDs of all running jobs.
    pub fn get_running_job_ids(&self) -> (r: Vec<String>)
        ensures
            r@.map_values(|s: String| s@) == spec_ids_with_status(self@, JobStatus::Running),
    {
        self.get_job_ids_by_status(JobStatus::Running)
    }

    /// Returns a `Vec<String>` containing the IDs of all stopped jobs.
    pub fn get_stopped_job_ids(&self) -> (r: Vec<String>)
        ensures
            r@.map_values(|s: String| s@) == spec_ids_with_status(self@, JobStatus::Stopped),
    {
        self.get_job_ids_by_status(JobStatus::Stopped)
    }

    /// Returns a `Vec<String>` containing the IDs of any running jobs which
    /// have been running at `now` for longer than `timeout` milliseconds.
    pub fn get_timed_out_job_ids(&self, now: u64, timeout: u64) -> (r: Vec<String>)
        ensures
            r@.map_values(|s: String| s@) == spec_timed_out_ids(self@, now, timeout),
    {
        let n = self.jobs.len();
        let mut r: Vec<String> = Vec::new();
        let mut i: usize = 0;
        while i < n
            invariant
                i <= n,
                n == self.jobs.len(),
                r@.map_values(|s: String| s@) == spec_timed_out_ids(
                    self@.take(i as int),
                    now,
                    timeout,
                ),
            decreases n - i,
        {
            let ghost prefix = self@.take(i as int);
            let ghost next = self@.take(i + 1);
            proof {
                assert(next.drop_last() =~= prefix);
                assert(next.last() == self@[i as int]);
            }
            let entry = &self.jobs[i];
            if entry.status == JobStatus::Running && now >= entry.start_time && now
                - entry.start_time > timeout {
                let id = entry.job.id().clone();
                r.push(id);
                proof {
                    assert(r@.map_values(|s: String| s@) =~= spec_timed_out_ids(
                        next,
                        now,
                        timeout,
                    ));
                }
            } else {
                proof {
                    assert(!spec_timed_out(self@[i as int], now, timeout));
                    assert(spec_timed_out_ids(next, now, timeout) == spec_timed_out_ids(
                        prefix,
                        now,
                        timeout,
                    ));
                }
            }
            i = i + 1;
        }
        proof {
            assert(self@.take(n as int) =~= self@);
        }
        r
    }

    /// Returns a `Vec<String>` containing the IDs of all stopped jobs which
    /// at `now` have been stopped for longer than `timeout` milliseconds.
    pub fn get_stopped_and_expired_job_ids(&self, now: u64, timeout: u64) -> (r: Vec<String>)
        requires
            self.wf(),
        ensures
            r@.map_values(|s: String| s@) == spec_stopped_and_expired_ids(self@, now, timeout),
    {
        let n = self.jobs.len();
        let mut r: Vec<String> = Vec::new();
        let mut i: usize = 0;
        while i < n
            invariant
                self.wf(),
                i <= n,
                n == self.jobs.len(),
                r@.map_values(|s: String| s@) == spec_stopped_and_expired_ids(
                    self@.take(i as int),
                    now,
                    timeout,
                ),
            decreases n - i,
        {
            let ghost prefix = self@.take(i as int);
            let ghost next = self@.take(i + 1);
            proof {
                assert(next.drop_last() =~= prefix);
                assert(next.last() == self@[i as int]);
            }
            let entry = &self.jobs[i];
            let expired = if entry.status == JobStatus::Stopped {
                proof {
                    assert(job_model_wf(self@[i as int]));
                }
                match entry.stopped_time {
                    Some(t) => now >= t && now - t > timeout,
                    None => false,
                }
            } else {
                false
            };
            if expired {
                let id = entry.job.id().clone();
                r.push(id);
                proof {
                    assert(spec_stopped_and_expired(self@[i as int], now, timeout));
                    assert(r@.map_values(|s: String| s@) =~= spec_stopped_and_expired_ids(
                        next,
                        now,
                        timeout,
                    ));
                }
            } else {
                proof {
                    assert(!spec_stopped_and_expired(self@[i as int], now, timeout));
                    assert(spec_stopped_and_expired_ids(next, now, timeout)
                        == spec_stopped_and_expired_ids(prefix, now, timeout));
                }
            }
            i = i + 1;
        }
        proof {
            assert(self@.take(n as int) =~= self@);
        }
        r
    }

    /// How many jobs are currently `Running`.
    pub fn count_running_jobs(&self) -> (r: usize)
        ensures
            r == spec_count_with_status(self@, JobStatus::Running),
    {
        let n = self.jobs.len();
        let mut count: usize = 0;
        let mut i: usize = 0;
        while i < n
            invariant
                i <= n,
                n == self.jobs.len(),
                count <= i,
                count == spec_count_with_status(self@.take(i as int), JobStatus::Running),
            decreases n - i,
        {
            let ghost prefix = self@.take(i as int);
            let ghost next = self@.take(i + 1);
            proof {
                assert(next.drop_last() =~= prefix);
                assert(next.last() == self@[i as int]);
            }
            if self.jobs[i].status == JobStatus::Running {
                count = count + 1;
            }
            i = i + 1;
        }
        proof {
            assert(self@.take(n as int) =~= self@);
        }
        count
    }
}

/// Once an entry has reached `Finished`, no update moves it elsewhere: the
/// registry after any `UpdateStatus` still shows it `Finished`.
pub proof fn lemma_finished_is_terminal(
    pre: Seq<TrackedJobModel>,
    post: Seq<TrackedJobModel>,
    id: Seq<char>,
    status: JobStatus,
    progress: Option<u32>,
    now: u64,
    r: Result<(), TrackerError>,
)
    requires
        update_transition(pre, post, id, status, progress, now, r),
    ensures
        post.len() == pre.len(),
        forall|i: int|
            0 <= i < pre.len() && pre[i].status is Finished ==> post[i].status is Finished,
{
    lemma_find_index(pre, id);
    let k = spec_find_index(pre, id);
    if k != -1 && spec_can_transition(pre[k].status, status) {
        assert forall|i: int|
            0 <= i < pre.len() && pre[i].status is Finished implies post[i].status
            is Finished by {
            if i == k {
                assert(status is Finished);
            } else {
                assert(post[i] == pre[i]);
            }
        }
    }
}

/// An update the state machine refuses leaves the registry unchanged and
/// reports the illegal move.
pub proof fn lemma_illegal_transition_rejected(
    pre: Seq<TrackedJobModel>,
    post: Seq<TrackedJobModel>,
    id: Seq<char>,
    status: JobStatus,
    progress: Option<u32>,
    now: u64,
    r: Result<(), TrackerError>,
)
    requires
        update_transition(pre, post, id, status, progress, now, r),
        spec_find_index(pre, id) >= 0,
        !spec_can_transition(pre[spec_find_index(pre, id)].status, status),
    ensures
        r == Err::<(), TrackerError>(
            TrackerError::IllegalTransition {
                from: pre[spec_find_index(pre, id)].status,
                to: status,
            },
        ),
        post == pre,
{
}

/// A terminal timestamp is set by an update exactly when the job enters the
/// matching state or already carried the stamp: by induction from a fresh
/// entry (whose stamps are all `None`), a stamp is present if and only if
/// the job has ever held that state.
pub proof fn lemma_stamps_record_history(
    j: TrackedJobModel,
    status: JobStatus,
    progress: Option<u32>,
    now: u64,
)
    requires
        job_model_wf(j),
    ensures
        ({
            let j2 = spec_updated_job(j, status, progress, now);
            &&& (j2.completed_time is Some <==> (j.completed_time is Some || status is Completed))
            &&& (j2.stopped_time is Some <==> (j.stopped_time is Some || status is Stopped))
            &&& (j2.finished_time is Some <==> (j.finished_time is Some || status is Finished))
        }),
{
}

/// How a status count changes when one entry is replaced: it gains one
/// when the new entry holds the status, and loses one when the old entry
/// held it.
pub proof fn lemma_count_after_update(
    s: Seq<TrackedJobModel>,
    k: int,
    j: TrackedJobModel,
    status: JobStatus,
)
    requires
        0 <= k < s.len(),
    ensures
        spec_count_with_status(s.update(k, j), status) == spec_count_with_status(s, status) + (
        if j.status == status {
            1int
        } else {
            0int
        }) - (if s[k].status == status {
            1int
        } else {
            0int
        }),
    decreases s.len(),
{
    let t = s.update(k, j);
    if k == s.len() - 1 {
        assert(t.drop_last() =~= s.drop_last());
        assert(t.last() == j);
    } else {
        assert(t.drop_last() =~= s.drop_last().update(k, j));
        assert(t.last() == s.last());
        lemma_count_after_update(s.drop_last(), k, j, status);
    }
}

/// Admitting a job never raises the running count: an inserted entry is
/// pending.  Only the edge on which a container fetches its work moves a
/// job to `Running`, and each update moves the count by at most one, so
/// the poller's gate bounds how far the count can grow.
pub proof fn lemma_insert_keeps_running_count(s: Seq<TrackedJobModel>, job: JobModel, now: u64)
    ensures
        spec_count_with_status(spec_insert(s, job, now), JobStatus::Running)
            == spec_count_with_status(s, JobStatus::Running),
{
    if spec_find_index(s, job.id) >= 0 {
    } else {
        let t = s.push(spec_new_tracked(job, now));
        assert(t.drop_last() =~= s);
        assert(t.last() == spec_new_tracked(job, now));
    }
}

/// One accepted update moves the running count by at most one, and an
/// update away from `Running` never raises it.
pub proof fn lemma_update_moves_running_count_by_at_most_one(
    pre: Seq<TrackedJobModel>,
    post: Seq<TrackedJobModel>,
    id: Seq<char>,
    status: JobStatus,
    progress: Option<u32>,
    now: u64,
    r: Result<(), TrackerError>,
)
    requires
        update_transition(pre, post, id, status, progress, now, r),
    ensures
        spec_count_with_status(post, JobStatus::Running) <= spec_count_with_status(
            pre,
            JobStatus::Running,
        ) + 1,
        !(status is Running) ==> spec_count_with_status(post, JobStatus::Running)
            <= spec_count_with_status(pre, JobStatus::Running),
{
    lemma_find_index(pre, id);
    let k = spec_find_index(pre, id);
    if k != -1 && spec_can_transition(pre[k].status, status) {
        lemma_count_after_update(
            pre,
            k,
            spec_updated_job(pre[k], status, progress, now),
            JobStatus::Running,
        );
    }
}

/// Inserting the same job twice leaves exactly what one insert leaves: the
/// second insert is dropped.
pub proof fn lemma_insert_idempotent(
    s: Seq<TrackedJobModel>,
    job: JobModel,
    now1: u64,
    now2: u64,
)
    ensures
        spec_insert(spec_insert(s, job, now1), job, now2) == spec_insert(s, job, now1),
{
    if spec_find_index(s, job.id) >= 0 {
    } else {
        let s2 = s.push(spec_new_tracked(job, now1));
        lemma_find_index(s2, job.id);
        if spec_find_index(s2, job.id) == -1 {
            assert(s2[s2.len() - 1].job.id == job.id);
            assert(false);
        }
    }
}

} // verus!
