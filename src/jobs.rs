//! The job manager: the in-memory registry of jobs, their lifecycle, and
//! FIFO promotion of queued jobs under a concurrency bound.
//!
//! The manager decides; its caller acts. A tick of the scheduler returns the
//! jobs to start, a cancellation of a running job asks the caller to stop
//! its container, and the caller reports back how each execution ended.
//! Times are handed in by the caller as seconds since the epoch.

use vstd::prelude::*;

use crate::plan::ExecutionPlan;
use crate::project::copy_opt;
use crate::text::{decimal, decimal_string, lemma_decimal_injective, same_text};

verus! {

/// Where a job is in its lifecycle.
#[derive(Debug, Clone, Copy, PartialEq, Eq, Structural)]
pub enum JobState {
    Queued,
    Running,
    Completed,
    Failed,
    Cancelled,
}

/// A tracked execution of a plan.
pub struct Job {
    pub id: String,
    pub state: JobState,
    pub plan: ExecutionPlan,
    pub created_at: i64,
    pub started_at: Option<i64>,
    pub finished_at: Option<i64>,
    pub exit_code: Option<i64>,
    pub output_dir: Option<String>,
    pub error: Option<String>,
}

/// What callers see of a job.
pub struct JobSummary {
    pub id: String,
    pub state: JobState,
    pub created_at: i64,
    pub started_at: Option<i64>,
    pub finished_at: Option<i64>,
    pub exit_code: Option<i64>,
    pub output_dir: Option<String>,
    pub error: Option<String>,
}

/// A file found in a job's output directory.
pub struct OutputFile {
    pub name: String,
    pub path: String,
    pub size: u64,
}

/// Why a job operation was refused.
pub enum JobError {
    /// No job has this identifier.
    NotFound(String),
    /// The job is already in a terminal state.
    Conflict(String),
}

/// What a successful cancellation did.
#[derive(Debug, Clone, Copy, PartialEq, Eq, Structural)]
pub enum CancelOutcome {
    /// The job was queued and is now cancelled; it will never start.
    Cancelled,
    /// The job is running: its container must be stopped, and the result
    /// reported through `record_stop`.
    StopRequested,
}

/// The job holds a state that no transition leaves.
pub open spec fn is_terminal(s: JobState) -> bool {
    s is Completed || s is Failed || s is Cancelled
}

/// The identifier of the `n`-th submitted job.
pub open spec fn job_id(n: nat) -> Seq<char> {
    "job-"@ + decimal(n)
}

/// How many of the first `i` jobs are running.
pub open spec fn running_upto(s: Seq<Job>, i: int) -> nat
    decreases i,
{
    if i <= 0 {
        0
    } else {
        running_upto(s, i - 1) + if s[i - 1].state is Running {
            1nat
        } else {
            0nat
        }
    }
}

pub open spec fn running_count(s: Seq<Job>) -> nat {
    running_upto(s, s.len() as int)
}

/// How many of the first `i` jobs are queued.
pub open spec fn queued_before(s: Seq<Job>, i: int) -> nat
    decreases i,
{
    if i <= 0 {
        0
    } else {
        queued_before(s, i - 1) + if s[i - 1].state is Queued {
            1nat
        } else {
            0nat
        }
    }
}

pub open spec fn queued_count(s: Seq<Job>) -> nat {
    queued_before(s, s.len() as int)
}

/// A tick with `slots` free places promotes the job at `i`: it is queued
/// and fewer than `slots` queued jobs are older.
pub open spec fn promotes(s: Seq<Job>, i: int, slots: nat) -> bool {
    s[i].state is Queued && queued_before(s, i) < slots
}

/// The jobs after a tick with `slots` free places at time `now`.
pub open spec fn tick_result(s: Seq<Job>, slots: nat, now: i64) -> Seq<Job> {
    Seq::new(
        s.len(),
        |i: int|
            if promotes(s, i, slots) {
                Job { state: JobState::Running, started_at: Some(now), ..s[i] }
            } else {
                s[i]
            },
    )
}

/// The position of the first job from `from` on whose identifier is `id`.
pub open spec fn job_index_from(s: Seq<Job>, id: Seq<char>, from: int) -> Option<int>
    decreases s.len() - from,
{
    if from < 0 || from >= s.len() {
        None
    } else if s[from].id@ == id {
        Some(from)
    } else {
        job_index_from(s, id, from + 1)
    }
}

/// The position of the job whose identifier is `id`.
pub open spec fn job_index(s: Seq<Job>, id: Seq<char>) -> Option<int> {
    job_index_from(s, id, 0)
}

/// `new` holds the jobs of `old`, in order, with only the job at `i` changed.
pub open spec fn only_changed(old: Seq<Job>, new: Seq<Job>, i: int) -> bool {
    new.len() == old.len() && forall|j: int| 0 <= j < old.len() && j != i ==> new[j] == old[j]
}

/// A step of the registry: jobs are only added, and a job in a terminal
/// state keeps it.
pub open spec fn registry_step(old: Seq<Job>, new: Seq<Job>) -> bool {
    &&& old.len() <= new.len()
    &&& forall|i: int| 0 <= i < old.len() ==> (#[trigger] new[i]).id == old[i].id
    &&& forall|i: int|
        0 <= i < old.len() && is_terminal(old[i].state) ==> (#[trigger] new[i]).state
            == old[i].state
}

/// `new` is the job `old` ended in `state` at time `now`; its exit code and
/// error are given separately.
pub open spec fn ended_as(old: Job, new: Job, state: JobState, now: i64) -> bool {
    &&& new.id == old.id
    &&& new.plan == old.plan
    &&& new.created_at == old.created_at
    &&& new.started_at == old.started_at
    &&& new.output_dir == old.output_dir
    &&& new.state == state
    &&& new.finished_at == Some(now)
}

/// `s` describes `j`.
pub open spec fn summarizes(s: JobSummary, j: Job) -> bool {
    &&& s.id@ == j.id@
    &&& s.state == j.state
    &&& s.created_at == j.created_at
    &&& s.started_at == j.started_at
    &&& s.finished_at == j.finished_at
    &&& s.exit_code == j.exit_code
    &&& s.output_dir == j.output_dir
    &&& s.error == j.error
}

/// The message recorded on a job whose container exited with `code`.
pub open spec fn exit_message(code: int) -> Seq<char> {
    "Container exited with code "@ + if code < 0 {
        seq!['-'] + decimal((-code) as nat)
    } else {
        decimal(code as nat)
    }
}

pub proof fn lemma_job_index_from(s: Seq<Job>, id: Seq<char>, from: int)
    requires
        0 <= from <= s.len(),
    ensures
        job_index_from(s, id, from).is_some() ==> {
            let i = job_index_from(s, id, from).unwrap();
            from <= i < s.len() && s[i].id@ == id
        },
        job_index_from(s, id, from).is_none() ==> forall|j: int|
            from <= j < s.len() ==> (#[trigger] s[j]).id@ != id,
    decreases s.len() - from,
{
    if 0 <= from < s.len() && s[from].id@ != id {
        lemma_job_index_from(s, id, from + 1);
    }
}

/// The `i`-th job, counted from one, is `job-i`.
pub open spec fn ids_in_order(s: Seq<Job>) -> bool {
    forall|i: int| 0 <= i < s.len() ==> (#[trigger] s[i]).id@ == job_id((i + 1) as nat)
}

/// Every job that ever ran has a start time. A job cancelled while queued
/// never started, so a cancelled job may have none.
pub open spec fn started_when_ran(s: Seq<Job>) -> bool {
    forall|i: int|
        0 <= i < s.len() && ((#[trigger] s[i]).state is Running || s[i].state is Completed
            || s[i].state is Failed) ==> s[i].started_at.is_some()
}

proof fn lemma_queued_before_mono(s: Seq<Job>, j: int, i: int)
    requires
        0 <= j < i <= s.len(),
        s[j].state is Queued,
    ensures
        queued_before(s, j) + 1 <= queued_before(s, i),
    decreases i,
{
    if j < i - 1 {
        lemma_queued_before_mono(s, j, i - 1);
    }
}

proof fn lemma_tick_keeps_order(s: Seq<Job>, slots: nat, now: i64)
    requires
        ids_in_order(s),
        started_when_ran(s),
    ensures
        ids_in_order(tick_result(s, slots, now)),
        started_when_ran(tick_result(s, slots, now)),
        registry_step(s, tick_result(s, slots, now)),
{
    let t = tick_result(s, slots, now);
    assert forall|i: int| 0 <= i < t.len() implies (#[trigger] t[i]).id@ == job_id((i + 1) as nat) by {
        assert(t[i].id == s[i].id);
    }
}

proof fn lemma_ids_unique(s: Seq<Job>, i: int, j: int)
    requires
        0 <= i < s.len(),
        0 <= j < s.len(),
        i != j,
        s[i].id@ == job_id((i + 1) as nat),
        s[j].id@ == job_id((j + 1) as nat),
    ensures
        s[i].id@ != s[j].id@,
{
    if s[i].id@ == s[j].id@ {
        let p = "job-"@;
        let a = decimal((i + 1) as nat);
        let b = decimal((j + 1) as nat);
        assert((p + a).subrange(p.len() as int, (p + a).len() as int) =~= a);
        assert((p + b).subrange(p.len() as int, (p + b).len() as int) =~= b);
        lemma_decimal_injective((i + 1) as nat, (j + 1) as nat);
    }
}

proof fn lemma_running_upto_prefix(s: Seq<Job>, t: Seq<Job>, k: int)
    requires
        0 <= k <= s.len(),
        k <= t.len(),
        forall|j: int| 0 <= j < k ==> s[j] == t[j],
    ensures
        running_upto(s, k) == running_upto(t, k),
    decreases k,
{
    if k > 0 {
        lemma_running_upto_prefix(s, t, k - 1);
    }
}

proof fn lemma_running_upto_change(old: Seq<Job>, new: Seq<Job>, i: int, k: int)
    requires
        only_changed(old, new, i),
        0 <= i < old.len(),
        0 <= k <= old.len(),
        !(new[i].state is Running) || old[i].state is Running,
    ensures
        running_upto(new, k) <= running_upto(old, k),
    decreases k,
{
    if k > 0 {
        lemma_running_upto_change(old, new, i, k - 1);
    }
}

proof fn lemma_tick_counts(s: Seq<Job>, slots: nat, now: i64, k: int)
    requires
        0 <= k <= s.len(),
    ensures
        running_upto(tick_result(s, slots, now), k) == running_upto(s, k) + if queued_before(s, k)
            < slots {
            queued_before(s, k)
        } else {
            slots
        },
    decreases k,
{
    if k > 0 {
        lemma_tick_counts(s, slots, now, k - 1);
    }
}

fn summary_of(j: &Job) -> (r: JobSummary)
    ensures
        summarizes(r, *j),
{
    JobSummary {
        id: j.id.clone(),
        state: j.state,
        created_at: j.created_at,
        started_at: j.started_at,
        finished_at: j.finished_at,
        exit_code: j.exit_code,
        output_dir: copy_opt(&j.output_dir),
        error: copy_opt(&j.error),
    }
}

/// The message for a container that exited with `code`.
pub fn exit_text(code: i64) -> (r: String)
    ensures
        r@ == exit_message(code as int),
{
    let mut r = String::from_str("Container exited with code ");
    if code < 0 {
        proof {
            reveal_strlit("-");
        }
        r.append("-");
        let magnitude: u64 = ((-(code + 1)) as u64) + 1;
        r.append(decimal_string(magnitude).as_str());
    } else {
        r.append(decimal_string(code as u64).as_str());
    }
    r
}

/// The registry of jobs, with its concurrency bound.
pub struct JobManager {
    jobs: Vec<Job>,
    max_workers: usize,
}

impl JobManager {
    /// The jobs, in order of submission.
    pub closed spec fn jobs(&self) -> Seq<Job> {
        self.jobs@
    }

    /// The most jobs that may run at once.
    pub closed spec fn max_workers(&self) -> nat {
        self.max_workers as nat
    }

    /// Identifiers follow submission order, no more jobs run than the bound
    /// allows, and every job that ever ran has a start time.
    pub closed spec fn wf(&self) -> bool {
        &&& running_count(self.jobs@) <= self.max_workers
        &&& ids_in_order(self.jobs@)
        &&& started_when_ran(self.jobs@)
    }

    /// An empty registry that runs at most `max_workers` jobs at once.
    pub fn new(max_workers: usize) -> (r: JobManager)
        ensures
            r.wf(),
            r.jobs().len() == 0,
            r.max_workers() == max_workers,
    {
        JobManager { jobs: Vec::new(), max_workers }
    }

    fn find(&self, id: &str) -> (r: Option<usize>)
        ensures
            r.is_some() == job_index(self.jobs@, id@).is_some(),
            r.is_some() ==> r.unwrap() as int == job_index(self.jobs@, id@).unwrap(),
            r.is_some() ==> r.unwrap() < self.jobs@.len(),
    {
        proof {
            lemma_job_index_from(self.jobs@, id@, 0);
        }
        let n = self.jobs.len();
        let mut i: usize = 0;
        while i < n
            invariant
                n == self.jobs@.len(),
                i <= n,
                job_index(self.jobs@, id@) == job_index_from(self.jobs@, id@, i as int),
            decreases n - i,
        {
            if same_text(self.jobs[i].id.as_str(), id) {
                return Some(i);
            }
            i = i + 1;
        }
        None
    }

    /// Registers a new queued job for `plan` and returns its identifier.
    /// Nothing is started here.
    pub fn submit(&mut self, plan: ExecutionPlan, output_dir: Option<String>, now: i64) -> (r:
        String)
        requires
            old(self).wf(),
            old(self).jobs().len() < usize::MAX,
        ensures
            final(self).wf(),
            final(self).max_workers() == old(self).max_workers(),
            registry_step(old(self).jobs(), final(self).jobs()),
            r@ == job_id((old(self).jobs().len() + 1) as nat),
            final(self).jobs().len() == old(self).jobs().len() + 1,
            forall|i: int|
                0 <= i < old(self).jobs().len() ==> #[trigger] final(self).jobs()[i] == old(
                    self,
                ).jobs()[i],
            ({
                let j = final(self).jobs().last();
                &&& j.id@ == r@
                &&& j.state == JobState::Queued
                &&& j.plan == plan
                &&& j.created_at == now
                &&& j.started_at.is_none()
                &&& j.finished_at.is_none()
                &&& j.exit_code.is_none()
                &&& j.output_dir == output_dir
                &&& j.error.is_none()
            }),
    {
        let n = self.jobs.len();
        let mut id = String::from_str("job-");
        let digits = decimal_string((n as u64) + 1);
        id.append(digits.as_str());
        let r = id.clone();
        let ghost old_jobs = self.jobs@;
        self.jobs.push(
            Job {
                id,
                state: JobState::Queued,
                plan,
                created_at: now,
                started_at: None,
                finished_at: None,
                exit_code: None,
                output_dir,
                error: None,
            },
        );
        proof {
            lemma_running_upto_prefix(old_jobs, self.jobs@, n as int);
            assert(running_count(self.jobs@) == running_count(old_jobs));
            assert forall|i: int| 0 <= i < self.jobs@.len() implies (#[trigger] self.jobs@[i]).id@
                == job_id((i + 1) as nat) by {
                if i < n {
                    assert(self.jobs@[i] == old_jobs[i]);
                }
            }
        }
        r
    }

    /// A snapshot of every job, in order of submission.
    pub fn list(&self) -> (r: Vec<JobSummary>)
        ensures
            r@.len() == self.jobs().len(),
            forall|i: int| 0 <= i < r@.len() ==> summarizes(#[trigger] r@[i], self.jobs()[i]),
    {
        let mut r: Vec<JobSummary> = Vec::new();
        let n = self.jobs.len();
        let mut i: usize = 0;
        while i < n
            invariant
                n == self.jobs@.len(),
                i <= n,
                r@.len() == i,
                forall|j: int| 0 <= j < i ==> summarizes(#[trigger] r@[j], self.jobs@[j]),
            decreases n - i,
        {
            r.push(summary_of(&self.jobs[i]));
            i = i + 1;
        }
        r
    }

    /// The job with identifier `id`.
    pub fn get(&self, id: &str) -> (r: Result<JobSummary, JobError>)
        ensures
            job_index(self.jobs(), id@).is_none() ==> (r.is_err() && r->Err_0 is NotFound && (
            r->Err_0)->NotFound_0@ == id@),
            job_index(self.jobs(), id@).is_some() ==> (r.is_ok() && summarizes(
                r->Ok_0,
                self.jobs()[job_index(self.jobs(), id@).unwrap()],
            )),
    {
        match self.find(id) {
            Some(i) => Ok(summary_of(&self.jobs[i])),
            None => Err(JobError::NotFound(String::from_str(id))),
        }
    }

    /// The plan of the job `id`, which its caller runs once the job starts.
    pub fn job_plan(&self, id: &str) -> (r: Option<&ExecutionPlan>)
        ensures
            r.is_some() == job_index(self.jobs(), id@).is_some(),
            r.is_some() ==> *r.unwrap() == self.jobs()[job_index(self.jobs(), id@).unwrap()].plan,
    {
        match self.find(id) {
            Some(i) => Some(&self.jobs[i].plan),
            None => None,
        }
    }

    /// Cancels the job `id`. A queued job becomes cancelled at once and is
    /// never started; for a running job a stop is requested and the job
    /// stays running until `record_stop` reports how the stop went. A job in
    /// a terminal state is left as it is.
    pub fn cancel(&mut self, id: &str, now: i64) -> (r: Result<CancelOutcome, JobError>)
        requires
            old(self).wf(),
        ensures
            final(self).wf(),
            final(self).max_workers() == old(self).max_workers(),
            registry_step(old(self).jobs(), final(self).jobs()),
            match job_index(old(self).jobs(), id@) {
                None => r.is_err() && r->Err_0 is NotFound && (r->Err_0)->NotFound_0@ == id@
                    && final(self).jobs() == old(self).jobs(),
                Some(i) => {
                    let j = old(self).jobs()[i];
                    if is_terminal(j.state) {
                        &&& r.is_err() && r->Err_0 is Conflict && (r->Err_0)->Conflict_0@ == id@
                        &&& final(self).jobs() == old(self).jobs()
                    } else if j.state is Queued {
                        &&& r == Ok::<CancelOutcome, JobError>(CancelOutcome::Cancelled)
                        &&& only_changed(old(self).jobs(), final(self).jobs(), i)
                        &&& final(self).jobs()[i] == (Job {
                            state: JobState::Cancelled,
                            finished_at: Some(now),
                            ..j
                        })
                    } else {
                        &&& r == Ok::<CancelOutcome, JobError>(CancelOutcome::StopRequested)
                        &&& final(self).jobs() == old(self).jobs()
                    }
                },
            },
    {
        let i = match self.find(id) {
            Some(i) => i,
            None => {
                return Err(JobError::NotFound(String::from_str(id)));
            },
        };
        let state = self.jobs[i].state;
        if state == JobState::Completed || state == JobState::Failed || state
            == JobState::Cancelled {
            return Err(JobError::Conflict(String::from_str(id)));
        }
        if state == JobState::Running {
            return Ok(CancelOutcome::StopRequested);
        }
        let ghost old_jobs = self.jobs@;
        self.jobs[i].state = JobState::Cancelled;
        self.jobs[i].finished_at = Some(now);
        proof {
            assert(only_changed(old_jobs, self.jobs@, i as int));
            lemma_running_upto_change(old_jobs, self.jobs@, i as int, old_jobs.len() as int);
            assert forall|k: int| 0 <= k < self.jobs@.len() implies (#[trigger] self.jobs@[k]).id@
                == job_id((k + 1) as nat) by {
                assert(self.jobs@[k].id == old_jobs[k].id);
            }
        }
        Ok(CancelOutcome::Cancelled)
    }

    fn finish(
        &mut self,
        i: usize,
        state: JobState,
        exit_code: Option<i64>,
        error: Option<String>,
        now: i64,
    )
        requires
            old(self).wf(),
            i < old(self).jobs().len(),
            old(self).jobs()[i as int].state is Running,
            is_terminal(state),
        ensures
            final(self).wf(),
            final(self).max_workers() == old(self).max_workers(),
            registry_step(old(self).jobs(), final(self).jobs()),
            only_changed(old(self).jobs(), final(self).jobs(), i as int),
            ended_as(old(self).jobs()[i as int], final(self).jobs()[i as int], state, now),
            final(self).jobs()[i as int].exit_code == exit_code,
            final(self).jobs()[i as int].error == error,
    {
        let ghost old_jobs = self.jobs@;
        self.jobs[i].state = state;
        self.jobs[i].finished_at = Some(now);
        self.jobs[i].exit_code = exit_code;
        self.jobs[i].error = error;
        proof {
            assert(only_changed(old_jobs, self.jobs@, i as int));
            lemma_running_upto_change(old_jobs, self.jobs@, i as int, old_jobs.len() as int);
            assert forall|k: int| 0 <= k < self.jobs@.len() implies (#[trigger] self.jobs@[k]).id@
                == job_id((k + 1) as nat) by {
                assert(self.jobs@[k].id == old_jobs[k].id);
            }
        }
    }

    /// Records how the stop of the running job `id`, requested by `cancel`,
    /// went: a confirmed stop cancels the job, a failed one fails it with the
    /// stop's error. A job that is no longer running is left as it is.
    pub fn record_stop(&mut self, id: &str, stopped: Result<(), String>, now: i64) -> (r: Result<
        JobState,
        JobError,
    >)
        requires
            old(self).wf(),
        ensures
            final(self).wf(),
            final(self).max_workers() == old(self).max_workers(),
            registry_step(old(self).jobs(), final(self).jobs()),
            match job_index(old(self).jobs(), id@) {
                None => r.is_err() && r->Err_0 is NotFound && (r->Err_0)->NotFound_0@ == id@
                    && final(self).jobs() == old(self).jobs(),
                Some(i) => {
                    let j = old(self).jobs()[i];
                    let k = final(self).jobs()[i];
                    if j.state is Running {
                        let state = if stopped.is_ok() {
                            JobState::Cancelled
                        } else {
                            JobState::Failed
                        };
                        &&& r == Ok::<JobState, JobError>(state)
                        &&& only_changed(old(self).jobs(), final(self).jobs(), i)
                        &&& ended_as(j, k, state, now)
                        &&& k.exit_code == j.exit_code
                        &&& k.error == match stopped {
                            Ok(_) => j.error,
                            Err(e) => Some(e),
                        }
                    } else {
                        r == Ok::<JobState, JobError>(j.state) && final(self).jobs() == old(
                            self,
                        ).jobs()
                    }
                },
            },
    {
        let i = match self.find(id) {
            Some(i) => i,
            None => {
                return Err(JobError::NotFound(String::from_str(id)));
            },
        };
        if self.jobs[i].state != JobState::Running {
            return Ok(self.jobs[i].state);
        }
        let exit_code = self.jobs[i].exit_code;
        match stopped {
            Ok(_) => {
                let error = copy_opt(&self.jobs[i].error);
                self.finish(i, JobState::Cancelled, exit_code, error, now);
                Ok(JobState::Cancelled)
            },
            Err(e) => {
                self.finish(i, JobState::Failed, exit_code, Some(e), now);
                Ok(JobState::Failed)
            },
        }
    }

    /// Records that the container of the running job `id` exited with
    /// `exit_code`: zero completes the job, anything else fails it. A job
    /// that is no longer running is left as it is.
    pub fn record_exit(&mut self, id: &str, exit_code: i64, now: i64) -> (r: Result<
        JobState,
        JobError,
    >)
        requires
            old(self).wf(),
        ensures
            final(self).wf(),
            final(self).max_workers() == old(self).max_workers(),
            registry_step(old(self).jobs(), final(self).jobs()),
            match job_index(old(self).jobs(), id@) {
                None => r.is_err() && r->Err_0 is NotFound && (r->Err_0)->NotFound_0@ == id@
                    && final(self).jobs() == old(self).jobs(),
                Some(i) => {
                    let j = old(self).jobs()[i];
                    let k = final(self).jobs()[i];
                    if j.state is Running {
                        let state = if exit_code == 0 {
                            JobState::Completed
                        } else {
                            JobState::Failed
                        };
                        &&& r == Ok::<JobState, JobError>(state)
                        &&& only_changed(old(self).jobs(), final(self).jobs(), i)
                        &&& ended_as(j, k, state, now)
                        &&& k.exit_code == Some(exit_code)
                        &&& exit_code == 0 ==> k.error == j.error
                        &&& exit_code != 0 ==> (k.error.is_some() && k.error.unwrap()@
                            == exit_message(exit_code as int))
                    } else {
                        r == Ok::<JobState, JobError>(j.state) && final(self).jobs() == old(
                            self,
                        ).jobs()
                    }
                },
            },
    {
        let i = match self.find(id) {
            Some(i) => i,
            None => {
                return Err(JobError::NotFound(String::from_str(id)));
            },
        };
        if self.jobs[i].state != JobState::Running {
            return Ok(self.jobs[i].state);
        }
        if exit_code == 0 {
            let error = copy_opt(&self.jobs[i].error);
            self.finish(i, JobState::Completed, Some(exit_code), error, now);
            Ok(JobState::Completed)
        } else {
            self.finish(i, JobState::Failed, Some(exit_code), Some(exit_text(exit_code)), now);
            Ok(JobState::Failed)
        }
    }

    /// Records that starting or running the job `id` failed with `message`.
    /// A job that is no longer running is left as it is.
    pub fn record_failure(&mut self, id: &str, message: String, now: i64) -> (r: Result<
        JobState,
        JobError,
    >)
        requires
            old(self).wf(),
        ensures
            final(self).wf(),
            final(self).max_workers() == old(self).max_workers(),
            registry_step(old(self).jobs(), final(self).jobs()),
            match job_index(old(self).jobs(), id@) {
                None => r.is_err() && r->Err_0 is NotFound && (r->Err_0)->NotFound_0@ == id@
                    && final(self).jobs() == old(self).jobs(),
                Some(i) => {
                    let j = old(self).jobs()[i];
                    let k = final(self).jobs()[i];
                    if j.state is Running {
                        &&& r == Ok::<JobState, JobError>(JobState::Failed)
                        &&& only_changed(old(self).jobs(), final(self).jobs(), i)
                        &&& ended_as(j, k, JobState::Failed, now)
                        &&& k.exit_code == j.exit_code
                        &&& k.error == Some(message)
                    } else {
                        r == Ok::<JobState, JobError>(j.state) && final(self).jobs() == old(
                            self,
                        ).jobs()
                    }
                },
            },
    {
        let i = match self.find(id) {
            Some(i) => i,
            None => {
                return Err(JobError::NotFound(String::from_str(id)));
            },
        };
        if self.jobs[i].state != JobState::Running {
            return Ok(self.jobs[i].state);
        }
        let exit_code = self.jobs[i].exit_code;
        self.finish(i, JobState::Failed, exit_code, Some(message), now);
        Ok(JobState::Failed)
    }

    /// The files of the job `id`'s output: none before the job reaches a
    /// terminal state or when it has no output directory, and otherwise
    /// `listing`, the regular files found directly under that directory.
    pub fn get_output(&self, id: &str, listing: Vec<OutputFile>) -> (r: Result<
        Vec<OutputFile>,
        JobError,
    >)
        ensures
            match job_index(self.jobs(), id@) {
                None => r.is_err() && r->Err_0 is NotFound && (r->Err_0)->NotFound_0@ == id@,
                Some(i) => {
                    let j = self.jobs()[i];
                    &&& r.is_ok()
                    &&& is_terminal(j.state) && j.output_dir.is_some() ==> r->Ok_0 == listing
                    &&& !(is_terminal(j.state) && j.output_dir.is_some()) ==> r->Ok_0@.len() == 0
                },
            },
    {
        let i = match self.find(id) {
            Some(i) => i,
            None => {
                return Err(JobError::NotFound(String::from_str(id)));
            },
        };
        let state = self.jobs[i].state;
        let terminal = state == JobState::Completed || state == JobState::Failed || state
            == JobState::Cancelled;
        if terminal && self.jobs[i].output_dir.is_some() {
            Ok(listing)
        } else {
            Ok(Vec::new())
        }
    }

    /// The number of running jobs.
    pub fn running(&self) -> (r: usize)
        ensures
            r == running_count(self.jobs()),
    {
        let n = self.jobs.len();
        let mut c: usize = 0;
        let mut i: usize = 0;
        while i < n
            invariant
                n == self.jobs@.len(),
                i <= n,
                c == running_upto(self.jobs@, i as int),
                c <= i,
            decreases n - i,
        {
            if self.jobs[i].state == JobState::Running {
                c = c + 1;
            }
            i = i + 1;
        }
        c
    }

    /// One tick of the scheduler at time `now`: while fewer jobs run than
    /// the bound allows and a job is queued, the oldest queued job becomes
    /// running. Returns the identifiers of the jobs to start, oldest first.
    #[verifier::rlimit(40)]
    pub fn process_pending(&mut self, now: i64) -> (r: Vec<String>)
        requires
            old(self).wf(),
        ensures
            final(self).wf(),
            final(self).max_workers() == old(self).max_workers(),
            registry_step(old(self).jobs(), final(self).jobs()),
            ({
                let s = old(self).jobs();
                let slots = (old(self).max_workers() - running_count(s)) as nat;
                &&& final(self).jobs() == tick_result(s, slots, now)
                &&& r@.len() == if queued_count(s) < slots {
                    queued_count(s)
                } else {
                    slots
                }
                &&& forall|i: int|
                    0 <= i < s.len() && promotes(s, i, slots) ==> r@[queued_before(s, i) as int]@
                        == (#[trigger] s[i]).id@
            }),
    {
        let ghost s = self.jobs@;
        let running = self.running();
        let slots = self.max_workers - running;
        let ghost want = tick_result(s, slots as nat, now);
        let mut started: Vec<String> = Vec::new();
        let mut promoted: usize = 0;
        let n = self.jobs.len();
        let mut i: usize = 0;
        while i < n
            invariant
                n == s.len(),
                self.jobs@.len() == n,
                self.max_workers == running + slots,
                running == running_count(s),
                want == tick_result(s, slots as nat, now),
                i <= n,
                forall|j: int| 0 <= j < i ==> self.jobs@[j] == want[j],
                forall|j: int| i <= j < n ==> self.jobs@[j] == s[j],
                promoted as nat == if queued_before(s, i as int) < slots {
                    queued_before(s, i as int)
                } else {
                    slots as nat
                },
                started@.len() == promoted,
                forall|j: int|
                    0 <= j < i && promotes(s, j, slots as nat) ==> started@[queued_before(
                        s,
                        j,
                    ) as int]@ == (#[trigger] s[j]).id@,
            decreases n - i,
        {
            assert(self.jobs@[i as int] == s[i as int]);
            assert(queued_before(s, i + 1) == queued_before(s, i as int) + if s[i as int].state is Queued {
                1nat
            } else {
                0nat
            });
            let ghost before_started = started@;
            let ghost before_jobs = self.jobs@;
            if self.jobs[i].state == JobState::Queued && promoted < slots {
                assert(promotes(s, i as int, slots as nat));
                assert(queued_before(s, i as int) == promoted);
                self.jobs[i].state = JobState::Running;
                self.jobs[i].started_at = Some(now);
                started.push(self.jobs[i].id.clone());
                promoted = promoted + 1;
                assert(self.jobs@[i as int] == want[i as int]);
                assert(started@ == before_started.push(s[i as int].id));
            } else {
                assert(!promotes(s, i as int, slots as nat));
                assert(want[i as int] == s[i as int]);
            }
            assert forall|j: int| 0 <= j < i + 1 implies self.jobs@[j] == want[j] by {
                if j < i {
                    assert(self.jobs@[j] == before_jobs[j]);
                }
            }
            assert forall|j: int|
                0 <= j < i + 1 && promotes(s, j, slots as nat) implies started@[queued_before(
                    s,
                    j,
                ) as int]@ == (#[trigger] s[j]).id@ by {
                if j < i {
                    lemma_queued_before_mono(s, j, i as int);
                    assert(started@[queued_before(s, j) as int] == before_started[queued_before(s, j) as int]);
                }
            }
            i = i + 1;
        }
        proof {
            assert(self.jobs@ =~= want);
            lemma_tick_counts(s, slots as nat, now, n as int);
            lemma_tick_keeps_order(s, slots as nat, now);
        }
        started
    }

    /// The concurrency bound.
    pub fn max_workers_value(&self) -> (r: usize)
        ensures
            r == self.max_workers(),
    {
        self.max_workers
    }
}

} // verus!

verus! {

/// At every observable instant no more jobs run than the bound allows.
pub proof fn lemma_running_within_bound(m: &JobManager)
    requires
        m.wf(),
    ensures
        running_count(m.jobs()) <= m.max_workers(),
{
}

/// Job identifiers are unique.
pub proof fn lemma_job_ids_unique(m: &JobManager, i: int, j: int)
    requires
        m.wf(),
        0 <= i < m.jobs().len(),
        0 <= j < m.jobs().len(),
        i != j,
    ensures
        m.jobs()[i].id@ != m.jobs()[j].id@,
{
    lemma_ids_unique(m.jobs(), i, j);
}

/// Promotion is first in, first out: a tick never starts a job while an
/// older one stays queued, and the jobs it starts are listed in order of
/// submission.
pub proof fn lemma_fifo_promotion(s: Seq<Job>, slots: nat, now: i64, i: int, j: int)
    requires
        0 <= i < j < s.len(),
        s[i].state is Queued,
        promotes(s, j, slots),
    ensures
        promotes(s, i, slots),
        tick_result(s, slots, now)[i].state is Running,
        queued_before(s, i) < queued_before(s, j),
{
    lemma_queued_before_mono(s, i, j);
}

/// A job in a terminal state keeps that state through any run of registry
/// steps; in particular a cancelled job never becomes running.
pub proof fn lemma_terminal_is_final(trace: Seq<Seq<Job>>, i: int, t: int)
    requires
        forall|k: int| 0 <= k < trace.len() - 1 ==> registry_step(#[trigger] trace[k], trace[k + 1]),
        0 <= t < trace.len(),
        0 <= i < trace[0].len(),
        is_terminal(trace[0][i].state),
    ensures
        i < trace[t].len(),
        trace[t][i].state == trace[0][i].state,
        !(trace[t][i].state is Running),
    decreases t,
{
    if t > 0 {
        lemma_terminal_is_final(trace, i, t - 1);
        assert(registry_step(trace[t - 1], trace[t]));
    }
}

} // verus!
