//! The in-memory analysis job registry: what a poll sees, how a job moves
//! from queued to a terminal state, and which finished jobs are let go.
//!
//! The registry is a state machine. The worker that runs a job reports each
//! step of its life as a [`WorkerEvent`]; the registry decides the job's next
//! state and whether the worker goes on.
use vstd::prelude::*;

use crate::error::ApiError;

verus! {

/// How many jobs are kept once they are finished.
pub const KEEP: usize = 32;

/// Which question was asked.
#[derive(Debug, Clone, Copy, PartialEq, Eq, Structural)]
pub enum JobKind {
    Sweep,
    Sensitivity,
    Solve,
    WhatIf,
}

pub open spec fn kind_name(k: JobKind) -> Seq<char> {
    match k {
        JobKind::Sweep => "sweep"@,
        JobKind::Sensitivity => "sensitivity"@,
        JobKind::Solve => "solve"@,
        JobKind::WhatIf => "what-if"@,
    }
}

impl JobKind {
    pub fn as_str(self) -> (r: &'static str)
        ensures
            r@ == kind_name(self),
    {
        match self {
            JobKind::Sweep => "sweep",
            JobKind::Sensitivity => "sensitivity",
            JobKind::Solve => "solve",
            JobKind::WhatIf => "what-if",
        }
    }
}

#[derive(Debug, Clone, Copy, PartialEq, Eq, Structural)]
pub enum JobStatus {
    Queued,
    Running,
    Succeeded,
    Failed,
    Canceled,
}

pub open spec fn status_name(s: JobStatus) -> Seq<char> {
    match s {
        JobStatus::Queued => "queued"@,
        JobStatus::Running => "running"@,
        JobStatus::Succeeded => "succeeded"@,
        JobStatus::Failed => "failed"@,
        JobStatus::Canceled => "canceled"@,
    }
}

pub open spec fn terminal(s: JobStatus) -> bool {
    s == JobStatus::Succeeded || s == JobStatus::Failed || s == JobStatus::Canceled
}

impl JobStatus {
    pub fn as_str(self) -> (r: &'static str)
        ensures
            r@ == status_name(self),
    {
        match self {
            JobStatus::Queued => "queued",
            JobStatus::Running => "running",
            JobStatus::Succeeded => "succeeded",
            JobStatus::Failed => "failed",
            JobStatus::Canceled => "canceled",
        }
    }

    pub fn is_terminal(self) -> (r: bool)
        ensures
            r == terminal(self),
    {
        match self {
            JobStatus::Succeeded | JobStatus::Failed | JobStatus::Canceled => true,
            _ => false,
        }
    }
}

/// The simulations a job budgets for, from the figures of its request.
pub enum JobBudget {
    /// `points` grid points, plus the plan's own baseline, each run
    /// `iterations` times.
    Sweep { points: usize, iterations: usize },
    /// Each parameter nudged down and up, plus the baseline.
    Sensitivity { params: usize, iterations: usize },
    /// At most `probes` probes.
    Solve { probes: usize, iterations: usize },
    /// The plan and each cumulative override step.
    WhatIf { steps: usize, iterations: usize },
}

/// The budget and each partial product fit in a machine word.
pub open spec fn budget_fits(b: JobBudget) -> bool {
    &&& budget_of(b) <= usize::MAX
    &&& match b {
        JobBudget::Sweep { points, .. } => points + 1 <= usize::MAX,
        JobBudget::Sensitivity { params, .. } => params * 2 + 1 <= usize::MAX,
        _ => true,
    }
}

pub open spec fn budget_of(b: JobBudget) -> int {
    match b {
        JobBudget::Sweep { points, iterations } => (points + 1) * iterations,
        JobBudget::Sensitivity { params, iterations } => (params * 2 + 1) * iterations,
        JobBudget::Solve { probes, iterations } => probes * iterations,
        JobBudget::WhatIf { steps, iterations } => steps * iterations,
    }
}

impl JobBudget {
    /// Simulations the job will run: the denominator of its progress.
    pub fn total(&self) -> (r: usize)
        requires
            budget_fits(*self),
        ensures
            r == budget_of(*self),
    {
        match self {
            JobBudget::Sweep { points, iterations } => (*points + 1) * *iterations,
            JobBudget::Sensitivity { params, iterations } => (*params * 2 + 1) * *iterations,
            JobBudget::Solve { probes, iterations } => *probes * *iterations,
            JobBudget::WhatIf { steps, iterations } => *steps * *iterations,
        }
    }
}

/// A failure from inside the worker, with cancellation kept apart.
pub struct WorkerError {
    pub cancel: bool,
}

impl WorkerError {
    pub fn is_cancel(&self) -> (r: bool)
        ensures
            r == self.cancel,
    {
        self.cancel
    }
}

/// What a poll of a job sees.
pub struct JobView {
    pub id: i64,
    pub scenario_id: i64,
    pub kind: JobKind,
    pub status: JobStatus,
    pub completed: u64,
    pub total: u64,
    pub error: Option<String>,
    pub elapsed_ms: Option<u64>,
}

/// One job's slot in the registry.
pub struct JobSlot<O> {
    pub id: i64,
    pub scenario_id: i64,
    pub user_id: String,
    pub kind: JobKind,
    pub status: JobStatus,
    pub completed: u64,
    pub total: u64,
    pub cancel: bool,
    pub started_ms: u64,
    pub elapsed_ms: Option<u64>,
    pub error: Option<String>,
    pub outcome: Option<O>,
}

/// A slot holds results only once it succeeded, and an error only once it
/// failed.
pub open spec fn slot_wf<O>(s: JobSlot<O>) -> bool {
    &&& (s.outcome is Some ==> s.status == JobStatus::Succeeded)
    &&& (s.error is Some ==> s.status == JobStatus::Failed)
}

/// Every job, in creation order.
pub struct JobRegistry<O> {
    next_id: i64,
    slots: Vec<JobSlot<O>>,
}

/// The index of the first finished slot, if any.
pub open spec fn first_terminal<O>(s: Seq<JobSlot<O>>) -> int
    decreases s.len(),
{
    if s.len() == 0 {
        -1
    } else if terminal(s[0].status) {
        0
    } else {
        let rest = first_terminal(s.drop_first());
        if rest < 0 {
            -1
        } else {
            rest + 1
        }
    }
}

/// Drop the oldest finished jobs while more than `KEEP` are held; jobs still
/// in flight are never dropped, so the cap slips while they fill it.
pub open spec fn evicted<O>(s: Seq<JobSlot<O>>) -> Seq<JobSlot<O>>
    decreases s.len(),
{
    if s.len() <= KEEP || first_terminal(s) < 0 {
        s
    } else {
        proof {
            lemma_first_terminal_bounds(s);
        }
        evicted(s.remove(first_terminal(s)))
    }
}

/// Where a job's id is found, if it is there.
pub open spec fn index_of<O>(s: Seq<JobSlot<O>>, id: i64) -> int {
    if exists|i: int| 0 <= i < s.len() && s[i].id == id {
        choose|i: int| 0 <= i < s.len() && s[i].id == id
    } else {
        -1
    }
}

/// What a step of a worker's life reports to the registry.
pub enum WorkerEvent<O> {
    /// The worker pool is gone: the job can never run.
    QueueClosed,
    /// The plan was deleted while the job waited.
    ScenarioMissing,
    /// Checking for the plan failed.
    PrepareFailed,
    /// The worker holds a slot and the plan is there.
    Ready,
    /// The engine produced results.
    Finished(O),
    /// The engine stopped because it was asked to.
    Canceled,
    /// The engine reported an error.
    EngineFailed,
    /// The engine's thread died.
    Panicked,
}

/// What the worker is to do next.
#[derive(Debug, Clone, Copy, PartialEq, Eq, Structural)]
pub enum WorkerAction {
    /// Run the engine.
    Run,
    /// Stop: the job is settled.
    Stop,
}

/// The status, results and message a worker's final report settles into.
pub open spec fn settled<O>(e: WorkerEvent<O>) -> (JobStatus, Option<O>, Option<Seq<char>>) {
    match e {
        WorkerEvent::QueueClosed => (JobStatus::Failed, None, Some("Analysis queue unavailable"@)),
        WorkerEvent::PrepareFailed => (JobStatus::Failed, None, Some("Unable to prepare analysis"@)),
        WorkerEvent::Finished(o) => (JobStatus::Succeeded, Some(o), None),
        WorkerEvent::EngineFailed => (JobStatus::Failed, None, Some("Analysis failed"@)),
        WorkerEvent::Panicked => (JobStatus::Failed, None, Some("Analysis worker failed"@)),
        _ => (JobStatus::Canceled, None, None),
    }
}

/// The slot after `finish` settles it: nothing changes once it is terminal;
/// a requested cancel wins over whatever the worker reported; results are
/// kept only on success and a message only on failure.
pub open spec fn finished_slot<O>(
    s: JobSlot<O>,
    status: JobStatus,
    outcome: Option<O>,
    error: Option<Seq<char>>,
    now: u64,
    out: JobSlot<O>,
) -> bool {
    if terminal(s.status) {
        out == s
    } else {
        let st = if s.cancel {
            JobStatus::Canceled
        } else {
            status
        };
        &&& out.id == s.id && out.scenario_id == s.scenario_id && out.user_id == s.user_id
        &&& out.kind == s.kind && out.completed == s.completed && out.total == s.total
        &&& out.cancel == s.cancel && out.started_ms == s.started_ms
        &&& out.status == st
        &&& out.elapsed_ms == Some(elapsed(s.started_ms, now))
        &&& out.outcome == (if st == JobStatus::Succeeded {
            outcome
        } else {
            None
        })
        &&& (if st == JobStatus::Failed {
            (out.error is Some) == (error is Some) && (error is Some ==> out.error->0@
                == error->0)
        } else {
            out.error is None
        })
    }
}

pub open spec fn elapsed(started: u64, now: u64) -> u64 {
    if now >= started {
        (now - started) as u64
    } else {
        0
    }
}

fn elapsed_ms(started: u64, now: u64) -> (r: u64)
    ensures
        r == elapsed(started, now),
{
    if now >= started {
        now - started
    } else {
        0
    }
}

impl<O> JobRegistry<O> {
    pub closed spec fn jobs(&self) -> Seq<JobSlot<O>> {
        self.slots@
    }

    pub closed spec fn last_id(&self) -> i64 {
        self.next_id
    }

    /// Ids are positive, strictly increasing in creation order, and never
    /// above the last one handed out; every slot is consistent.
    pub open spec fn wf(&self) -> bool {
        &&& self.last_id() >= 0
        &&& forall|i: int, j: int|
            0 <= i < j < self.jobs().len() ==> #[trigger] self.jobs()[i].id
                < #[trigger] self.jobs()[j].id
        &&& forall|i: int|
            0 <= i < self.jobs().len() ==> 0 < #[trigger] self.jobs()[i].id <= self.last_id()
        &&& forall|i: int| 0 <= i < self.jobs().len() ==> slot_wf(#[trigger] self.jobs()[i])
    }

    pub fn new() -> (r: Self)
        ensures
            r.wf(),
            r.jobs() == Seq::<JobSlot<O>>::empty(),
            r.last_id() == 0,
    {
        JobRegistry { next_id: 0, slots: Vec::new() }
    }

    /// Whether another id is left to hand out.
    pub fn can_start(&self) -> (r: bool)
        ensures
            r == (self.last_id() < i64::MAX),
    {
        self.next_id < i64::MAX
    }

    /// Where the job with this id sits, if it is held.
    fn find(&self, id: i64) -> (r: Option<usize>)
        requires
            self.wf(),
        ensures
            match r {
                Some(i) => i < self.jobs().len() && self.jobs()[i as int].id == id && index_of(
                    self.jobs(),
                    id,
                ) == i,
                None => forall|i: int| 0 <= i < self.jobs().len() ==> self.jobs()[i].id != id,
            },
            r is None <==> index_of(self.jobs(), id) == -1,
    {
        let mut i: usize = 0;
        while i < self.slots.len()
            invariant
                i <= self.slots@.len(),
                self.wf(),
                forall|j: int| 0 <= j < i ==> self.slots@[j].id != id,
            decreases self.slots@.len() - i,
        {
            if self.slots[i].id == id {
                proof {
                    let k = choose|k: int| 0 <= k < self.jobs().len() && self.jobs()[k].id == id;
                    if k != i {
                        if k < i {
                            assert(self.jobs()[k].id < self.jobs()[i as int].id);
                        } else {
                            assert(self.jobs()[i as int].id < self.jobs()[k].id);
                        }
                    }
                }
                return Some(i);
            }
            i = i + 1;
        }
        None
    }

    /// The slot of a job that belongs to `user_id`. A job of someone else's is
    /// reported as missing, so ids are not probeable.
    pub open spec fn owned_index(&self, id: i64, user: Seq<char>) -> int {
        let i = index_of(self.jobs(), id);
        if i >= 0 && self.jobs()[i].user_id@ == user {
            i
        } else {
            -1
        }
    }

    fn owned(&self, id: i64, user_id: &str) -> (r: Result<usize, ApiError>)
        requires
            self.wf(),
        ensures
            match r {
                Ok(i) => i == self.owned_index(id, user_id@) && i < self.jobs().len(),
                Err(e) => self.owned_index(id, user_id@) == -1 && e == ApiError::NotFound(
                    "analysis",
                ),
            },
    {
        match self.find(id) {
            Some(i) => {
                if crate::text::same_text(self.slots[i].user_id.as_str(), user_id) {
                    Ok(i)
                } else {
                    Err(ApiError::NotFound("analysis"))
                }
            },
            None => Err(ApiError::NotFound("analysis")),
        }
    }

    /// Register a queued job and return its id. Older finished jobs beyond
    /// the cap are let go; no job still queued or running ever is.
    pub fn start(
        &mut self,
        scenario_id: i64,
        user_id: &str,
        kind: JobKind,
        total: u64,
        now_ms: u64,
    ) -> (id: i64)
        requires
            old(self).wf(),
            old(self).last_id() < i64::MAX,
        ensures
            final(self).wf(),
            id == old(self).last_id() + 1,
            final(self).last_id() == id,
            final(self).jobs() == evicted(
                old(self).jobs().push(
                    JobSlot {
                        id,
                        scenario_id,
                        user_id: final(self).jobs().last().user_id,
                        kind,
                        status: JobStatus::Queued,
                        completed: 0,
                        total,
                        cancel: false,
                        started_ms: now_ms,
                        elapsed_ms: None,
                        error: None,
                        outcome: None,
                    },
                ),
            ),
            final(self).jobs().last().user_id@ == user_id@,
    {
        self.next_id = self.next_id + 1;
        let id = self.next_id;
        let slot = JobSlot {
            id,
            scenario_id,
            user_id: crate::error::owned(user_id),
            kind,
            status: JobStatus::Queued,
            completed: 0,
            total,
            cancel: false,
            started_ms: now_ms,
            elapsed_ms: None,
            error: None,
            outcome: None,
        };
        let ghost pushed = self.slots@.push(slot);
        self.slots.push(slot);
        assert(self.wf());
        self.evict();
        proof {
            lemma_evicted_keeps_in_flight(pushed, pushed.len() - 1);
            let k = choose|k: int|
                0 <= k < self.jobs().len() && self.jobs()[k] == pushed[pushed.len() - 1];
            lemma_evicted_last(pushed);
        }
        id
    }

    /// Drop the oldest finished jobs once more than `KEEP` are held.
    fn evict(&mut self)
        requires
            old(self).wf(),
        ensures
            final(self).wf(),
            final(self).jobs() == evicted(old(self).jobs()),
            final(self).last_id() == old(self).last_id(),
    {
        while self.slots.len() > KEEP
            invariant_except_break
                self.wf(),
                evicted(self.jobs()) == evicted(old(self).jobs()),
                self.last_id() == old(self).last_id(),
            ensures
                self.wf(),
                self.jobs() == evicted(old(self).jobs()),
                self.last_id() == old(self).last_id(),
            decreases self.slots@.len(),
        {
            let mut p: usize = 0;
            while p < self.slots.len() && !self.slots[p].status.is_terminal()
                invariant
                    p <= self.slots@.len(),
                    self.wf(),
                    forall|j: int| 0 <= j < p ==> !terminal(#[trigger] self.slots@[j].status),
                decreases self.slots@.len() - p,
            {
                p = p + 1;
            }
            let found = p < self.slots.len();
            proof {
                lemma_first_terminal(self.jobs(), p as int, found);
            }
            if !found {
                break;
            }
            let ghost before = self.jobs();
            self.slots.remove(p);
            proof {
                assert(self.jobs() == before.remove(p as int));
                assert forall|i: int, j: int|
                    0 <= i < j < self.jobs().len() implies #[trigger] self.jobs()[i].id
                    < #[trigger] self.jobs()[j].id by {
                    let ii = if i < p { i } else { i + 1 };
                    let jj = if j < p { j } else { j + 1 };
                    assert(before[ii].id < before[jj].id);
                }
                assert forall|i: int| 0 <= i < self.jobs().len() implies 0 < #[trigger] self.jobs()[i].id
                    <= self.last_id() && slot_wf(self.jobs()[i]) by {
                    let ii = if i < p { i } else { i + 1 };
                    assert(self.jobs()[i] == before[ii]);
                }
            }
        }
    }

    /// The job's current state, if it belongs to `user_id`.
    pub fn view(&self, id: i64, user_id: &str) -> (r: Result<JobView, ApiError>)
        requires
            self.wf(),
        ensures
            match r {
                Ok(v) => {
                    let i = self.owned_index(id, user_id@);
                    &&& i >= 0
                    &&& view_of(self.jobs()[i], v)
                },
                Err(e) => self.owned_index(id, user_id@) == -1 && e == ApiError::NotFound(
                    "analysis",
                ),
            },
    {
        let i = self.owned(id, user_id)?;
        Ok(self.view_at(i))
    }

    fn view_at(&self, i: usize) -> (v: JobView)
        requires
            i < self.jobs().len(),
        ensures
            view_of(self.jobs()[i as int], v),
    {
        let s = &self.slots[i];
        JobView {
            id: s.id,
            scenario_id: s.scenario_id,
            kind: s.kind,
            status: s.status,
            completed: s.completed,
            total: s.total,
            error: match &s.error {
                Some(e) => Some(e.clone()),
                None => None,
            },
            elapsed_ms: s.elapsed_ms,
        }
    }

    /// The finished results, or why there are none yet.
    pub fn outcome(&self, id: i64, user_id: &str) -> (r: Result<&O, ApiError>)
        requires
            self.wf(),
        ensures
            ({
                let i = self.owned_index(id, user_id@);
                match r {
                    Ok(o) => i >= 0 && self.jobs()[i].outcome == Some(*o),
                    Err(e) => i == -1 && e == ApiError::NotFound("analysis") || i >= 0
                        && self.jobs()[i].outcome is None && outcome_refusal(self.jobs()[i], e),
                }
            }),
    {
        let i = self.owned(id, user_id)?;
        let s = &self.slots[i];
        match &s.outcome {
            Some(o) => Ok(o),
            None => {
                if s.status == JobStatus::Failed {
                    match &s.error {
                        Some(m) => Err(ApiError::Unprocessable(m.clone())),
                        None => Err(ApiError::unprocessable("analysis failed")),
                    }
                } else if s.status == JobStatus::Canceled {
                    Err(ApiError::bad_request("analysis was canceled"))
                } else {
                    Err(ApiError::bad_request("analysis has not finished"))
                }
            },
        }
    }

    /// Ask a job to stop, and report the state it is in afterwards. A job
    /// already finished is left alone.
    pub fn cancel(&mut self, id: i64, user_id: &str) -> (r: Result<JobView, ApiError>)
        requires
            old(self).wf(),
        ensures
            final(self).wf(),
            final(self).last_id() == old(self).last_id(),
            ({
                let i = old(self).owned_index(id, user_id@);
                match r {
                    Ok(v) => i >= 0 && final(self).jobs() == old(self).jobs().update(
                        i,
                        cancel_requested(old(self).jobs()[i]),
                    ) && view_of(final(self).jobs()[i], v),
                    Err(e) => i == -1 && e == ApiError::NotFound("analysis") && final(self).jobs()
                        == old(self).jobs(),
                }
            }),
    {
        let i = self.owned(id, user_id)?;
        if !self.slots[i].status.is_terminal() {
            let mut s = self.slots.remove(i);
            s.cancel = true;
            self.slots.insert(i, s);
        }
        proof {
            assert forall|a: int, b: int|
                0 <= a < b < self.jobs().len() implies #[trigger] self.jobs()[a].id
                < #[trigger] self.jobs()[b].id by {
                assert(old(self).jobs()[a].id < old(self).jobs()[b].id);
            }
            assert forall|a: int| 0 <= a < self.jobs().len() implies 0 < #[trigger] self.jobs()[a].id
                <= self.last_id() && slot_wf(self.jobs()[a]) by {
                assert(old(self).jobs()[a].id == self.jobs()[a].id);
            }
        }
        Ok(self.view_at(i))
    }

    /// Take the slot at `i` out, leaving a copy of its plain fields behind.
    fn take(&mut self, i: usize) -> (s: JobSlot<O>)
        requires
            old(self).wf(),
            i < old(self).jobs().len(),
        ensures
            s == old(self).jobs()[i as int],
            final(self).last_id() == old(self).last_id(),
            final(self).jobs().len() == old(self).jobs().len() - 1,
            final(self).jobs() == old(self).jobs().remove(i as int),
    {
        self.slots.remove(i)
    }

    /// Put back a slot taken at `i`.
    fn restore(&mut self, i: usize, s: JobSlot<O>, Ghost(before): Ghost<Seq<JobSlot<O>>>)
        requires
            i < before.len(),
            old(self).jobs() == before.remove(i as int),
            before.len() > 0,
            s.id == before[i as int].id,
            slot_wf(s),
            forall|a: int, b: int|
                0 <= a < b < before.len() ==> #[trigger] before[a].id < #[trigger] before[b].id,
            forall|a: int| 0 <= a < before.len() ==> 0 < #[trigger] before[a].id <= old(self).last_id(),
            forall|a: int| 0 <= a < before.len() ==> slot_wf(#[trigger] before[a]),
            old(self).last_id() >= 0,
        ensures
            final(self).wf(),
            final(self).jobs() == before.update(i as int, s),
            final(self).last_id() == old(self).last_id(),
    {
        self.slots.insert(i, s);
        proof {
            assert(self.jobs() == before.update(i as int, s));
            assert forall|a: int, b: int|
                0 <= a < b < self.jobs().len() implies #[trigger] self.jobs()[a].id
                < #[trigger] self.jobs()[b].id by {
                assert(before[a].id < before[b].id);
            }
            assert forall|a: int| 0 <= a < self.jobs().len() implies 0 < #[trigger] self.jobs()[a].id
                <= self.last_id() && slot_wf(self.jobs()[a]) by {
                assert(before[a].id == self.jobs()[a].id);
            }
        }
    }

    /// Settle a job: see [`finished_slot`]. Returns the status recorded, or
    /// `None` when the job is gone or was already terminal, so a terminal
    /// state is recorded once.
    pub fn finish(
        &mut self,
        id: i64,
        status: JobStatus,
        outcome: Option<O>,
        error: Option<String>,
        now_ms: u64,
    ) -> (r: Option<JobStatus>)
        requires
            old(self).wf(),
        ensures
            final(self).wf(),
            final(self).last_id() == old(self).last_id(),
            ({
                let i = index_of(old(self).jobs(), id);
                if i < 0 || terminal(old(self).jobs()[i].status) {
                    r is None && final(self).jobs() == old(self).jobs()
                } else {
                    &&& final(self).jobs().len() == old(self).jobs().len()
                    &&& forall|j: int|
                        0 <= j < old(self).jobs().len() && j != i ==> final(self).jobs()[j]
                            == old(self).jobs()[j]
                    &&& finished_slot(
                        old(self).jobs()[i],
                        status,
                        outcome,
                        match error {
                            Some(e) => Some(e@),
                            None => None,
                        },
                        now_ms,
                        final(self).jobs()[i],
                    )
                    &&& r == Some(final(self).jobs()[i].status)
                }
            }),
    {
        let i = match self.find(id) {
            Some(i) => i,
            None => return None,
        };
        if self.slots[i].status.is_terminal() {
            return None;
        }
        let ghost before = self.jobs();
        let mut s = self.take(i);
        let st = if s.cancel {
            JobStatus::Canceled
        } else {
            status
        };
        s.status = st;
        s.elapsed_ms = Some(elapsed_ms(s.started_ms, now_ms));
        s.outcome = if st == JobStatus::Succeeded {
            outcome
        } else {
            None
        };
        s.error = if st == JobStatus::Failed {
            error
        } else {
            None
        };
        self.restore(i, s, Ghost(before));
        Some(st)
    }

    /// A queued job starts only if it was not asked to stop meanwhile; its
    /// clock restarts when it is claimed.
    pub fn mark_running(&mut self, id: i64, now_ms: u64) -> (r: bool)
        requires
            old(self).wf(),
        ensures
            final(self).wf(),
            final(self).last_id() == old(self).last_id(),
            ({
                let i = index_of(old(self).jobs(), id);
                let claim = i >= 0 && old(self).jobs()[i].status == JobStatus::Queued
                    && !old(self).jobs()[i].cancel;
                &&& r == claim
                &&& claim ==> final(self).jobs() == old(self).jobs().update(
                    i,
                    JobSlot {
                        status: JobStatus::Running,
                        started_ms: now_ms,
                        ..old(self).jobs()[i]
                    },
                )
                &&& !claim ==> final(self).jobs() == old(self).jobs()
            }),
    {
        let i = match self.find(id) {
            Some(i) => i,
            None => return false,
        };
        if self.slots[i].status != JobStatus::Queued || self.slots[i].cancel {
            return false;
        }
        let ghost before = self.jobs();
        let mut s = self.take(i);
        s.status = JobStatus::Running;
        s.started_ms = now_ms;
        self.restore(i, s, Ghost(before));
        true
    }

    /// A queued job whose plan was deleted meanwhile ends canceled without
    /// ever running.
    pub fn deleted_before_start(&mut self, id: i64, now_ms: u64)
        requires
            old(self).wf(),
        ensures
            final(self).wf(),
            final(self).last_id() == old(self).last_id(),
            ({
                let i = index_of(old(self).jobs(), id);
                if i >= 0 && old(self).jobs()[i].status == JobStatus::Queued {
                    final(self).jobs() == old(self).jobs().update(
                        i,
                        JobSlot {
                            status: JobStatus::Canceled,
                            elapsed_ms: Some(elapsed(old(self).jobs()[i].started_ms, now_ms)),
                            ..old(self).jobs()[i]
                        },
                    )
                } else {
                    final(self).jobs() == old(self).jobs()
                }
            }),
    {
        let i = match self.find(id) {
            Some(i) => i,
            None => return ,
        };
        if self.slots[i].status != JobStatus::Queued {
            return ;
        }
        let ghost before = self.jobs();
        let mut s = self.take(i);
        s.status = JobStatus::Canceled;
        s.elapsed_ms = Some(elapsed_ms(s.started_ms, now_ms));
        self.restore(i, s, Ghost(before));
    }

    /// The worker went away without settling its job (it was aborted or
    /// unwound): a job not yet terminal is flagged to stop and recorded as
    /// interrupted.
    pub fn interrupt(&mut self, id: i64, now_ms: u64)
        requires
            old(self).wf(),
        ensures
            final(self).wf(),
            final(self).last_id() == old(self).last_id(),
            ({
                let i = index_of(old(self).jobs(), id);
                if i >= 0 && !terminal(old(self).jobs()[i].status) {
                    &&& final(self).jobs().len() == old(self).jobs().len()
                    &&& forall|j: int|
                        0 <= j < old(self).jobs().len() && j != i ==> final(self).jobs()[j]
                            == old(self).jobs()[j]
                    &&& final(self).jobs()[i].status == JobStatus::Failed
                    &&& final(self).jobs()[i].cancel
                    &&& final(self).jobs()[i].error is Some
                    &&& final(self).jobs()[i].error->0@ == "Analysis interrupted"@
                    &&& final(self).jobs()[i].elapsed_ms == Some(
                        elapsed(old(self).jobs()[i].started_ms, now_ms),
                    )
                    &&& final(self).jobs()[i].outcome == old(self).jobs()[i].outcome
                    &&& final(self).jobs()[i].id == old(self).jobs()[i].id
                    &&& final(self).jobs()[i].user_id == old(self).jobs()[i].user_id
                } else {
                    final(self).jobs() == old(self).jobs()
                }
            }),
    {
        let i = match self.find(id) {
            Some(i) => i,
            None => return ,
        };
        if self.slots[i].status.is_terminal() {
            return ;
        }
        let ghost before = self.jobs();
        let mut s = self.take(i);
        s.cancel = true;
        s.status = JobStatus::Failed;
        s.error = Some(crate::error::owned("Analysis interrupted"));
        s.elapsed_ms = Some(elapsed_ms(s.started_ms, now_ms));
        self.restore(i, s, Ghost(before));
    }

    /// Record how many simulations a job has finished so far.
    pub fn record_progress(&mut self, id: i64, completed: u64)
        requires
            old(self).wf(),
        ensures
            final(self).wf(),
            final(self).last_id() == old(self).last_id(),
            ({
                let i = index_of(old(self).jobs(), id);
                if i >= 0 {
                    final(self).jobs() == old(self).jobs().update(
                        i,
                        JobSlot { completed, ..old(self).jobs()[i] },
                    )
                } else {
                    final(self).jobs() == old(self).jobs()
                }
            }),
    {
        let i = match self.find(id) {
            Some(i) => i,
            None => return ,
        };
        let ghost before = self.jobs();
        let mut s = self.take(i);
        s.completed = completed;
        self.restore(i, s, Ghost(before));
    }

    /// Take one report from a job's worker and say whether it runs the engine.
    ///
    /// `Ready` claims the job (see [`Self::mark_running`]); a job that cannot
    /// be claimed was canceled while it waited and is settled as such. A
    /// deleted plan cancels the job before it starts. Every other report
    /// settles the job as [`settled`] says, through [`Self::finish`].
    pub fn on_event(&mut self, id: i64, event: WorkerEvent<O>, now_ms: u64) -> (r: WorkerAction)
        requires
            old(self).wf(),
        ensures
            final(self).wf(),
            final(self).last_id() == old(self).last_id(),
            (r == WorkerAction::Run) <==> (event is Ready && ({
                let i = index_of(old(self).jobs(), id);
                i >= 0 && old(self).jobs()[i].status == JobStatus::Queued
                    && !old(self).jobs()[i].cancel
            })),
            event is Ready ==> ({
                let i = index_of(old(self).jobs(), id);
                if i >= 0 && old(self).jobs()[i].status == JobStatus::Queued
                    && !old(self).jobs()[i].cancel {
                    final(self).jobs() == old(self).jobs().update(
                        i,
                        JobSlot {
                            status: JobStatus::Running,
                            started_ms: now_ms,
                            ..old(self).jobs()[i]
                        },
                    )
                } else if i < 0 || terminal(old(self).jobs()[i].status) {
                    final(self).jobs() == old(self).jobs()
                } else {
                    &&& final(self).jobs().len() == old(self).jobs().len()
                    &&& forall|j: int|
                        0 <= j < old(self).jobs().len() && j != i ==> final(self).jobs()[j]
                            == old(self).jobs()[j]
                    &&& finished_slot(
                        old(self).jobs()[i],
                        JobStatus::Canceled,
                        None,
                        None,
                        now_ms,
                        final(self).jobs()[i],
                    )
                }
            }),
            event is ScenarioMissing ==> ({
                let i = index_of(old(self).jobs(), id);
                if i >= 0 && old(self).jobs()[i].status == JobStatus::Queued {
                    final(self).jobs() == old(self).jobs().update(
                        i,
                        JobSlot {
                            status: JobStatus::Canceled,
                            elapsed_ms: Some(elapsed(old(self).jobs()[i].started_ms, now_ms)),
                            ..old(self).jobs()[i]
                        },
                    )
                } else {
                    final(self).jobs() == old(self).jobs()
                }
            }),
            !(event is Ready) && !(event is ScenarioMissing) ==> ({
                let i = index_of(old(self).jobs(), id);
                let (st, o, e) = settled(event);
                if i < 0 || terminal(old(self).jobs()[i].status) {
                    final(self).jobs() == old(self).jobs()
                } else {
                    &&& final(self).jobs().len() == old(self).jobs().len()
                    &&& forall|j: int|
                        0 <= j < old(self).jobs().len() && j != i ==> final(self).jobs()[j]
                            == old(self).jobs()[j]
                    &&& finished_slot(old(self).jobs()[i], st, o, e, now_ms, final(self).jobs()[i])
                }
            }),
    {
        match event {
            WorkerEvent::Ready => {
                if self.mark_running(id, now_ms) {
                    WorkerAction::Run
                } else {
                    let _ = self.finish(id, JobStatus::Canceled, None, None, now_ms);
                    WorkerAction::Stop
                }
            },
            WorkerEvent::ScenarioMissing => {
                self.deleted_before_start(id, now_ms);
                WorkerAction::Stop
            },
            WorkerEvent::QueueClosed => {
                let _ = self.finish(
                    id,
                    JobStatus::Failed,
                    None,
                    Some(crate::error::owned("Analysis queue unavailable")),
                    now_ms,
                );
                WorkerAction::Stop
            },
            WorkerEvent::PrepareFailed => {
                let _ = self.finish(
                    id,
                    JobStatus::Failed,
                    None,
                    Some(crate::error::owned("Unable to prepare analysis")),
                    now_ms,
                );
                WorkerAction::Stop
            },
            WorkerEvent::Finished(o) => {
                let _ = self.finish(id, JobStatus::Succeeded, Some(o), None, now_ms);
                WorkerAction::Stop
            },
            WorkerEvent::Canceled => {
                let _ = self.finish(id, JobStatus::Canceled, None, None, now_ms);
                WorkerAction::Stop
            },
            WorkerEvent::EngineFailed => {
                let _ = self.finish(
                    id,
                    JobStatus::Failed,
                    None,
                    Some(crate::error::owned("Analysis failed")),
                    now_ms,
                );
                WorkerAction::Stop
            },
            WorkerEvent::Panicked => {
                let _ = self.finish(
                    id,
                    JobStatus::Failed,
                    None,
                    Some(crate::error::owned("Analysis worker failed")),
                    now_ms,
                );
                WorkerAction::Stop
            },
        }
    }

    /// How many jobs of `kind` are waiting in the queue.
    pub fn queued(&self, kind: JobKind) -> (n: usize)
        ensures
            n == queued_count(self.jobs(), kind),
    {
        let mut n: usize = 0;
        let mut i: usize = 0;
        while i < self.slots.len()
            invariant
                i <= self.slots@.len(),
                n == queued_count(self.slots@.subrange(0, i as int), kind),
                n <= i,
            decreases self.slots@.len() - i,
        {
            assert(self.slots@.subrange(0, i + 1).drop_last() == self.slots@.subrange(0, i as int));
            if self.slots[i].kind == kind && self.slots[i].status == JobStatus::Queued {
                n = n + 1;
            }
            i = i + 1;
        }
        assert(self.slots@.subrange(0, self.slots@.len() as int) == self.slots@);
        n
    }
}

pub open spec fn queued_count<O>(s: Seq<JobSlot<O>>, kind: JobKind) -> nat
    decreases s.len(),
{
    if s.len() == 0 {
        0
    } else {
        queued_count(s.drop_last(), kind) + if s.last().kind == kind && s.last().status
            == JobStatus::Queued {
            1nat
        } else {
            0nat
        }
    }
}

/// The slot once a cancel was asked for: finished jobs are left alone.
pub open spec fn cancel_requested<O>(s: JobSlot<O>) -> JobSlot<O> {
    if terminal(s.status) {
        s
    } else {
        JobSlot { cancel: true, ..s }
    }
}

/// `v` is what a poll of slot `s` sees.
pub open spec fn view_of<O>(s: JobSlot<O>, v: JobView) -> bool {
    &&& v.id == s.id && v.scenario_id == s.scenario_id && v.kind == s.kind
    &&& v.status == s.status && v.completed == s.completed && v.total == s.total
    &&& v.elapsed_ms == s.elapsed_ms
    &&& (v.error is Some) == (s.error is Some)
    &&& (s.error is Some ==> v.error->0@ == s.error->0@)
}

/// Why a job without results answers a request for them: a failed job with
/// its message, a canceled one, or one not finished yet.
pub open spec fn outcome_refusal<O>(s: JobSlot<O>, e: ApiError) -> bool {
    if s.status == JobStatus::Failed {
        e matches ApiError::Unprocessable(m) && m@ == (match s.error {
            Some(x) => x@,
            None => "analysis failed"@,
        })
    } else if s.status == JobStatus::Canceled {
        e matches ApiError::BadRequest(m) && m@ == "analysis was canceled"@
    } else {
        e matches ApiError::BadRequest(m) && m@ == "analysis has not finished"@
    }
}

proof fn lemma_first_terminal<O>(s: Seq<JobSlot<O>>, p: int, found: bool)
    requires
        0 <= p <= s.len(),
        forall|j: int| 0 <= j < p ==> !terminal(#[trigger] s[j].status),
        found ==> p < s.len() && terminal(s[p].status),
        !found ==> p == s.len(),
    ensures
        found ==> first_terminal(s) == p,
        !found ==> first_terminal(s) == -1,
    decreases s.len(),
{
    if s.len() > 0 {
        if p > 0 {
            assert forall|j: int| 0 <= j < p - 1 implies !terminal(#[trigger] s.drop_first()[j].status) by {
                assert(s.drop_first()[j] == s[j + 1]);
            }
            if found {
                assert(s.drop_first()[p - 1] == s[p]);
            }
            lemma_first_terminal(s.drop_first(), p - 1, found);
        }
    }
}

pub proof fn lemma_first_terminal_bounds<O>(s: Seq<JobSlot<O>>)
    ensures
        -1 <= first_terminal(s) < s.len(),
        first_terminal(s) >= 0 ==> terminal(s[first_terminal(s)].status),
        forall|j: int| 0 <= j < first_terminal(s) ==> !terminal(#[trigger] s[j].status),
        first_terminal(s) < 0 ==> forall|j: int| 0 <= j < s.len() ==> !terminal(#[trigger] s[j].status),
    decreases s.len(),
{
    if s.len() > 0 && !terminal(s[0].status) {
        lemma_first_terminal_bounds(s.drop_first());
        assert forall|j: int| 0 < j < s.len() implies s[j] == s.drop_first()[j - 1] by {}
    }
}

/// Eviction never drops a job still queued or running.
pub proof fn lemma_evicted_keeps_in_flight<O>(s: Seq<JobSlot<O>>, k: int)
    requires
        0 <= k < s.len(),
        !terminal(s[k].status),
    ensures
        evicted(s).contains(s[k]),
    decreases s.len(),
{
    if s.len() <= KEEP || first_terminal(s) < 0 {
        assert(s[k] == s[k]);
    } else {
        lemma_first_terminal_bounds(s);
        let f = first_terminal(s);
        let t = s.remove(f);
        let kk = if k < f { k } else { k - 1 };
        assert(k != f);
        assert(t[kk] == s[k]);
        lemma_evicted_keeps_in_flight(t, kk);
    }
}

/// The newest job stays the last one held.
proof fn lemma_evicted_last<O>(s: Seq<JobSlot<O>>)
    requires
        s.len() > 0,
        !terminal(s.last().status),
    ensures
        evicted(s).len() > 0,
        evicted(s).last() == s.last(),
    decreases s.len(),
{
    if s.len() <= KEEP || first_terminal(s) < 0 {
    } else {
        lemma_first_terminal_bounds(s);
        let f = first_terminal(s);
        assert(f != s.len() - 1);
        let t = s.remove(f);
        assert(t.last() == s.last());
        lemma_evicted_last(t);
    }
}

/// Eviction only removes: it leaves at most `KEEP` jobs, or else only jobs
/// still in flight; every job left was held before.
pub proof fn evicted_is_within_the_cap<O>(s: Seq<JobSlot<O>>)
    ensures
        evicted(s).len() <= s.len(),
        forall|i: int| 0 <= i < evicted(s).len() ==> s.contains(#[trigger] evicted(s)[i]),
        evicted(s).len() <= KEEP || forall|j: int|
            0 <= j < evicted(s).len() ==> !terminal(#[trigger] evicted(s)[j].status),
    decreases s.len(),
{
    lemma_first_terminal_bounds(s);
    if s.len() <= KEEP || first_terminal(s) < 0 {
        assert forall|i: int| 0 <= i < s.len() implies s.contains(#[trigger] s[i]) by {}
    } else {
        let f = first_terminal(s);
        let t = s.remove(f);
        evicted_is_within_the_cap(t);
        assert forall|i: int| 0 <= i < evicted(s).len() implies s.contains(#[trigger] evicted(s)[i]) by {
            let k = choose|k: int| 0 <= k < t.len() && t[k] == evicted(t)[i];
            if k < f {
                assert(s[k] == t[k]);
            } else {
                assert(s[k + 1] == t[k]);
            }
        }
    }
}

/// `b` is `a` with some elements left out, the rest in their order: `f`
/// places each element of `b` in `a`, going forwards.
pub open spec fn ordered_within<T>(b: Seq<T>, a: Seq<T>, f: spec_fn(int) -> int) -> bool {
    &&& forall|i: int| 0 <= i < b.len() ==> 0 <= #[trigger] f(i) < a.len() && b[i] == a[f(i)]
    &&& forall|i: int, j: int| 0 <= i < j < b.len() ==> #[trigger] f(i) < #[trigger] f(j)
}

/// Eviction keeps the jobs it leaves in the order they were started.
pub proof fn evicted_keeps_order<O>(s: Seq<JobSlot<O>>)
    ensures
        exists|f: spec_fn(int) -> int| ordered_within(evicted(s), s, f),
    decreases s.len(),
{
    if s.len() <= KEEP || first_terminal(s) < 0 {
        let f = |i: int| i;
        assert(ordered_within(evicted(s), s, f));
    } else {
        lemma_first_terminal_bounds(s);
        let p = first_terminal(s);
        let t = s.remove(p);
        evicted_keeps_order(t);
        let f = choose|f: spec_fn(int) -> int| ordered_within(evicted(t), t, f);
        let g = |i: int| if f(i) < p { f(i) } else { f(i) + 1 };
        assert forall|i: int| 0 <= i < evicted(s).len() implies 0 <= #[trigger] g(i) < s.len() && evicted(s)[i]
            == s[g(i)] by {
            assert(evicted(s) == evicted(t));
            assert(0 <= f(i) < t.len() && evicted(t)[i] == t[f(i)]);
        }
        assert forall|i: int, j: int| 0 <= i < j < evicted(s).len() implies #[trigger] g(i) < #[trigger] g(j) by {
            assert(f(i) < f(j));
        }
        assert(ordered_within(evicted(s), s, g));
    }
}

} // verus!
