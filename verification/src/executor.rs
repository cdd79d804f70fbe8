//! The decisions of a batch run: which item is looked at next, whether it
//! is run or skipped, and when the batch is over. The caller carries out
//! the actions and hands back what happened.
//!
//! The caller asks for the next action until the run is over:
//! - `Probe`: it looks whether the item's directory exists and calls
//!   `on_probed`, which answers with the subprocess to start, if any; once
//!   started, the caller calls `on_spawned` with the process identifier;
//! - `Wait`: it waits for a subprocess to print a line or to exit, and calls
//!   `on_line`, which may answer with a process to kill, or `on_exit`;
//! - `Done`: every item has ended.
//!
//! Items are taken up in their order, never more at once than the mode has
//! room for. An item holds its place from the probe until it is skipped or
//! its subprocess has exited, killed or not.
//!
//! The outcome of every item is kept and can be read at any time; no
//! decision of the run depends on it, and a failure of one item never
//! touches another. Two items with the same destination are run like any
//! other two: nothing keeps them apart.

use crate::classifier::Classifier;
use crate::supervisor::{
    after_line, fresh, invocation_for, invocation_of, kill_on_line, outcome_of, Invocation,
    InvocationModel, Supervisor, SupervisorModel,
};
use crate::work::{
    item_models, Credentials, CredentialsModel, ExecutionMode, OutcomeModel, ProcessOutcome,
    SkipReason, WorkItem, WorkItemModel,
};
use vstd::prelude::*;

verus! {

/// Where one item of the batch stands.
#[derive(Clone, Debug, PartialEq, Eq)]
pub enum Job {
    /// Not looked at yet.
    Queued,
    /// The caller was asked whether the item's directory exists.
    Probing,
    /// The caller was told to start the subprocess.
    Spawning,
    /// The subprocess runs under its supervisor.
    Running(Supervisor),
    /// The item has ended.
    Done(ProcessOutcome),
}

/// What a [`Job`] holds, as a model.
pub enum JobModel {
    Queued,
    Probing,
    Spawning,
    Running(SupervisorModel),
    Done(OutcomeModel),
}

impl View for Job {
    type V = JobModel;

    open spec fn view(&self) -> JobModel {
        match self {
            Job::Queued => JobModel::Queued,
            Job::Probing => JobModel::Probing,
            Job::Spawning => JobModel::Spawning,
            Job::Running(supervisor) => JobModel::Running(supervisor@),
            Job::Done(outcome) => JobModel::Done(outcome@),
        }
    }
}

/// The models of a sequence of jobs, in the same order.
pub open spec fn job_models(jobs: Seq<Job>) -> Seq<JobModel> {
    Seq::new(jobs.len(), |i: int| jobs[i]@)
}

/// Whether the job holds one of the places of the pool: it was taken up
/// and has not ended.
pub open spec fn in_progress(job: JobModel) -> bool {
    job is Probing || job is Spawning || job is Running
}

/// Whether the job has a subprocess that was ordered and has not exited.
pub open spec fn is_live(job: JobModel) -> bool {
    job is Spawning || job is Running
}

/// How many of the jobs are in progress.
pub open spec fn count_in_progress(jobs: Seq<JobModel>) -> nat
    decreases jobs.len(),
{
    if jobs.len() == 0 {
        0
    } else {
        count_in_progress(jobs.drop_last()) + if in_progress(jobs.last()) {
            1nat
        } else {
            0nat
        }
    }
}

/// How many of the jobs have a live subprocess.
pub open spec fn count_live(jobs: Seq<JobModel>) -> nat
    decreases jobs.len(),
{
    if jobs.len() == 0 {
        0
    } else {
        count_live(jobs.drop_last()) + if is_live(jobs.last()) {
            1nat
        } else {
            0nat
        }
    }
}

/// The state of a batch run, as a model.
pub struct ExecutorModel {
    /// The items of the batch, in the order they were resolved in.
    pub items: Seq<WorkItemModel>,
    /// What every subprocess is given to log in with.
    pub credentials: CredentialsModel,
    /// The failure markers that the output lines are searched for.
    pub markers: Seq<Seq<char>>,
    /// How many items may be in progress at once.
    pub capacity: nat,
    /// How many items were taken up so far.
    pub next: nat,
    /// Where each item stands.
    pub jobs: Seq<JobModel>,
}

/// What holds of every state of a batch run:
/// - there is one job for each item;
/// - the items are taken up in order: exactly the first `next` are;
/// - no more items are in progress than the mode allows;
/// - with room for one item only, every item before the one taken up last
///   has ended.
pub open spec fn executor_wf(e: ExecutorModel) -> bool {
    &&& e.jobs.len() == e.items.len()
    &&& e.next <= e.jobs.len()
    &&& e.capacity >= 1
    &&& forall|j: int| 0 <= j < e.jobs.len() ==> ((#[trigger] e.jobs[j]) is Queued <==> j >= e.next)
    &&& count_in_progress(e.jobs) <= e.capacity
    &&& e.capacity == 1 ==> forall|j: int|
        0 <= j && j + 1 < e.next ==> (#[trigger] e.jobs[j]) is Done
}

/// What the caller is to do next.
#[derive(Clone, Copy, Debug, PartialEq, Eq, Structural)]
pub enum Action {
    /// Find out whether the probed path of item `index` is an existing
    /// directory, and hand the answer to `on_probed`.
    Probe { index: usize },
    /// Wait for a subprocess to print a line or to exit.
    Wait,
    /// Nothing is left to do: every item has ended.
    Done,
}

/// What the caller is to do with an item that was probed.
#[derive(Clone, Debug, PartialEq, Eq)]
pub enum Verdict {
    /// Start the subprocess, and hand its process identifier to
    /// `on_spawned`.
    Spawn(Invocation),
    /// Nothing: the item was skipped.
    Skip,
    /// Nothing: no probe of this item was asked for.
    Ignore,
}

/// What a [`Verdict`] holds, as a model.
pub enum VerdictModel {
    Spawn(InvocationModel),
    Skip,
    Ignore,
}

impl View for Verdict {
    type V = VerdictModel;

    open spec fn view(&self) -> VerdictModel {
        match self {
            Verdict::Spawn(invocation) => VerdictModel::Spawn(invocation@),
            Verdict::Skip => VerdictModel::Skip,
            Verdict::Ignore => VerdictModel::Ignore,
        }
    }
}

/// Whether an item runs, given whether its probed path is an existing
/// directory: a clone runs where its destination is absent, a fetch where
/// its checkout is present.
pub open spec fn runs_when(item: WorkItemModel, present: bool) -> bool {
    match item {
        WorkItemModel::Clone { .. } => !present,
        WorkItemModel::Fetch { .. } => present,
    }
}

/// Why an item that does not run is skipped.
pub open spec fn skip_reason(item: WorkItemModel) -> SkipReason {
    match item {
        WorkItemModel::Clone { .. } => SkipReason::AlreadyPresent,
        WorkItemModel::Fetch { .. } => SkipReason::MissingCheckout,
    }
}

/// Whether a further item can be taken up: one is left, and the pool has
/// room.
pub open spec fn can_take_up(e: ExecutorModel) -> bool {
    e.next < e.jobs.len() && count_in_progress(e.jobs) < e.capacity
}

/// The action that a state calls for: take up the next item where that can
/// be done, else wait while anything is in progress, else stop.
pub open spec fn action_of(e: ExecutorModel) -> Action {
    if can_take_up(e) {
        Action::Probe { index: e.next as usize }
    } else if count_in_progress(e.jobs) > 0 {
        Action::Wait
    } else {
        Action::Done
    }
}

/// The state after its action was handed out: the item taken up, if any,
/// is being probed.
pub open spec fn after_action(e: ExecutorModel) -> ExecutorModel {
    if can_take_up(e) {
        ExecutorModel {
            next: e.next + 1,
            jobs: e.jobs.update(e.next as int, JobModel::Probing),
            ..e
        }
    } else {
        e
    }
}

/// Whether item `index` is being probed.
pub open spec fn awaits_probe(e: ExecutorModel, index: int) -> bool {
    0 <= index < e.jobs.len() && e.jobs[index] is Probing
}

/// The state after the probe of item `index` was answered.
pub open spec fn after_probed(e: ExecutorModel, index: int, present: bool) -> ExecutorModel {
    if awaits_probe(e, index) {
        if runs_when(e.items[index], present) {
            ExecutorModel { jobs: e.jobs.update(index, JobModel::Spawning), ..e }
        } else {
            ExecutorModel {
                jobs: e.jobs.update(
                    index,
                    JobModel::Done(OutcomeModel::Skipped(skip_reason(e.items[index]))),
                ),
                ..e
            }
        }
    } else {
        e
    }
}

/// The verdict on item `index` once its probe was answered.
pub open spec fn verdict_of(e: ExecutorModel, index: int, present: bool) -> VerdictModel {
    if awaits_probe(e, index) {
        if runs_when(e.items[index], present) {
            VerdictModel::Spawn(invocation_of(e.items[index], e.credentials))
        } else {
            VerdictModel::Skip
        }
    } else {
        VerdictModel::Ignore
    }
}

/// The state after the subprocess of item `index` was started as process
/// `pid`.
pub open spec fn after_spawned(e: ExecutorModel, index: int, pid: u32) -> ExecutorModel {
    if 0 <= index < e.jobs.len() && e.jobs[index] is Spawning {
        ExecutorModel {
            jobs: e.jobs.update(
                index,
                JobModel::Running(fresh(pid)),
            ),
            ..e
        }
    } else {
        e
    }
}

/// The state after the subprocess of item `index` printed `line`.
pub open spec fn after_output(e: ExecutorModel, index: int, line: Seq<char>) -> ExecutorModel {
    if 0 <= index < e.jobs.len() && e.jobs[index] is Running {
        ExecutorModel {
            jobs: e.jobs.update(
                index,
                JobModel::Running(after_line(e.jobs[index]->Running_0, line, e.markers)),
            ),
            ..e
        }
    } else {
        e
    }
}

/// The process to kill after the subprocess of item `index` printed `line`.
pub open spec fn kill_after_output(e: ExecutorModel, index: int, line: Seq<char>) -> Option<u32> {
    if 0 <= index < e.jobs.len() && e.jobs[index] is Running {
        kill_on_line(e.jobs[index]->Running_0, line, e.markers)
    } else {
        None
    }
}

/// The state after the subprocess of item `index` exited.
pub open spec fn after_exit(e: ExecutorModel, index: int) -> ExecutorModel {
    if 0 <= index < e.jobs.len() && e.jobs[index] is Running {
        ExecutorModel {
            jobs: e.jobs.update(index, JobModel::Done(outcome_of(e.jobs[index]->Running_0))),
            ..e
        }
    } else {
        e
    }
}

/// Replacing one job changes the count of those in progress by what the
/// old and the new job count for.
pub proof fn lemma_count_in_progress_update(jobs: Seq<JobModel>, index: int, job: JobModel)
    requires
        0 <= index < jobs.len(),
    ensures
        count_in_progress(jobs.update(index, job)) + (if in_progress(jobs[index]) {
            1nat
        } else {
            0nat
        }) == count_in_progress(jobs) + (if in_progress(job) {
            1nat
        } else {
            0nat
        }),
    decreases jobs.len(),
{
    let updated = jobs.update(index, job);
    if index == jobs.len() - 1 {
        assert(updated.drop_last() == jobs.drop_last());
    } else {
        assert(updated.drop_last() == jobs.drop_last().update(index, job));
        lemma_count_in_progress_update(jobs.drop_last(), index, job);
    }
}

/// Where nothing is in progress, no single job is; where a job is in
/// progress, the count is at least one.
pub proof fn lemma_count_in_progress_zero(jobs: Seq<JobModel>)
    ensures
        count_in_progress(jobs) == 0 <==> forall|j: int|
            0 <= j < jobs.len() ==> !in_progress(#[trigger] jobs[j]),
    decreases jobs.len(),
{
    if jobs.len() > 0 {
        let before = jobs.drop_last();
        lemma_count_in_progress_zero(before);
        if count_in_progress(jobs) == 0 {
            assert forall|j: int| 0 <= j < jobs.len() implies !in_progress(#[trigger] jobs[j]) by {
                if j < before.len() {
                    assert(before[j] == jobs[j]);
                }
            }
        }
    }
}

/// No more jobs are live than are in progress, and no more are in progress
/// than there are jobs.
pub proof fn lemma_counts_ordered(jobs: Seq<JobModel>)
    ensures
        count_live(jobs) <= count_in_progress(jobs) <= jobs.len(),
    decreases jobs.len(),
{
    if jobs.len() > 0 {
        lemma_counts_ordered(jobs.drop_last());
    }
}

/// What the caller hands back to a batch run.
pub enum Event {
    /// The probe of item `index` was answered.
    Probed { index: int, present: bool },
    /// The subprocess of item `index` was started as process `pid`.
    Spawned { index: int, pid: u32 },
    /// The subprocess of item `index` printed `line`.
    Output { index: int, line: Seq<char> },
    /// The subprocess of item `index` exited.
    Exited { index: int },
}

/// The state after an event.
pub open spec fn after_event(e: ExecutorModel, event: Event) -> ExecutorModel {
    match event {
        Event::Probed { index, present } => after_probed(e, index, present),
        Event::Spawned { index, pid } => after_spawned(e, index, pid),
        Event::Output { index, line } => after_output(e, index, line),
        Event::Exited { index } => after_exit(e, index),
    }
}

/// The state that the run of a batch starts in: every item queued.
pub open spec fn start_of(
    items: Seq<WorkItemModel>,
    credentials: CredentialsModel,
    markers: Seq<Seq<char>>,
    capacity: nat,
) -> ExecutorModel {
    ExecutorModel {
        items,
        credentials,
        markers,
        capacity,
        next: 0,
        jobs: Seq::new(items.len(), |i: int| JobModel::Queued),
    }
}

/// The state that the run of a batch starts in meets [`executor_wf`].
pub proof fn lemma_start_is_wf(e: ExecutorModel)
    requires
        e.capacity >= 1,
        e == start_of(e.items, e.credentials, e.markers, e.capacity),
    ensures
        executor_wf(e),
        count_in_progress(e.jobs) == 0,
{
    lemma_count_in_progress_zero(e.jobs);
}

/// Replacing a job in progress by one that is in progress or has ended
/// keeps [`executor_wf`].
proof fn lemma_replace_keeps_wf(e: ExecutorModel, index: int, job: JobModel)
    requires
        executor_wf(e),
        0 <= index < e.jobs.len(),
        in_progress(e.jobs[index]),
        in_progress(job) || job is Done,
    ensures
        executor_wf(ExecutorModel { jobs: e.jobs.update(index, job), ..e }),
{
    lemma_count_in_progress_update(e.jobs, index, job);
}

/// Handing out the action of a state keeps [`executor_wf`].
pub proof fn lemma_action_keeps_wf(e: ExecutorModel)
    requires
        executor_wf(e),
    ensures
        executor_wf(after_action(e)),
{
    if can_take_up(e) {
        lemma_count_in_progress_update(e.jobs, e.next as int, JobModel::Probing);
        if e.capacity == 1 {
            lemma_count_in_progress_zero(e.jobs);
        }
    }
}

/// Whatever the caller hands back, in whatever order, [`executor_wf`] is
/// kept; an item that has ended stays as it ended, and an item that was
/// not taken up is not touched.
pub proof fn lemma_event_keeps_wf(e: ExecutorModel, event: Event)
    requires
        executor_wf(e),
    ensures
        executor_wf(after_event(e, event)),
        after_event(e, event).jobs.len() == e.jobs.len(),
        forall|j: int|
            0 <= j < e.jobs.len() && ((#[trigger] e.jobs[j]) is Done || e.jobs[j] is Queued)
                ==> after_event(e, event).jobs[j] == e.jobs[j],
{
    match event {
        Event::Probed { index, present } => {
            if awaits_probe(e, index) {
                if runs_when(e.items[index], present) {
                    lemma_replace_keeps_wf(e, index, JobModel::Spawning);
                } else {
                    lemma_replace_keeps_wf(
                        e,
                        index,
                        JobModel::Done(OutcomeModel::Skipped(skip_reason(e.items[index]))),
                    );
                }
            }
        },
        Event::Spawned { index, pid } => {
            if 0 <= index < e.jobs.len() && e.jobs[index] is Spawning {
                lemma_replace_keeps_wf(e, index, JobModel::Running(fresh(pid)));
            }
        },
        Event::Output { index, line } => {
            if 0 <= index < e.jobs.len() && e.jobs[index] is Running {
                lemma_replace_keeps_wf(
                    e,
                    index,
                    JobModel::Running(after_line(e.jobs[index]->Running_0, line, e.markers)),
                );
            }
        },
        Event::Exited { index } => {
            if 0 <= index < e.jobs.len() && e.jobs[index] is Running {
                lemma_replace_keeps_wf(
                    e,
                    index,
                    JobModel::Done(outcome_of(e.jobs[index]->Running_0)),
                );
            }
        },
    }
}

/// In no state of a run do more subprocesses live than the mode allows.
pub proof fn lemma_live_within_capacity(e: ExecutorModel)
    requires
        executor_wf(e),
    ensures
        count_live(e.jobs) <= e.capacity,
{
    lemma_counts_ordered(e.jobs);
}

/// With room for one item only, an item is not taken up, let alone its
/// subprocess started, before every item ahead of it has ended.
pub proof fn lemma_sequential_order(e: ExecutorModel, i: int, j: int)
    requires
        executor_wf(e),
        e.capacity == 1,
        0 <= i < j < e.jobs.len(),
        !(e.jobs[j] is Queued),
    ensures
        e.jobs[i] is Done,
{
}

/// The subprocess of an item is only ever ordered in answer to the probe
/// of that item.
pub proof fn lemma_spawn_follows_probe(e: ExecutorModel, index: int, present: bool)
    requires
        verdict_of(e, index, present) is Spawn,
    ensures
        awaits_probe(e, index),
        runs_when(e.items[index], present),
        verdict_of(e, index, present) == VerdictModel::Spawn(
            invocation_of(e.items[index], e.credentials),
        ),
{
}

/// A clone whose destination is already a directory is skipped as already
/// present: no subprocess is ordered for it.
pub proof fn lemma_present_clone_is_skipped(e: ExecutorModel, index: int)
    requires
        awaits_probe(e, index),
        e.items[index] is Clone,
    ensures
        verdict_of(e, index, true) == VerdictModel::Skip,
        after_probed(e, index, true).jobs[index] == JobModel::Done(
            OutcomeModel::Skipped(SkipReason::AlreadyPresent),
        ),
{
}

/// A run is only over when every item has ended.
pub proof fn lemma_done_means_all_ended(e: ExecutorModel)
    requires
        executor_wf(e),
        action_of(e) == Action::Done,
    ensures
        forall|j: int| 0 <= j < e.jobs.len() ==> (#[trigger] e.jobs[j]) is Done,
{
    lemma_count_in_progress_zero(e.jobs);
}

/// While an item is left or in progress, the run goes on: it is not over,
/// and it only waits while something is in progress.
pub proof fn lemma_run_goes_on(e: ExecutorModel)
    requires
        executor_wf(e),
    ensures
        action_of(e) is Wait ==> count_in_progress(e.jobs) > 0,
        action_of(e) is Probe ==> e.next < e.jobs.len() && action_of(e) == (Action::Probe {
            index: e.next as usize,
        }),
        e.next < e.jobs.len() ==> !(action_of(e) is Done),
{
}

/// The decisions of one batch run.
#[derive(Clone, Debug)]
pub struct Executor {
    items: Vec<WorkItem>,
    credentials: Credentials,
    classifier: Classifier,
    capacity: usize,
    next: usize,
    occupied: usize,
    jobs: Vec<Job>,
}

impl View for Executor {
    type V = ExecutorModel;

    closed spec fn view(&self) -> ExecutorModel {
        ExecutorModel {
            items: item_models(self.items@),
            credentials: self.credentials@,
            markers: self.classifier.vocabulary(),
            capacity: self.capacity as nat,
            next: self.next as nat,
            jobs: job_models(self.jobs@),
        }
    }
}

impl Executor {
    /// Whether the executor is in a state that a run can reach.
    pub closed spec fn wf(&self) -> bool {
        &&& executor_wf(self@)
        &&& self.occupied == count_in_progress(self@.jobs)
        &&& self.jobs@.len() == self.items@.len()
    }

    /// Every state that a run can reach meets [`executor_wf`].
    pub proof fn lemma_wf(&self)
        requires
            self.wf(),
        ensures
            executor_wf(self@),
    {
    }

    /// The executor of a batch of `items` with room for `capacity` items
    /// at once.
    pub(crate) fn with_capacity(
        items: Vec<WorkItem>,
        capacity: usize,
        credentials: Credentials,
        classifier: Classifier,
    ) -> (r: Executor)
        requires
            capacity >= 1,
        ensures
            r.wf(),
            r@ == start_of(
                item_models(items@),
                credentials@,
                classifier.vocabulary(),
                capacity as nat,
            ),
    {
        let mut jobs: Vec<Job> = Vec::new();
        let mut k: usize = 0;
        while k < items.len()
            invariant
                k <= items@.len(),
                jobs@.len() == k,
                forall|j: int| 0 <= j < k ==> (#[trigger] jobs@[j])@ == JobModel::Queued,
            decreases items@.len() - k,
        {
            jobs.push(Job::Queued);
            k = k + 1;
        }
        let e = Executor { items, credentials, classifier, capacity, next: 0, occupied: 0, jobs };
        proof {
            assert(e@.jobs =~= Seq::new(items@.len(), |i: int| JobModel::Queued));
            lemma_start_is_wf(e@);
        }
        e
    }

    /// The executor of a batch of `items` under `mode`, which looks for the
    /// markers of `classifier` in the output. Gives `None` for a mode
    /// without room for a single item.
    pub fn new(
        items: Vec<WorkItem>,
        mode: ExecutionMode,
        credentials: Credentials,
        classifier: Classifier,
    ) -> (r: Option<Executor>)
        ensures
            r.is_some() == (mode.spec_capacity() >= 1),
            r matches Some(e) ==> e.wf() && e@ == start_of(
                item_models(items@),
                credentials@,
                classifier.vocabulary(),
                mode.spec_capacity() as nat,
            ),
    {
        let capacity = mode.capacity();
        if capacity == 0 {
            None
        } else {
            Some(Executor::with_capacity(items, capacity, credentials, classifier))
        }
    }

    /// How many items the batch has.
    pub fn len(&self) -> (r: usize)
        requires
            self.wf(),
        ensures
            r == self@.items.len(),
    {
        self.items.len()
    }

    /// Item `index` of the batch.
    pub fn item(&self, index: usize) -> (r: Option<&WorkItem>)
        requires
            self.wf(),
        ensures
            match r {
                Some(item) => index < self@.items.len() && item@ == self@.items[index as int],
                None => index >= self@.items.len(),
            },
    {
        if index < self.items.len() {
            Some(&self.items[index])
        } else {
            None
        }
    }

    /// Where item `index` stands.
    pub fn job(&self, index: usize) -> (r: Option<&Job>)
        requires
            self.wf(),
        ensures
            match r {
                Some(job) => index < self@.jobs.len() && job@ == self@.jobs[index as int],
                None => index >= self@.jobs.len(),
            },
    {
        if index < self.jobs.len() {
            Some(&self.jobs[index])
        } else {
            None
        }
    }

    /// How item `index` ended, if it has.
    pub fn outcome(&self, index: usize) -> (r: Option<&ProcessOutcome>)
        requires
            self.wf(),
        ensures
            match r {
                Some(outcome) => index < self@.jobs.len() && self@.jobs[index as int]
                    == JobModel::Done(outcome@),
                None => index >= self@.jobs.len() || !(self@.jobs[index as int] is Done),
            },
    {
        if index < self.jobs.len() {
            match &self.jobs[index] {
                Job::Done(outcome) => Some(outcome),
                _ => None,
            }
        } else {
            None
        }
    }

    /// How many items are in progress.
    pub fn in_progress(&self) -> (r: usize)
        requires
            self.wf(),
        ensures
            r == count_in_progress(self@.jobs),
            r <= self@.capacity,
    {
        self.occupied
    }

    /// How many items may be in progress at once.
    pub fn capacity(&self) -> (r: usize)
        requires
            self.wf(),
        ensures
            r == self@.capacity,
            r >= 1,
    {
        self.capacity
    }

    /// Says what the caller is to do next. An item that is taken up counts
    /// as in progress from this call on.
    pub fn next_action(&mut self) -> (action: Action)
        requires
            old(self).wf(),
        ensures
            final(self).wf(),
            action == action_of(old(self)@),
            final(self)@ == after_action(old(self)@),
            action is Done ==> forall|j: int|
                0 <= j < final(self)@.jobs.len() ==> (#[trigger] final(self)@.jobs[j]) is Done,
    {
        let ghost e = self@;
        if self.next < self.jobs.len() && self.occupied < self.capacity {
            let index = self.next;
            proof {
                lemma_count_in_progress_update(e.jobs, index as int, JobModel::Probing);
                lemma_action_keeps_wf(e);
            }
            self.jobs.set(index, Job::Probing);
            self.next = index + 1;
            self.occupied = self.occupied + 1;
            proof {
                assert(job_models(self.jobs@) =~= e.jobs.update(index as int, JobModel::Probing));
            }
            Action::Probe { index }
        } else if self.occupied > 0 {
            Action::Wait
        } else {
            proof {
                lemma_done_means_all_ended(e);
            }
            Action::Done
        }
    }

    /// Takes the answer to the probe of item `index`: whether its probed
    /// path is an existing directory. Says whether to start the subprocess.
    pub fn on_probed(&mut self, index: usize, present: bool) -> (verdict: Verdict)
        requires
            old(self).wf(),
        ensures
            final(self).wf(),
            final(self)@ == after_probed(old(self)@, index as int, present),
            verdict@ == verdict_of(old(self)@, index as int, present),
    {
        let ghost e = self@;
        if index >= self.jobs.len() {
            return Verdict::Ignore;
        }
        let probing = match &self.jobs[index] {
            Job::Probing => true,
            _ => false,
        };
        if !probing {
            return Verdict::Ignore;
        }
        let runs = match &self.items[index] {
            WorkItem::Clone { .. } => !present,
            WorkItem::Fetch { .. } => present,
        };
        if runs {
            let invocation = invocation_for(&self.items[index], &self.credentials);
            proof {
                lemma_count_in_progress_update(e.jobs, index as int, JobModel::Spawning);
            }
            self.jobs.set(index, Job::Spawning);
            proof {
                assert(job_models(self.jobs@) =~= e.jobs.update(index as int, JobModel::Spawning));
                lemma_event_keeps_wf(e, Event::Probed { index: index as int, present });
            }
            Verdict::Spawn(invocation)
        } else {
            let reason = match &self.items[index] {
                WorkItem::Clone { .. } => SkipReason::AlreadyPresent,
                WorkItem::Fetch { .. } => SkipReason::MissingCheckout,
            };
            let ghost done = JobModel::Done(OutcomeModel::Skipped(reason));
            proof {
                lemma_count_in_progress_update(e.jobs, index as int, done);
            }
            self.jobs.set(index, Job::Done(ProcessOutcome::Skipped(reason)));
            self.occupied = self.occupied - 1;
            proof {
                assert(job_models(self.jobs@) =~= e.jobs.update(index as int, done));
                lemma_event_keeps_wf(e, Event::Probed { index: index as int, present });
            }
            Verdict::Skip
        }
    }

    /// Takes the process identifier of the subprocess that was started for
    /// item `index`. Changes nothing unless that start was called for.
    pub fn on_spawned(&mut self, index: usize, pid: u32)
        requires
            old(self).wf(),
        ensures
            final(self).wf(),
            final(self)@ == after_spawned(old(self)@, index as int, pid),
    {
        let ghost e = self@;
        if index >= self.jobs.len() {
            return ;
        }
        let spawning = match &self.jobs[index] {
            Job::Spawning => true,
            _ => false,
        };
        if spawning {
            let supervisor = Supervisor::spawned(pid);
            let ghost running = JobModel::Running(supervisor@);
            proof {
                lemma_count_in_progress_update(e.jobs, index as int, running);
            }
            self.jobs.set(index, Job::Running(supervisor));
            proof {
                assert(job_models(self.jobs@) =~= e.jobs.update(index as int, running));
                lemma_event_keeps_wf(e, Event::Spawned { index: index as int, pid });
            }
        }
    }

    /// Takes one line that the subprocess of item `index` printed, on
    /// either stream. Answers with the process to kill, if the line calls
    /// for it. Changes nothing unless that subprocess runs.
    pub fn on_line(&mut self, index: usize, line: &str) -> (kill: Option<u32>)
        requires
            old(self).wf(),
        ensures
            final(self).wf(),
            final(self)@ == after_output(old(self)@, index as int, line@),
            kill == kill_after_output(old(self)@, index as int, line@),
    {
        let ghost e = self@;
        if index >= self.jobs.len() {
            return None;
        }
        let mut job = Job::Queued;
        std::mem::swap(&mut job, &mut self.jobs[index]);
        match job {
            Job::Running(mut supervisor) => {
                let kill = supervisor.on_line(line, &self.classifier);
                let ghost running = JobModel::Running(supervisor@);
                proof {
                    lemma_count_in_progress_update(e.jobs, index as int, running);
                }
                self.jobs.set(index, Job::Running(supervisor));
                proof {
                    assert(job_models(self.jobs@) =~= e.jobs.update(index as int, running));
                    lemma_event_keeps_wf(e, Event::Output { index: index as int, line: line@ });
                }
                kill
            },
            other => {
                self.jobs.set(index, other);
                proof {
                    assert(job_models(self.jobs@) =~= e.jobs);
                }
                None
            },
        }
    }

    /// Takes the exit of the subprocess of item `index`, its streams
    /// drained: the item has ended. Changes nothing unless that subprocess
    /// runs.
    pub fn on_exit(&mut self, index: usize)
        requires
            old(self).wf(),
        ensures
            final(self).wf(),
            final(self)@ == after_exit(old(self)@, index as int),
    {
        let ghost e = self@;
        if index >= self.jobs.len() {
            return ;
        }
        let mut job = Job::Queued;
        std::mem::swap(&mut job, &mut self.jobs[index]);
        match job {
            Job::Running(supervisor) => {
                let outcome = supervisor.conclude();
                let ghost done = JobModel::Done(outcome@);
                proof {
                    lemma_count_in_progress_update(e.jobs, index as int, done);
                }
                self.jobs.set(index, Job::Done(outcome));
                self.occupied = self.occupied - 1;
                proof {
                    assert(job_models(self.jobs@) =~= e.jobs.update(index as int, done));
                    lemma_event_keeps_wf(e, Event::Exited { index: index as int });
                }
            },
            other => {
                self.jobs.set(index, other);
                proof {
                    assert(job_models(self.jobs@) =~= e.jobs);
                }
            },
        }
    }
}

} // verus!
