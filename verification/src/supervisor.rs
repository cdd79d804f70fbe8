//! The life of one subprocess: how it is started, and what its output
//! lines and its exit make of it.
//!
//! A supervisor is made when the subprocess is spawned. It is handed every
//! line that the subprocess prints, on either stream, and answers the first
//! line that signals a failure with the order to kill the subprocess; it is
//! handed the exit, and reports the outcome once:
//!
//! ```text
//! Spawned -> Streaming -> Completed | Killed -> Reported
//! ```

use crate::classifier::{
    lemma_first_marker, matched_marker, signals_failure, tokens_of, Classifier,
};
use crate::paths::{parent, parent_of};
use crate::text::texts;
use crate::work::{
    Credentials, CredentialsModel, OutcomeModel, ProcessOutcome, WorkItem, WorkItemModel,
};
use vstd::prelude::*;

verus! {

/// How a subprocess is to be started.
#[derive(Clone, Debug, PartialEq, Eq)]
pub struct Invocation {
    /// The program to run.
    pub program: String,
    /// Its arguments, in order.
    pub args: Vec<String>,
    /// The environment variables to set for it, name and value.
    pub envs: Vec<(String, String)>,
    /// The directory to run it in, or `None` for the caller's own.
    pub working_dir: Option<String>,
}

/// What an [`Invocation`] holds, as sequences.
pub struct InvocationModel {
    pub program: Seq<char>,
    pub args: Seq<Seq<char>>,
    pub envs: Seq<(Seq<char>, Seq<char>)>,
    pub working_dir: Option<Seq<char>>,
}

impl View for Invocation {
    type V = InvocationModel;

    open spec fn view(&self) -> InvocationModel {
        InvocationModel {
            program: self.program@,
            args: texts(self.args@),
            envs: Seq::new(self.envs@.len(), |i: int| (self.envs@[i].0@, self.envs@[i].1@)),
            working_dir: match self.working_dir {
                Some(dir) => Some(dir@),
                None => None,
            },
        }
    }
}

/// The environment that carries the credentials to a subprocess: user
/// name, password, and the askpass program for both SSH and git.
pub open spec fn credential_envs(credentials: CredentialsModel) -> Seq<(Seq<char>, Seq<char>)> {
    seq![
        ("GIT_USERNAME"@, credentials.username),
        ("GIT_PASSWORD"@, credentials.password),
        ("SSH_ASKPASS"@, credentials.ssh_askpass_program),
        ("GIT_ASKPASS"@, credentials.ssh_askpass_program),
    ]
}

/// How a repository is cloned: `git clone --recursive <locator>
/// <destination>`, in the caller's directory.
pub open spec fn clone_invocation(
    remote_locator: Seq<char>,
    destination_path: Seq<char>,
    credentials: CredentialsModel,
) -> InvocationModel {
    InvocationModel {
        program: "git"@,
        args: seq!["clone"@, "--recursive"@, remote_locator, destination_path],
        envs: credential_envs(credentials),
        working_dir: None,
    }
}

/// The directory that a fetch into a checkout is run in: the parent
/// directory of the checkout, which is the caller's own directory where the
/// path of the checkout names no other.
pub open spec fn fetch_dir(local_checkout_path: Seq<char>) -> Option<Seq<char>> {
    if parent_of(local_checkout_path).len() == 0 {
        None
    } else {
        Some(parent_of(local_checkout_path))
    }
}

/// How a checkout is fetched into: `git fetch --all --tags --auto-gc`, run
/// in the parent directory of the checkout.
pub open spec fn fetch_invocation(
    local_checkout_path: Seq<char>,
    credentials: CredentialsModel,
) -> InvocationModel {
    InvocationModel {
        program: "git"@,
        args: seq!["fetch"@, "--all"@, "--tags"@, "--auto-gc"@],
        envs: credential_envs(credentials),
        working_dir: fetch_dir(local_checkout_path),
    }
}

/// The environment that carries the credentials to a subprocess.
fn envs_for(credentials: &Credentials) -> (r: Vec<(String, String)>)
    ensures
        Seq::new(r@.len(), |i: int| (r@[i].0@, r@[i].1@)) == credential_envs(credentials@),
{
    let mut envs: Vec<(String, String)> = Vec::new();
    envs.push(("GIT_USERNAME".to_owned(), credentials.username.clone()));
    envs.push(("GIT_PASSWORD".to_owned(), credentials.password.clone()));
    envs.push(("SSH_ASKPASS".to_owned(), credentials.ssh_askpass_program.clone()));
    envs.push(("GIT_ASKPASS".to_owned(), credentials.ssh_askpass_program.clone()));
    envs
}

/// How the repository at `remote_locator` is cloned into
/// `destination_path`.
pub fn git_clone(remote_locator: &str, destination_path: &str, credentials: &Credentials) -> (r:
    Invocation)
    ensures
        r@ == clone_invocation(remote_locator@, destination_path@, credentials@),
{
    let mut args: Vec<String> = Vec::new();
    args.push("clone".to_owned());
    args.push("--recursive".to_owned());
    args.push(remote_locator.to_owned());
    args.push(destination_path.to_owned());
    let r = Invocation {
        program: "git".to_owned(),
        args,
        envs: envs_for(credentials),
        working_dir: None,
    };
    assert(r@.args =~= seq!["clone"@, "--recursive"@, remote_locator@, destination_path@]);
    r
}

/// How the checkout at `local_checkout_path` is fetched into.
pub fn git_fetch(local_checkout_path: &str, credentials: &Credentials) -> (r: Invocation)
    ensures
        r@ == fetch_invocation(local_checkout_path@, credentials@),
{
    let mut args: Vec<String> = Vec::new();
    args.push("fetch".to_owned());
    args.push("--all".to_owned());
    args.push("--tags".to_owned());
    args.push("--auto-gc".to_owned());
    let dir = parent(local_checkout_path);
    let r = Invocation {
        program: "git".to_owned(),
        args,
        envs: envs_for(credentials),
        working_dir: if dir.as_str().is_empty() {
            None
        } else {
            Some(dir)
        },
    };
    assert(r@.args =~= seq!["fetch"@, "--all"@, "--tags"@, "--auto-gc"@]);
    r
}

/// The invocation that an item stands for.
pub open spec fn invocation_of(
    item: WorkItemModel,
    credentials: CredentialsModel,
) -> InvocationModel {
    match item {
        WorkItemModel::Clone { remote_locator, destination_path } => clone_invocation(
            remote_locator,
            destination_path,
            credentials,
        ),
        WorkItemModel::Fetch { local_checkout_path } => fetch_invocation(
            local_checkout_path,
            credentials,
        ),
    }
}

/// How the subprocess of `item` is started.
pub fn invocation_for(item: &WorkItem, credentials: &Credentials) -> (r: Invocation)
    ensures
        r@ == invocation_of(item@, credentials@),
{
    match item {
        WorkItem::Clone { remote_locator, destination_path } => git_clone(
            remote_locator.as_str(),
            destination_path.as_str(),
            credentials,
        ),
        WorkItem::Fetch { local_checkout_path } => git_fetch(
            local_checkout_path.as_str(),
            credentials,
        ),
    }
}

/// Where a supervised subprocess stands.
#[derive(Clone, Copy, Debug, PartialEq, Eq, Structural)]
pub enum Phase {
    /// Started; no line seen yet.
    Spawned,
    /// Its lines are being read, none of them a failure so far.
    Streaming,
    /// Exited by itself before any line signalled a failure.
    Completed,
    /// A line signalled a failure and the kill was ordered.
    Killed,
    /// Its outcome was handed out.
    Reported,
}

/// What a supervisor knows at each phase.
#[derive(Clone, Debug, PartialEq, Eq)]
enum Stage {
    Spawned,
    Streaming,
    Completed,
    Killed(String),
    Reported(ProcessOutcome),
}

/// The supervisor of one subprocess.
#[derive(Clone, Debug, PartialEq, Eq)]
pub struct Supervisor {
    pid: u32,
    stage: Stage,
}

/// What a supervisor knows at each phase, as a model: the marker that
/// caused a kill, and the outcome that was reported.
pub enum StageModel {
    Spawned,
    Streaming,
    Completed,
    Killed(Seq<char>),
    Reported(OutcomeModel),
}

/// What a [`Supervisor`] holds: the process identifier and the stage.
pub struct SupervisorModel {
    pub pid: u32,
    pub stage: StageModel,
}

/// The phase of a stage.
pub open spec fn phase_of(stage: StageModel) -> Phase {
    match stage {
        StageModel::Spawned => Phase::Spawned,
        StageModel::Streaming => Phase::Streaming,
        StageModel::Completed => Phase::Completed,
        StageModel::Killed(_) => Phase::Killed,
        StageModel::Reported(_) => Phase::Reported,
    }
}

/// How far a phase is along the life of a subprocess.
pub open spec fn rank(phase: Phase) -> nat {
    match phase {
        Phase::Spawned => 0,
        Phase::Streaming => 1,
        Phase::Completed => 2,
        Phase::Killed => 2,
        Phase::Reported => 3,
    }
}

/// The supervisor of a subprocess that was just started as process `pid`.
pub open spec fn fresh(pid: u32) -> SupervisorModel {
    SupervisorModel { pid, stage: StageModel::Spawned }
}

/// Whether lines still count: the subprocess runs and no failure was seen.
pub open spec fn is_watching(s: SupervisorModel) -> bool {
    s.stage is Spawned || s.stage is Streaming
}

/// The supervisor after a line of output. While it watches, a line with a
/// marker takes it to `Killed` with that marker, any other line to
/// `Streaming`; later lines change nothing.
pub open spec fn after_line(
    s: SupervisorModel,
    line: Seq<char>,
    markers: Seq<Seq<char>>,
) -> SupervisorModel {
    if is_watching(s) {
        match matched_marker(line, markers) {
            Some(marker) => SupervisorModel { pid: s.pid, stage: StageModel::Killed(marker) },
            None => SupervisorModel { pid: s.pid, stage: StageModel::Streaming },
        }
    } else {
        s
    }
}

/// The process to kill after a line of output: the supervised one, on the
/// first line with a marker, and never again.
pub open spec fn kill_on_line(
    s: SupervisorModel,
    line: Seq<char>,
    markers: Seq<Seq<char>>,
) -> Option<u32> {
    if is_watching(s) && signals_failure(line, markers) {
        Some(s.pid)
    } else {
        None
    }
}

/// The supervisor after the exit of its subprocess: completed, if it was
/// still watching; else as it was.
pub open spec fn once_exited(s: SupervisorModel) -> SupervisorModel {
    if is_watching(s) {
        SupervisorModel { pid: s.pid, stage: StageModel::Completed }
    } else {
        s
    }
}

/// The outcome that is there to report: completion after an exit, the
/// failure after a kill, and nothing before either or after the report.
pub open spec fn report_of(s: SupervisorModel) -> Option<OutcomeModel> {
    match s.stage {
        StageModel::Completed => Some(OutcomeModel::Completed),
        StageModel::Killed(marker) => Some(OutcomeModel::Failed(marker)),
        _ => None,
    }
}

/// The supervisor after it was asked to report.
pub open spec fn once_reported(s: SupervisorModel) -> SupervisorModel {
    match report_of(s) {
        Some(outcome) => SupervisorModel { pid: s.pid, stage: StageModel::Reported(outcome) },
        None => s,
    }
}

/// The outcome of a subprocess that has exited: the failure if a kill was
/// ordered, what was reported if anything was, else completion.
pub open spec fn outcome_of(s: SupervisorModel) -> OutcomeModel {
    match s.stage {
        StageModel::Killed(marker) => OutcomeModel::Failed(marker),
        StageModel::Reported(outcome) => outcome,
        _ => OutcomeModel::Completed,
    }
}

/// The supervisor after all of `lines`, in order.
pub open spec fn after_lines(
    s: SupervisorModel,
    lines: Seq<Seq<char>>,
    markers: Seq<Seq<char>>,
) -> SupervisorModel
    decreases lines.len(),
{
    if lines.len() == 0 {
        s
    } else {
        after_line(after_lines(s, lines.drop_last(), markers), lines.last(), markers)
    }
}

/// The indices of the lines after which a kill is ordered, when a
/// supervisor is fed `lines` in order.
pub open spec fn kills_during(
    s: SupervisorModel,
    lines: Seq<Seq<char>>,
    markers: Seq<Seq<char>>,
) -> Seq<int>
    decreases lines.len(),
{
    if lines.len() == 0 {
        Seq::empty()
    } else {
        let before = kills_during(s, lines.drop_last(), markers);
        let watcher = after_lines(s, lines.drop_last(), markers);
        if kill_on_line(watcher, lines.last(), markers).is_some() {
            before.push(lines.len() - 1)
        } else {
            before
        }
    }
}

/// Whether line `at` is the first of `lines` that signals a failure.
pub open spec fn is_first_failure(lines: Seq<Seq<char>>, markers: Seq<Seq<char>>, at: int) -> bool {
    &&& 0 <= at < lines.len()
    &&& signals_failure(lines[at], markers)
    &&& forall|j: int| 0 <= j < at ==> !signals_failure(#[trigger] lines[j], markers)
}

impl View for Stage {
    type V = StageModel;

    closed spec fn view(&self) -> StageModel {
        match self {
            Stage::Spawned => StageModel::Spawned,
            Stage::Streaming => StageModel::Streaming,
            Stage::Completed => StageModel::Completed,
            Stage::Killed(marker) => StageModel::Killed(marker@),
            Stage::Reported(outcome) => StageModel::Reported(outcome@),
        }
    }
}

impl View for Supervisor {
    type V = SupervisorModel;

    closed spec fn view(&self) -> SupervisorModel {
        SupervisorModel { pid: self.pid, stage: self.stage@ }
    }
}

impl Supervisor {
    /// The supervisor of the subprocess that was just started with the
    /// given process identifier.
    pub fn spawned(pid: u32) -> (r: Supervisor)
        ensures
            r@ == fresh(pid),
    {
        Supervisor { pid, stage: Stage::Spawned }
    }

    /// The identifier of the supervised process.
    pub fn pid(&self) -> (r: u32)
        ensures
            r == self@.pid,
    {
        self.pid
    }

    /// Where the subprocess stands.
    pub fn phase(&self) -> (r: Phase)
        ensures
            r == phase_of(self@.stage),
    {
        match &self.stage {
            Stage::Spawned => Phase::Spawned,
            Stage::Streaming => Phase::Streaming,
            Stage::Completed => Phase::Completed,
            Stage::Killed(_) => Phase::Killed,
            Stage::Reported(_) => Phase::Reported,
        }
    }

    /// Takes one line of the subprocess's output, from either stream.
    /// Answers with the process to kill, if the line calls for it.
    pub fn on_line(&mut self, line: &str, classifier: &Classifier) -> (kill: Option<u32>)
        ensures
            final(self)@ == after_line(old(self)@, line@, classifier.vocabulary()),
            kill == kill_on_line(old(self)@, line@, classifier.vocabulary()),
    {
        let watching = match &self.stage {
            Stage::Spawned => true,
            Stage::Streaming => true,
            _ => false,
        };
        if !watching {
            return None;
        }
        match classifier.find_marker(line) {
            Some(marker) => {
                self.stage = Stage::Killed(marker);
                Some(self.pid)
            },
            None => {
                self.stage = Stage::Streaming;
                None
            },
        }
    }

    /// Takes the exit of the subprocess, with its streams drained.
    pub fn on_exit(&mut self)
        ensures
            final(self)@ == once_exited(old(self)@),
    {
        let watching = match &self.stage {
            Stage::Spawned => true,
            Stage::Streaming => true,
            _ => false,
        };
        if watching {
            self.stage = Stage::Completed;
        }
    }

    /// Hands out the outcome, once: after the exit or the kill, and not a
    /// second time.
    pub fn report(&mut self) -> (r: Option<ProcessOutcome>)
        ensures
            final(self)@ == once_reported(old(self)@),
            match r {
                Some(outcome) => report_of(old(self)@) == Some(outcome@),
                None => report_of(old(self)@).is_none(),
            },
    {
        let outcome = match &self.stage {
            Stage::Completed => Some(ProcessOutcome::Completed),
            Stage::Killed(marker) => Some(ProcessOutcome::Failed(marker.clone())),
            _ => None,
        };
        match outcome {
            Some(outcome) => {
                self.stage = Stage::Reported(outcome.duplicate());
                Some(outcome)
            },
            None => None,
        }
    }

    /// The outcome of the subprocess, which has exited.
    pub fn conclude(self) -> (r: ProcessOutcome)
        ensures
            r@ == outcome_of(self@),
    {
        match self.stage {
            Stage::Killed(marker) => ProcessOutcome::Failed(marker),
            Stage::Reported(outcome) => outcome,
            _ => ProcessOutcome::Completed,
        }
    }
}

/// Supervises a subprocess whose whole output is known: feeds `lines` in
/// order to a fresh supervisor of process `pid`, then its exit. Gives the
/// outcome and the index of the line after which the kill was ordered:
/// the first line that signals a failure, with the failure of its marker
/// as the outcome, or no kill and completion where no line signals one.
pub fn supervise(pid: u32, lines: &Vec<String>, classifier: &Classifier) -> (r: (
    ProcessOutcome,
    Option<usize>,
))
    ensures
        match r.1 {
            Some(at) => is_first_failure(texts(lines@), classifier.vocabulary(), at as int)
                && matched_marker(lines@[at as int]@, classifier.vocabulary()) == Some(
                r.0@->Failed_0,
            ) && r.0@ is Failed,
            None => r.0@ == OutcomeModel::Completed && forall|j: int|
                0 <= j < lines@.len() ==> !signals_failure(
                    #[trigger] texts(lines@)[j],
                    classifier.vocabulary(),
                ),
        },
        Some(r.0@) == report_of(
            once_exited(after_lines(fresh(pid), texts(lines@), classifier.vocabulary())),
        ),
        match r.1 {
            Some(at) => kills_during(fresh(pid), texts(lines@), classifier.vocabulary()) == seq![
                at as int,
            ],
            None => kills_during(fresh(pid), texts(lines@), classifier.vocabulary()).len() == 0,
        },
{
    let ghost start = fresh(pid);
    let ghost all = texts(lines@);
    let ghost markers = classifier.vocabulary();
    let mut supervisor = Supervisor::spawned(pid);
    let mut killed_at: Option<usize> = None;
    let mut k: usize = 0;
    while k < lines.len()
        invariant
            k <= lines@.len(),
            all == texts(lines@),
            markers == classifier.vocabulary(),
            supervisor@ == after_lines(start, all.take(k as int), markers),
            match killed_at {
                Some(at) => kills_during(start, all.take(k as int), markers) == seq![at as int]
                    && at < k && is_first_failure(all, markers, at as int) && matched_marker(
                    all[at as int],
                    markers,
                ).is_some() && supervisor@.stage == StageModel::Killed(
                    matched_marker(all[at as int], markers)->0,
                ),
                None => kills_during(start, all.take(k as int), markers).len() == 0 && is_watching(
                    supervisor@,
                ) && forall|j: int| 0 <= j < k ==> !signals_failure(#[trigger] all[j], markers),
            },
        decreases lines@.len() - k,
    {
        proof {
            assert(all.take(k + 1).drop_last() == all.take(k as int));
            lemma_first_marker(tokens_of(lines@[k as int]@), markers);
        }
        let kill = supervisor.on_line(lines[k].as_str(), classifier);
        if kill.is_some() {
            killed_at = Some(k);
        }
        k = k + 1;
    }
    proof {
        assert(all.take(k as int) == all);
    }
    supervisor.on_exit();
    let outcome = supervisor.conclude();
    (outcome, killed_at)
}

/// A supervisor only ever moves forward along the life of its subprocess,
/// whatever it is handed and in whatever order.
pub proof fn lemma_phase_moves_forward(s: SupervisorModel, line: Seq<char>, markers: Seq<Seq<char>>)
    ensures
        rank(phase_of(s.stage)) <= rank(phase_of(after_line(s, line, markers).stage)),
        rank(phase_of(s.stage)) <= rank(phase_of(once_exited(s).stage)),
        rank(phase_of(s.stage)) <= rank(phase_of(once_reported(s).stage)),
        after_line(s, line, markers).pid == s.pid,
        once_exited(s).pid == s.pid,
        once_reported(s).pid == s.pid,
{
}

/// While no line signals a failure, the supervisor goes on watching, no
/// kill is ordered, and an exit is reported as completion.
pub proof fn lemma_quiet_output_completes(pid: u32, lines: Seq<Seq<char>>, markers: Seq<Seq<char>>)
    requires
        forall|j: int| 0 <= j < lines.len() ==> !signals_failure(#[trigger] lines[j], markers),
    ensures
        is_watching(after_lines(fresh(pid), lines, markers)),
        after_lines(fresh(pid), lines, markers).pid == pid,
        report_of(once_exited(after_lines(fresh(pid), lines, markers))) == Some(
            OutcomeModel::Completed,
        ),
        kills_during(fresh(pid), lines, markers).len() == 0,
    decreases lines.len(),
{
    if lines.len() > 0 {
        let before = lines.drop_last();
        lemma_quiet_output_completes(pid, before, markers);
        lemma_first_marker(tokens_of(lines.last()), markers);
    }
}

/// The first line that signals a failure decides: the kill of the
/// supervised process is ordered after that line and never again, the
/// lines after it change nothing, and what is reported after the exit is
/// the failure with the marker of that line.
pub proof fn lemma_first_failure_is_killed(
    pid: u32,
    lines: Seq<Seq<char>>,
    markers: Seq<Seq<char>>,
    i: int,
)
    requires
        is_first_failure(lines, markers, i),
    ensures
        matched_marker(lines[i], markers).is_some(),
        after_lines(fresh(pid), lines, markers) == (SupervisorModel {
            pid,
            stage: StageModel::Killed(matched_marker(lines[i], markers)->0),
        }),
        report_of(once_exited(after_lines(fresh(pid), lines, markers))) == Some(
            OutcomeModel::Failed(matched_marker(lines[i], markers)->0),
        ),
        kills_during(fresh(pid), lines, markers) == seq![i],
        kill_on_line(after_lines(fresh(pid), lines.take(i), markers), lines[i], markers) == Some(
            pid,
        ),
    decreases lines.len(),
{
    let before = lines.drop_last();
    lemma_first_marker(tokens_of(lines[i]), markers);
    if i == lines.len() - 1 {
        lemma_quiet_output_completes(pid, before, markers);
    } else {
        lemma_first_failure_is_killed(pid, before, markers, i);
        assert(before.take(i) == lines.take(i));
    }
}

} // verus!
