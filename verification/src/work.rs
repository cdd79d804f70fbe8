//! The data of a batch: work items, credentials, execution mode, and the
//! outcome of one item.

use vstd::prelude::*;

verus! {

/// One unit of batch work: clone a remote repository into a destination, or
/// fetch into a local checkout.
#[derive(Clone, Debug, PartialEq, Eq)]
pub enum WorkItem {
    Clone { remote_locator: String, destination_path: String },
    Fetch { local_checkout_path: String },
}

/// What a [`WorkItem`] holds, as sequences of characters.
pub enum WorkItemModel {
    Clone { remote_locator: Seq<char>, destination_path: Seq<char> },
    Fetch { local_checkout_path: Seq<char> },
}

impl View for WorkItem {
    type V = WorkItemModel;

    open spec fn view(&self) -> WorkItemModel {
        match self {
            WorkItem::Clone { remote_locator, destination_path } => WorkItemModel::Clone {
                remote_locator: remote_locator@,
                destination_path: destination_path@,
            },
            WorkItem::Fetch { local_checkout_path } => WorkItemModel::Fetch {
                local_checkout_path: local_checkout_path@,
            },
        }
    }
}

/// The models of a sequence of work items, in the same order.
pub open spec fn item_models(items: Seq<WorkItem>) -> Seq<WorkItemModel> {
    Seq::new(items.len(), |i: int| items[i]@)
}

impl WorkItem {
    /// The directory that tells whether the item can run: the destination of
    /// a clone, the checkout of a fetch.
    pub open spec fn spec_probed_path(&self) -> Seq<char> {
        match self {
            WorkItem::Clone { destination_path, .. } => destination_path@,
            WorkItem::Fetch { local_checkout_path } => local_checkout_path@,
        }
    }

    /// The directory that tells whether the item can run: the destination of
    /// a clone, the checkout of a fetch.
    pub fn probed_path(&self) -> (r: &String)
        ensures
            r@ == self.spec_probed_path(),
    {
        match self {
            WorkItem::Clone { destination_path, .. } => destination_path,
            WorkItem::Fetch { local_checkout_path } => local_checkout_path,
        }
    }
}

/// What every subprocess of a batch is given to log in with. An empty string
/// is a valid, degraded value.
#[derive(Clone, Debug, PartialEq, Eq)]
pub struct Credentials {
    pub username: String,
    pub password: String,
    pub ssh_askpass_program: String,
}

/// What a [`Credentials`] holds, as sequences of characters.
pub struct CredentialsModel {
    pub username: Seq<char>,
    pub password: Seq<char>,
    pub ssh_askpass_program: Seq<char>,
}

impl View for Credentials {
    type V = CredentialsModel;

    open spec fn view(&self) -> CredentialsModel {
        CredentialsModel {
            username: self.username@,
            password: self.password@,
            ssh_askpass_program: self.ssh_askpass_program@,
        }
    }
}

/// How the items of a batch are run: one at a time, or up to a fixed number
/// at once.
#[derive(Clone, Copy, Debug, PartialEq, Eq, Structural)]
pub enum ExecutionMode {
    Sequential,
    Bounded(usize),
}

/// The pool size that stands for "asynchronous execution".
pub const POOL_SIZE: usize = 32;

impl ExecutionMode {
    /// How many items may be in progress at once.
    pub open spec fn spec_capacity(&self) -> usize {
        match self {
            ExecutionMode::Sequential => 1,
            ExecutionMode::Bounded(k) => *k,
        }
    }

    /// How many items may be in progress at once.
    #[verifier::when_used_as_spec(spec_capacity)]
    pub fn capacity(&self) -> (r: usize)
        ensures
            r == self.spec_capacity(),
    {
        match self {
            ExecutionMode::Sequential => 1,
            ExecutionMode::Bounded(k) => *k,
        }
    }

    /// The mode that a batch runs in: a pool of [`POOL_SIZE`] where
    /// asynchronous execution is asked for, else one item at a time.
    pub fn from_async(async_exec: bool) -> (r: ExecutionMode)
        ensures
            r == if async_exec {
                ExecutionMode::Bounded(POOL_SIZE)
            } else {
                ExecutionMode::Sequential
            },
            r.spec_capacity() >= 1,
    {
        if async_exec {
            ExecutionMode::Bounded(POOL_SIZE)
        } else {
            ExecutionMode::Sequential
        }
    }
}

/// Why an item was not run.
#[derive(Clone, Copy, Debug, PartialEq, Eq, Structural)]
pub enum SkipReason {
    /// The destination of a clone is already a directory.
    AlreadyPresent,
    /// The checkout of a fetch is no longer a directory.
    MissingCheckout,
}

/// How one work item ended.
#[derive(Clone, Debug, PartialEq, Eq)]
pub enum ProcessOutcome {
    /// The subprocess exited before any of its lines signalled a failure.
    Completed,
    /// No subprocess was started.
    Skipped(SkipReason),
    /// A line held the given failure marker, and the subprocess was killed.
    Failed(String),
}

/// What a [`ProcessOutcome`] holds, the marker as a sequence of characters.
pub enum OutcomeModel {
    Completed,
    Skipped(SkipReason),
    Failed(Seq<char>),
}

impl View for ProcessOutcome {
    type V = OutcomeModel;

    open spec fn view(&self) -> OutcomeModel {
        match self {
            ProcessOutcome::Completed => OutcomeModel::Completed,
            ProcessOutcome::Skipped(reason) => OutcomeModel::Skipped(*reason),
            ProcessOutcome::Failed(marker) => OutcomeModel::Failed(marker@),
        }
    }
}

impl ProcessOutcome {
    /// A copy of the outcome.
    pub fn duplicate(&self) -> (r: ProcessOutcome)
        ensures
            r@ == self@,
    {
        match self {
            ProcessOutcome::Completed => ProcessOutcome::Completed,
            ProcessOutcome::Skipped(reason) => ProcessOutcome::Skipped(*reason),
            ProcessOutcome::Failed(marker) => ProcessOutcome::Failed(marker.clone()),
        }
    }
}

} // verus!
