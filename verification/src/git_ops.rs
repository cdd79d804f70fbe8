//! From a configuration and what was found on disk to a batch that is
//! ready to run, or to the reason why it does not run.

use crate::checkouts::{checkouts_of, find_checkouts, walk_models, WalkEntry, WalkEntryModel};
use crate::classifier::{standard_markers, Classifier};
use crate::dl_upd::{text_model, Config, ConfigModel};
use crate::executor::{start_of, Executor, ExecutorModel};
use crate::resolver::{
    list_file_models, lookup, lookup_of, read_repo_lists, repo_lists_of, ListFile, ListFileModel,
};
use crate::text::texts;
use crate::work::{
    item_models, Credentials, CredentialsModel, ExecutionMode, WorkItem, WorkItemModel, POOL_SIZE,
};
use vstd::prelude::*;

verus! {

/// The kind of a batch.
#[allow(non_camel_case_types)]
#[derive(Copy, Clone, Debug, PartialEq, Eq, Structural)]
pub enum GitMode {
    /// Fetch into every checkout under the source folder.
    FETCH,
    /// Clone every repository that the list files name.
    CLONE,
}

/// What a batch runs with: the configuration with a default in place of
/// every field that was left out.
#[derive(Clone, Debug, PartialEq, Eq)]
pub struct Settings {
    pub src_folder: String,
    pub files_to_read: Vec<String>,
    pub credentials: Credentials,
    pub async_exec: bool,
}

/// What a [`Settings`] holds, as sequences.
pub struct SettingsModel {
    pub src_folder: Seq<char>,
    pub files_to_read: Seq<Seq<char>>,
    pub credentials: CredentialsModel,
    pub async_exec: bool,
}

impl View for Settings {
    type V = SettingsModel;

    open spec fn view(&self) -> SettingsModel {
        SettingsModel {
            src_folder: self.src_folder@,
            files_to_read: texts(self.files_to_read@),
            credentials: self.credentials@,
            async_exec: self.async_exec,
        }
    }
}

/// `text` where it is there, else `default`.
pub open spec fn text_or(text: Option<Seq<char>>, default: Seq<char>) -> Seq<char> {
    match text {
        Some(text) => text,
        None => default,
    }
}

/// The settings that a configuration stands for. Left out, the source
/// folder is the empty path, the list files are none, the user name is
/// `git`, the password and the askpass program are `pass`, and execution is
/// synchronous.
pub open spec fn settings_of(conf: ConfigModel) -> SettingsModel {
    SettingsModel {
        src_folder: text_or(conf.src_folder, Seq::empty()),
        files_to_read: match conf.files_to_read {
            Some(files) => files,
            None => Seq::empty(),
        },
        credentials: CredentialsModel {
            username: text_or(conf.git_username, "git"@),
            password: text_or(conf.git_password, "pass"@),
            ssh_askpass_program: text_or(conf.ssh_askpass, "pass"@),
        },
        async_exec: match conf.async_exec {
            Some(async_exec) => async_exec,
            None => false,
        },
    }
}

/// `text` where it is there, else `default`.
fn or_default(text: Option<String>, default: &str) -> (r: String)
    ensures
        r@ == text_or(text_model(text), default@),
{
    match text {
        Some(text) => text,
        None => default.to_owned(),
    }
}

impl Settings {
    /// The settings that a configuration stands for.
    pub fn from_config(conf: Config) -> (r: Settings)
        ensures
            r@ == settings_of(conf@),
    {
        let files_to_read = match conf.files_to_read {
            Some(files) => files,
            None => {
                let none: Vec<String> = Vec::new();
                assert(texts(none@) =~= Seq::<Seq<char>>::empty());
                none
            },
        };
        Settings {
            src_folder: match conf.src_folder {
                Some(folder) => folder,
                None => String::new(),
            },
            files_to_read,
            credentials: Credentials {
                username: or_default(conf.git_username, "git"),
                password: or_default(conf.git_password, "pass"),
                ssh_askpass_program: or_default(conf.ssh_askpass, "pass"),
            },
            async_exec: match conf.async_exec {
                Some(async_exec) => async_exec,
                None => false,
            },
        }
    }
}

/// What the caller found on disk before the batch.
#[derive(Clone, Debug, PartialEq, Eq)]
pub struct Snapshot {
    /// Whether the source folder exists.
    pub source_root_exists: bool,
    /// What was found of the declared list files. A declared file that is
    /// not among them counts as missing.
    pub list_files: Vec<ListFile>,
    /// The entries of a recursive walk of the source folder, in the order
    /// of the walk.
    pub walk: Vec<WalkEntry>,
}

/// What a [`Snapshot`] holds, as sequences.
pub struct SnapshotModel {
    pub source_root_exists: bool,
    pub list_files: Seq<ListFileModel>,
    pub walk: Seq<WalkEntryModel>,
}

impl View for Snapshot {
    type V = SnapshotModel;

    open spec fn view(&self) -> SnapshotModel {
        SnapshotModel {
            source_root_exists: self.source_root_exists,
            list_files: list_file_models(self.list_files@),
            walk: walk_models(self.walk@),
        }
    }
}

/// Why a batch does not run.
#[derive(Clone, Debug, PartialEq, Eq)]
pub enum AbortReason {
    /// The source folder does not exist.
    SourceRootMissing,
    /// The given declared list files are no regular files.
    ListFilesMissing(Vec<String>),
}

/// What comes of a configuration: a batch that is ready to run, or the
/// reason why none is.
#[derive(Clone, Debug)]
pub enum Launch {
    Aborted(AbortReason),
    Ready(Executor),
}

/// Whether a declared list file is a regular file, as far as was found.
pub open spec fn is_listed_file(files: Seq<ListFileModel>, path: Seq<char>) -> bool {
    match lookup_of(files, path) {
        Some(file) => file.is_file,
        None => false,
    }
}

/// The declared list files that are no regular files, in the order of the
/// declaration.
pub open spec fn missing_of(declared: Seq<Seq<char>>, files: Seq<ListFileModel>) -> Seq<
    Seq<char>,
>
    decreases declared.len(),
{
    if declared.len() == 0 {
        Seq::empty()
    } else {
        let before = missing_of(declared.drop_last(), files);
        if is_listed_file(files, declared.last()) {
            before
        } else {
            before.push(declared.last())
        }
    }
}

/// The items of the batch that the settings and the snapshot give: for a
/// clone, what the declared list files name; for a fetch, the checkouts of
/// the walk.
pub open spec fn batch_items(
    settings: SettingsModel,
    mode: GitMode,
    snapshot: SnapshotModel,
) -> Seq<WorkItemModel> {
    match mode {
        GitMode::CLONE => repo_lists_of(
            settings.src_folder,
            settings.files_to_read,
            snapshot.list_files,
        ),
        GitMode::FETCH => checkouts_of(snapshot.walk),
    }
}

/// The pool size of a run: [`POOL_SIZE`] for asynchronous execution, one
/// for synchronous.
pub open spec fn capacity_of(async_exec: bool) -> nat {
    if async_exec {
        POOL_SIZE as nat
    } else {
        1
    }
}

/// The state that the run of a batch starts in: every item queued.
pub open spec fn initial_state(
    items: Seq<WorkItemModel>,
    credentials: CredentialsModel,
    async_exec: bool,
) -> ExecutorModel {
    start_of(items, credentials, standard_markers(), capacity_of(async_exec))
}

/// Whether `launch` is what comes of `conf` for a batch of kind `mode`,
/// given what was found on disk:
/// - without the source folder, no batch, whatever the kind;
/// - for a clone, with a declared list file that is no regular file, no
///   batch, and all such files are named;
/// - else the batch of the resolved items, none of them taken up yet.
pub open spec fn launches(
    launch: Launch,
    conf: ConfigModel,
    mode: GitMode,
    snapshot: SnapshotModel,
) -> bool {
    let settings = settings_of(conf);
    let missing = missing_of(settings.files_to_read, snapshot.list_files);
    if !snapshot.source_root_exists {
        launch matches Launch::Aborted(AbortReason::SourceRootMissing)
    } else if mode == GitMode::CLONE && missing.len() > 0 {
        launch matches Launch::Aborted(AbortReason::ListFilesMissing(named)) && texts(named@)
            == missing
    } else {
        launch matches Launch::Ready(executor) && executor.wf() && executor@ == initial_state(
            batch_items(settings, mode, snapshot),
            settings.credentials,
            settings.async_exec,
        )
    }
}

/// The declared list files that are no regular files.
pub fn missing_list_files(fl: &Vec<String>, files: &Vec<ListFile>) -> (r: Vec<String>)
    ensures
        texts(r@) == missing_of(texts(fl@), list_file_models(files@)),
{
    let ghost declared = texts(fl@);
    let ghost found = list_file_models(files@);
    let mut out: Vec<String> = Vec::new();
    let mut k: usize = 0;
    while k < fl.len()
        invariant
            k <= fl@.len(),
            declared == texts(fl@),
            found == list_file_models(files@),
            texts(out@) == missing_of(declared.take(k as int), found),
        decreases fl@.len() - k,
    {
        proof {
            assert(declared.take(k + 1).drop_last() == declared.take(k as int));
        }
        let is_file = match lookup(files, fl[k].as_str()) {
            Some(file) => file.is_file,
            None => false,
        };
        if !is_file {
            out.push(fl[k].clone());
        }
        k = k + 1;
    }
    proof {
        assert(declared.take(k as int) == declared);
    }
    out
}

/// The batch of `items`, run with the given credentials, asynchronously or
/// not, under the fixed vocabulary of failure markers.
fn batch_of(items: Vec<WorkItem>, credentials: Credentials, ae: bool) -> (r: Executor)
    ensures
        r.wf(),
        r@ == initial_state(item_models(items@), credentials@, ae),
{
    let capacity = ExecutionMode::from_async(ae).capacity();
    Executor::with_capacity(items, capacity, credentials, Classifier::standard())
}

/// Prepares the clone of the repositories `rp` with the user name `gu`,
/// the password `gp` and the askpass program `sa`, asynchronously where
/// `ae` says so.
pub fn clone_repos(gu: String, gp: String, sa: String, ae: bool, rp: Vec<WorkItem>) -> (r: Executor)
    ensures
        r.wf(),
        r@ == initial_state(
            item_models(rp@),
            CredentialsModel { username: gu@, password: gp@, ssh_askpass_program: sa@ },
            ae,
        ),
{
    batch_of(rp, Credentials { username: gu, password: gp, ssh_askpass_program: sa }, ae)
}

/// Prepares the fetch into every checkout that the walk of the source
/// folder came by, with the user name `gu`, the password `gp` and the
/// askpass program `sa`, asynchronously where `ae` says so.
pub fn walk_fetch(walk: &Vec<WalkEntry>, gu: String, gp: String, sa: String, ae: bool) -> (r:
    Executor)
    ensures
        r.wf(),
        r@ == initial_state(
            checkouts_of(walk_models(walk@)),
            CredentialsModel { username: gu@, password: gp@, ssh_askpass_program: sa@ },
            ae,
        ),
{
    let items = find_checkouts(walk);
    batch_of(items, Credentials { username: gu, password: gp, ssh_askpass_program: sa }, ae)
}

/// Checks the configuration against what was found on disk, with a default
/// in place of every field that was left out, and prepares the batch.
pub fn git_config_and_run(conf: Config, mode: GitMode, snapshot: &Snapshot) -> (launch: Launch)
    ensures
        launches(launch, conf@, mode, snapshot@),
        !snapshot.source_root_exists ==> launch matches Launch::Aborted(
            AbortReason::SourceRootMissing,
        ),
{
    let settings = Settings::from_config(conf);
    if !snapshot.source_root_exists {
        return Launch::Aborted(AbortReason::SourceRootMissing);
    }
    let Settings { src_folder, files_to_read, credentials, async_exec } = settings;
    let Credentials { username, password, ssh_askpass_program } = credentials;
    match mode {
        GitMode::CLONE => {
            let missing = missing_list_files(&files_to_read, &snapshot.list_files);
            if missing.len() > 0 {
                return Launch::Aborted(AbortReason::ListFilesMissing(missing));
            }
            let repos = read_repo_lists(src_folder.as_str(), &files_to_read, &snapshot.list_files);
            Launch::Ready(clone_repos(username, password, ssh_askpass_program, async_exec, repos))
        },
        GitMode::FETCH => {
            Launch::Ready(
                walk_fetch(&snapshot.walk, username, password, ssh_askpass_program, async_exec),
            )
        },
    }
}

} // verus!
