//! The configuration of a batch: what the configuration file declares, and
//! the entry points that turn it into a run.

use crate::git_ops::{git_config_and_run, launches, GitMode, Launch, Snapshot};
use crate::text::texts;
use vstd::prelude::*;

verus! {

/// What the configuration file declares. Every field may be left out.
#[derive(Clone, Debug, PartialEq, Eq)]
pub struct Config {
    pub config_path: Option<String>,
    pub src_folder: Option<String>,
    pub files_to_read: Option<Vec<String>>,
    pub git_username: Option<String>,
    pub git_password: Option<String>,
    pub ssh_askpass: Option<String>,
    pub async_exec: Option<bool>,
}

/// What a [`Config`] holds, as sequences.
pub struct ConfigModel {
    pub config_path: Option<Seq<char>>,
    pub src_folder: Option<Seq<char>>,
    pub files_to_read: Option<Seq<Seq<char>>>,
    pub git_username: Option<Seq<char>>,
    pub git_password: Option<Seq<char>>,
    pub ssh_askpass: Option<Seq<char>>,
    pub async_exec: Option<bool>,
}

/// The view of a text that may be left out.
pub open spec fn text_model(text: Option<String>) -> Option<Seq<char>> {
    match text {
        Some(text) => Some(text@),
        None => None,
    }
}

impl View for Config {
    type V = ConfigModel;

    open spec fn view(&self) -> ConfigModel {
        ConfigModel {
            config_path: text_model(self.config_path),
            src_folder: text_model(self.src_folder),
            files_to_read: match self.files_to_read {
                Some(files) => Some(texts(files@)),
                None => None,
            },
            git_username: text_model(self.git_username),
            git_password: text_model(self.git_password),
            ssh_askpass: text_model(self.ssh_askpass),
            async_exec: self.async_exec,
        }
    }
}

/// The configuration before any file was read: every field present and
/// empty, synchronous execution.
pub open spec fn empty_config() -> ConfigModel {
    ConfigModel {
        config_path: Some(Seq::empty()),
        src_folder: Some(Seq::empty()),
        files_to_read: Some(Seq::empty()),
        git_username: Some(Seq::empty()),
        git_password: Some(Seq::empty()),
        ssh_askpass: Some(Seq::empty()),
        async_exec: Some(false),
    }
}

/// What the configuration file at `config_path` declared: `loaded`, with
/// the path of the file itself in place of what the file says of it.
pub open spec fn located(config_path: Seq<char>, loaded: ConfigModel) -> ConfigModel {
    ConfigModel { config_path: Some(config_path), ..loaded }
}

impl Default for Config {
    fn default() -> (r: Config)
        ensures
            r@ == empty_config(),
    {
        let r = Config {
            config_path: Some(String::new()),
            src_folder: Some(String::new()),
            files_to_read: Some(Vec::new()),
            git_username: Some(String::new()),
            git_password: Some(String::new()),
            ssh_askpass: Some(String::new()),
            async_exec: Some(false),
        };
        assert(r@.files_to_read == Some(Seq::<Seq<char>>::empty()));
        r
    }
}

/// A copy of a text that may be left out.
fn copy_text(text: &Option<String>) -> (r: Option<String>)
    ensures
        text_model(r) == text_model(*text),
{
    match text {
        Some(text) => Some(text.clone()),
        None => None,
    }
}

/// A copy of a list of texts.
fn copy_texts(list: &Vec<String>) -> (r: Vec<String>)
    ensures
        texts(r@) == texts(list@),
{
    let mut out: Vec<String> = Vec::new();
    let mut k: usize = 0;
    while k < list.len()
        invariant
            k <= list@.len(),
            out@.len() == k,
            forall|j: int| 0 <= j < k ==> (#[trigger] out@[j])@ == list@[j]@,
        decreases list@.len() - k,
    {
        out.push(list[k].clone());
        k = k + 1;
    }
    out
}

/// Reads the stored configuration: a copy of it, to hand on.
pub fn get_config(store: &Config) -> (r: Config)
    ensures
        r@ == store@,
{
    Config {
        config_path: copy_text(&store.config_path),
        src_folder: copy_text(&store.src_folder),
        files_to_read: match &store.files_to_read {
            Some(files) => Some(copy_texts(files)),
            None => None,
        },
        git_username: copy_text(&store.git_username),
        git_password: copy_text(&store.git_password),
        ssh_askpass: copy_text(&store.ssh_askpass),
        async_exec: store.async_exec,
    }
}

/// Stores what the configuration file at `config_path` declared.
pub fn update_config(store: &mut Config, config_path: &str, loaded: Config)
    ensures
        final(store)@ == located(config_path@, loaded@),
{
    store.config_path = Some(config_path.to_owned());
    store.src_folder = loaded.src_folder;
    store.files_to_read = loaded.files_to_read;
    store.git_username = loaded.git_username;
    store.git_password = loaded.git_password;
    store.ssh_askpass = loaded.ssh_askpass;
    store.async_exec = loaded.async_exec;
}

/// Stores what the configuration file at `config_path` declared, and
/// prepares the fetch into every checkout under its source folder.
pub fn update_directories(
    store: &mut Config,
    config_path: &str,
    loaded: Config,
    snapshot: &Snapshot,
) -> (launch: Launch)
    ensures
        final(store)@ == located(config_path@, loaded@),
        launches(launch, located(config_path@, loaded@), GitMode::FETCH, snapshot@),
{
    update_config(store, config_path, loaded);
    let conf = get_config(store);
    git_config_and_run(conf, GitMode::FETCH, snapshot)
}

/// Stores what the configuration file at `config_path` declared, and
/// prepares the clone of every repository that its list files name.
pub fn download_repos(
    store: &mut Config,
    config_path: &str,
    loaded: Config,
    snapshot: &Snapshot,
) -> (launch: Launch)
    ensures
        final(store)@ == located(config_path@, loaded@),
        launches(launch, located(config_path@, loaded@), GitMode::CLONE, snapshot@),
{
    update_config(store, config_path, loaded);
    let conf = get_config(store);
    git_config_and_run(conf, GitMode::CLONE, snapshot)
}

} // verus!
