//! The checkouts under a source folder: from the entries of a recursive
//! walk to the fetches of a batch.

use crate::paths::{file_name_of, metadata_dir_name, names_metadata_dir, parent, parent_of};
use crate::work::{item_models, WorkItem, WorkItemModel};
use vstd::prelude::*;

verus! {

/// One entry of a recursive walk of a directory.
#[derive(Clone, Debug, PartialEq, Eq)]
pub enum WalkEntry {
    /// The walk came to `path`, which is a directory or not.
    Found { path: String, is_dir: bool },
    /// The walk could not read an entry.
    Failed,
}

/// What a [`WalkEntry`] holds, the path as a sequence of characters.
pub enum WalkEntryModel {
    Found { path: Seq<char>, is_dir: bool },
    Failed,
}

impl View for WalkEntry {
    type V = WalkEntryModel;

    open spec fn view(&self) -> WalkEntryModel {
        match self {
            WalkEntry::Found { path, is_dir } => WalkEntryModel::Found {
                path: path@,
                is_dir: *is_dir,
            },
            WalkEntry::Failed => WalkEntryModel::Failed,
        }
    }
}

/// The models of the entries of a walk, in the same order.
pub open spec fn walk_models(walk: Seq<WalkEntry>) -> Seq<WalkEntryModel> {
    Seq::new(walk.len(), |i: int| walk[i]@)
}

/// The work item that an entry of a walk gives: for a directory named
/// `.git`, the fetch into the directory that holds it; for anything else,
/// and for an entry that could not be read, none.
pub open spec fn checkout_of(entry: WalkEntryModel) -> Option<WorkItemModel> {
    match entry {
        WalkEntryModel::Found { path, is_dir } => if is_dir && file_name_of(path)
            == metadata_dir_name() {
            Some(WorkItemModel::Fetch { local_checkout_path: parent_of(path) })
        } else {
            None
        },
        WalkEntryModel::Failed => None,
    }
}

/// The fetches that a walk gives, in the order of the walk.
pub open spec fn checkouts_of(walk: Seq<WalkEntryModel>) -> Seq<WorkItemModel>
    decreases walk.len(),
{
    if walk.len() == 0 {
        Seq::empty()
    } else {
        let before = checkouts_of(walk.drop_last());
        match checkout_of(walk.last()) {
            Some(item) => before.push(item),
            None => before,
        }
    }
}

/// The fetch that an entry of a walk gives, if it marks a checkout.
pub fn checkout(entry: &WalkEntry) -> (r: Option<WorkItem>)
    ensures
        match r {
            Some(item) => checkout_of(entry@) == Some(item@),
            None => checkout_of(entry@).is_none(),
        },
{
    match entry {
        WalkEntry::Found { path, is_dir } => {
            if *is_dir && names_metadata_dir(path.as_str()) {
                Some(WorkItem::Fetch { local_checkout_path: parent(path.as_str()) })
            } else {
                None
            }
        },
        WalkEntry::Failed => None,
    }
}

/// The fetches that a walk gives, in the order of the walk.
pub fn find_checkouts(walk: &Vec<WalkEntry>) -> (r: Vec<WorkItem>)
    ensures
        item_models(r@) == checkouts_of(walk_models(walk@)),
{
    let ghost all = walk_models(walk@);
    let mut out: Vec<WorkItem> = Vec::new();
    let mut k: usize = 0;
    while k < walk.len()
        invariant
            k <= walk@.len(),
            all == walk_models(walk@),
            item_models(out@) == checkouts_of(all.take(k as int)),
        decreases walk@.len() - k,
    {
        proof {
            assert(all.take(k + 1).drop_last() == all.take(k as int));
        }
        match checkout(&walk[k]) {
            Some(item) => out.push(item),
            None => {},
        }
        k = k + 1;
    }
    proof {
        assert(all.take(k as int) == all);
    }
    out
}

} // verus!
