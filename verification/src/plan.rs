//! What each operation decides: the error it reports, or the file-system
//! actions it calls for.

use vstd::prelude::*;
use crate::layout::{key_path, key_record, shard_dir, shard_of, value_path, value_record};
use crate::listing::{find_shard, holds_only, NodeView};

verus! {

/// Why an operation changes nothing.
#[derive(Clone, Copy, Debug, PartialEq, Eq, Structural)]
pub enum StoreError {
    /// An insert met a key that already has a live entry.
    AlreadyExists,
    /// A lookup or a removal met a key that has no stored value.
    NotFound,
}

/// One action on the file system.
#[derive(Clone, Debug, PartialEq, Eq)]
pub enum Action {
    /// Create the directory at `path`.
    CreateDir { path: String },
    /// Write `text` to the file at `path`, creating or replacing it.
    WriteFile { path: String, text: String },
    /// Read the text of the file at `path`.
    ReadFile { path: String },
    /// Delete the file at `path`.
    RemoveFile { path: String },
    /// Remove the empty directory at `path`.
    RemoveDir { path: String },
}

/// The mathematical content of an [`Action`].
pub enum ActionView {
    CreateDir { path: Seq<char> },
    WriteFile { path: Seq<char>, text: Seq<char> },
    ReadFile { path: Seq<char> },
    RemoveFile { path: Seq<char> },
    RemoveDir { path: Seq<char> },
}

impl DeepView for Action {
    type V = ActionView;

    open spec fn deep_view(&self) -> ActionView {
        match self {
            Action::CreateDir { path } => ActionView::CreateDir { path: path@ },
            Action::WriteFile { path, text } => ActionView::WriteFile { path: path@, text: text@ },
            Action::ReadFile { path } => ActionView::ReadFile { path: path@ },
            Action::RemoveFile { path } => ActionView::RemoveFile { path: path@ },
            Action::RemoveDir { path } => ActionView::RemoveDir { path: path@ },
        }
    }
}

/// What an insert calls for.
#[derive(Clone, Debug, PartialEq, Eq)]
pub struct InsertPlan {
    /// The digest of the serialized key.
    pub hash: String,
    /// Whether the shard directory is missing and has to be created first.
    pub make_shard: bool,
    /// The path of the shard directory.
    pub shard_path: String,
    /// The path of the key-record, written before the value-record.
    pub key_path: String,
    /// What the key-record holds: the serialized key.
    pub key_text: String,
    /// The path of the value-record, written last.
    pub value_path: String,
    /// What the value-record holds: the serialized value.
    pub value_text: String,
}

/// The mathematical content of an [`InsertPlan`].
pub struct InsertPlanView {
    pub hash: Seq<char>,
    pub make_shard: bool,
    pub shard_path: Seq<char>,
    pub key_path: Seq<char>,
    pub key_text: Seq<char>,
    pub value_path: Seq<char>,
    pub value_text: Seq<char>,
}

impl DeepView for InsertPlan {
    type V = InsertPlanView;

    open spec fn deep_view(&self) -> InsertPlanView {
        InsertPlanView {
            hash: self.hash@,
            make_shard: self.make_shard,
            shard_path: self.shard_path@,
            key_path: self.key_path@,
            key_text: self.key_text@,
            value_path: self.value_path@,
            value_text: self.value_text@,
        }
    }
}

/// What a removal calls for.
#[derive(Clone, Debug, PartialEq, Eq)]
pub struct RemovePlan {
    /// The digest of the serialized key.
    pub hash: String,
    /// The path of the value-record: read first, deleted after the key-record.
    pub value_path: String,
    /// The path of the key-record, deleted once the value has been read.
    pub key_path: String,
    /// Whether the shard directory holds nothing else and is removed at the end.
    pub prune: bool,
    /// The path of the shard directory.
    pub shard_path: String,
}

/// The mathematical content of a [`RemovePlan`].
pub struct RemovePlanView {
    pub hash: Seq<char>,
    pub value_path: Seq<char>,
    pub key_path: Seq<char>,
    pub prune: bool,
    pub shard_path: Seq<char>,
}

impl DeepView for RemovePlan {
    type V = RemovePlanView;

    open spec fn deep_view(&self) -> RemovePlanView {
        RemovePlanView {
            hash: self.hash@,
            value_path: self.value_path@,
            key_path: self.key_path@,
            prune: self.prune,
            shard_path: self.shard_path@,
        }
    }
}

/// The actions of an insert plan in the order in which they are carried out:
/// the shard directory is created where it is missing, then the key-record is
/// written, then the value-record.
pub open spec fn insert_steps(plan: InsertPlanView) -> Seq<ActionView> {
    let writes = seq![
        ActionView::WriteFile { path: plan.key_path, text: plan.key_text },
        ActionView::WriteFile { path: plan.value_path, text: plan.value_text },
    ];
    if plan.make_shard {
        seq![ActionView::CreateDir { path: plan.shard_path }] + writes
    } else {
        writes
    }
}

/// The actions of a removal plan in the order in which they are carried out:
/// the value is read before anything is deleted, then the key-record is
/// deleted, then the value-record, and last the shard directory where it is
/// left empty.
pub open spec fn remove_steps(plan: RemovePlanView) -> Seq<ActionView> {
    let deletes = seq![
        ActionView::ReadFile { path: plan.value_path },
        ActionView::RemoveFile { path: plan.key_path },
        ActionView::RemoveFile { path: plan.value_path },
    ];
    if plan.prune {
        deletes + seq![ActionView::RemoveDir { path: plan.shard_path }]
    } else {
        deletes
    }
}

impl InsertPlan {
    /// The actions to carry out, in order.
    pub fn steps(&self) -> (steps: Vec<Action>)
        ensures
            steps.deep_view() == insert_steps(self.deep_view()),
    {
        let mut steps: Vec<Action> = Vec::new();
        if self.make_shard {
            steps.push(Action::CreateDir { path: self.shard_path.clone() });
        }
        steps.push(Action::WriteFile { path: self.key_path.clone(), text: self.key_text.clone() });
        steps.push(
            Action::WriteFile { path: self.value_path.clone(), text: self.value_text.clone() },
        );
        assert(steps.deep_view() =~= insert_steps(self.deep_view()));
        steps
    }
}

impl RemovePlan {
    /// The actions to carry out, in order.
    pub fn steps(&self) -> (steps: Vec<Action>)
        ensures
            steps.deep_view() == remove_steps(self.deep_view()),
    {
        let mut steps: Vec<Action> = Vec::new();
        steps.push(Action::ReadFile { path: self.value_path.clone() });
        steps.push(Action::RemoveFile { path: self.key_path.clone() });
        steps.push(Action::RemoveFile { path: self.value_path.clone() });
        if self.prune {
            steps.push(Action::RemoveDir { path: self.shard_path.clone() });
        }
        assert(steps.deep_view() =~= remove_steps(self.deep_view()));
        steps
    }
}

/// The names inside the shard directory `shard`, if the listing shows one.
pub open spec fn shard_entries(tree: Seq<NodeView>, shard: Seq<char>) -> Option<Seq<Seq<char>>> {
    match find_shard(tree, shard) {
        Some(i) => Some(tree[i].entries),
        None => None,
    }
}

/// True when the listing shows the key-record of the entry with this digest:
/// the entry is live.
pub open spec fn is_live(tree: Seq<NodeView>, hash: Seq<char>) -> bool {
    match shard_entries(tree, shard_of(hash)) {
        Some(entries) => entries.contains(key_record(hash)),
        None => false,
    }
}

/// True when the listing shows the value-record of the entry with this digest:
/// there is a value to read.
pub open spec fn is_readable(tree: Seq<NodeView>, hash: Seq<char>) -> bool {
    match shard_entries(tree, shard_of(hash)) {
        Some(entries) => entries.contains(value_record(hash)),
        None => false,
    }
}

/// The plan of an insert below `root`, given what the listing shows.
pub open spec fn insert_plan(
    root: Seq<char>,
    tree: Seq<NodeView>,
    hash: Seq<char>,
    key: Seq<char>,
    value: Seq<char>,
) -> InsertPlanView {
    InsertPlanView {
        hash,
        make_shard: find_shard(tree, shard_of(hash)) is None,
        shard_path: shard_dir(root, hash),
        key_path: key_path(root, hash),
        key_text: key,
        value_path: value_path(root, hash),
        value_text: value,
    }
}

/// What an insert decides: a live entry is never overwritten, anything else is
/// written.
pub open spec fn insert_outcome(
    root: Seq<char>,
    tree: Seq<NodeView>,
    hash: Seq<char>,
    key: Seq<char>,
    value: Seq<char>,
) -> Result<InsertPlanView, StoreError> {
    if is_live(tree, hash) {
        Err(StoreError::AlreadyExists)
    } else {
        Ok(insert_plan(root, tree, hash, key, value))
    }
}

/// What a lookup decides: the path of the value-record to read, or that there
/// is none.
pub open spec fn lookup_outcome(root: Seq<char>, tree: Seq<NodeView>, hash: Seq<char>) -> Result<
    Seq<char>,
    StoreError,
> {
    if is_readable(tree, hash) {
        Ok(value_path(root, hash))
    } else {
        Err(StoreError::NotFound)
    }
}

/// The plan of a removal below `root`, given what the listing shows.
pub open spec fn remove_plan(root: Seq<char>, tree: Seq<NodeView>, hash: Seq<char>) -> RemovePlanView {
    RemovePlanView {
        hash,
        value_path: value_path(root, hash),
        key_path: key_path(root, hash),
        prune: match shard_entries(tree, shard_of(hash)) {
            Some(entries) => holds_only(entries, key_record(hash), value_record(hash)),
            None => false,
        },
        shard_path: shard_dir(root, hash),
    }
}

/// What a removal decides: an entry is located as a lookup locates it.
pub open spec fn remove_outcome(root: Seq<char>, tree: Seq<NodeView>, hash: Seq<char>) -> Result<
    RemovePlanView,
    StoreError,
> {
    if is_readable(tree, hash) {
        Ok(remove_plan(root, tree, hash))
    } else {
        Err(StoreError::NotFound)
    }
}

} // verus!
