//! What carrying out a plan does: to the listing of the root, and to what the
//! files hold.

use vstd::prelude::*;
use crate::layout::{key_record, shard_of, value_record};
use crate::listing::{find_shard, NodeView};
use crate::plan::{insert_steps, remove_steps, ActionView, InsertPlanView, RemovePlanView};

verus! {

/// The names of a directory once a file called `name` has been written in it.
pub open spec fn with_name(entries: Seq<Seq<char>>, name: Seq<char>) -> Seq<Seq<char>> {
    if entries.contains(name) {
        entries
    } else {
        entries.push(name)
    }
}

/// The names of a directory once the file called `name` has been deleted from it.
pub open spec fn without_name(entries: Seq<Seq<char>>, name: Seq<char>) -> Seq<Seq<char>> {
    if entries.contains(name) {
        entries.remove(entries.index_of(name))
    } else {
        entries
    }
}

/// The names of a shard directory once both records of an entry are written.
pub open spec fn with_entry(entries: Seq<Seq<char>>, hash: Seq<char>) -> Seq<Seq<char>> {
    with_name(with_name(entries, key_record(hash)), value_record(hash))
}

/// The names of a shard directory once both records of an entry are deleted.
pub open spec fn without_entry(entries: Seq<Seq<char>>, hash: Seq<char>) -> Seq<Seq<char>> {
    without_name(without_name(entries, key_record(hash)), value_record(hash))
}

/// What a listing shows once the two records of the entry with digest `hash`
/// are written, as an insert plan with that digest and that `make_shard` has
/// it: in a new shard directory at the end, or in the existing one.
pub open spec fn after_insert(tree: Seq<NodeView>, hash: Seq<char>, make_shard: bool) -> Seq<
    NodeView,
> {
    let shard = shard_of(hash);
    if make_shard {
        tree.push(
            NodeView { name: shard, is_dir: true, entries: with_entry(Seq::empty(), hash) },
        )
    } else {
        match find_shard(tree, shard) {
            Some(i) => tree.update(
                i,
                NodeView {
                    name: tree[i].name,
                    is_dir: true,
                    entries: with_entry(tree[i].entries, hash),
                },
            ),
            None => tree,
        }
    }
}

/// What a listing shows once the two records of the entry with digest `hash`
/// are deleted, as a removal plan with that digest and that `prune` has it:
/// the shard directory without them, or no shard directory where it is pruned.
pub open spec fn after_remove(tree: Seq<NodeView>, hash: Seq<char>, prune: bool) -> Seq<NodeView> {
    match find_shard(tree, shard_of(hash)) {
        Some(i) => if prune {
            tree.remove(i)
        } else {
            tree.update(
                i,
                NodeView {
                    name: tree[i].name,
                    is_dir: true,
                    entries: without_entry(tree[i].entries, hash),
                },
            )
        },
        None => tree,
    }
}

/// What the files hold, by path, once one action has been carried out: a
/// write sets the text at its path, a deletion takes the path away, and the
/// other actions leave every file as it is.
pub open spec fn run_step(files: Map<Seq<char>, Seq<char>>, step: ActionView) -> Map<
    Seq<char>,
    Seq<char>,
> {
    match step {
        ActionView::WriteFile { path, text } => files.insert(path, text),
        ActionView::RemoveFile { path } => files.remove(path),
        _ => files,
    }
}

/// What the files hold, by path, once the actions have been carried out in
/// order.
pub open spec fn run_steps(files: Map<Seq<char>, Seq<char>>, steps: Seq<ActionView>) -> Map<
    Seq<char>,
    Seq<char>,
>
    decreases steps.len(),
{
    if steps.len() == 0 {
        files
    } else {
        run_step(run_steps(files, steps.drop_last()), steps.last())
    }
}

/// What the files hold, by path, once an insert plan has been carried out.
pub open spec fn files_after_insert(
    files: Map<Seq<char>, Seq<char>>,
    plan: InsertPlanView,
) -> Map<Seq<char>, Seq<char>> {
    run_steps(files, insert_steps(plan))
}

/// What the files hold, by path, once a removal plan has been carried out.
pub open spec fn files_after_remove(
    files: Map<Seq<char>, Seq<char>>,
    plan: RemovePlanView,
) -> Map<Seq<char>, Seq<char>> {
    run_steps(files, remove_steps(plan))
}

} // verus!
