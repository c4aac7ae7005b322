//! Facts about record names, counts and shard search that the laws rest on.

use vstd::prelude::*;
use crate::layout::{is_key_record, key_record, key_suffix, shard_of, value_record, value_suffix};
use crate::listing::{
    count_keys,
    find_shard,
    holds_only,
    is_shard,
    key_records,
    lemma_find_shard,
    lemma_find_shard_at,
    node_keys,
    well_formed,
    NodeView,
};
use crate::effect::{
    after_insert,
    after_remove,
    files_after_insert,
    files_after_remove,
    run_step,
    run_steps,
    with_entry,
    with_name,
    without_entry,
    without_name,
};
use crate::plan::{
    insert_steps,
    remove_steps,
    shard_entries,
    ActionView,
    InsertPlanView,
    RemovePlanView,
};

verus! {

/// A key-record name ends in the key extension; a value-record name does not.
pub proof fn lemma_record_kinds(hash: Seq<char>)
    ensures
        is_key_record(key_record(hash)),
        !is_key_record(value_record(hash)),
{
    let k = key_record(hash);
    assert(k.subrange(k.len() - 4, k.len() as int) =~= key_suffix());
    let v = value_record(hash);
    let tail = v.subrange(v.len() - 4, v.len() as int);
    assert(tail[0] == v[v.len() - 4]);
    assert(v[v.len() - 4] == value_suffix()[2]);
    assert(key_suffix()[0] == '.');
}

/// No key-record shares its name with a value-record, and two digests share a
/// record name only if they are the same digest.
pub proof fn lemma_record_names(a: Seq<char>, b: Seq<char>)
    ensures
        key_record(a) != value_record(b),
        key_record(a) == key_record(b) ==> a == b,
        value_record(a) == value_record(b) ==> a == b,
{
    assert(key_record(a).last() == 'y');
    assert(value_record(b).last() == 'e');
    if key_record(a) == key_record(b) {
        assert(a.len() + 4 == b.len() + 4);
        assert(key_record(a).subrange(0, a.len() as int) =~= a);
        assert(key_record(b).subrange(0, b.len() as int) =~= b);
    }
    if value_record(a) == value_record(b) {
        assert(a.len() + 6 == b.len() + 6);
        assert(value_record(a).subrange(0, a.len() as int) =~= a);
        assert(value_record(b).subrange(0, b.len() as int) =~= b);
    }
}

/// One more name adds one to the count exactly when it is a key-record name.
pub proof fn lemma_count_keys_push(entries: Seq<Seq<char>>, name: Seq<char>)
    ensures
        count_keys(entries.push(name)) == count_keys(entries) + if is_key_record(name) {
            1nat
        } else {
            0nat
        },
{
    assert(entries.push(name).drop_last() =~= entries);
}

/// One name less takes one from the count exactly when it is a key-record name.
pub proof fn lemma_count_keys_remove(entries: Seq<Seq<char>>, i: int)
    requires
        0 <= i < entries.len(),
    ensures
        count_keys(entries.remove(i)) + (if is_key_record(entries[i]) {
            1nat
        } else {
            0nat
        }) == count_keys(entries),
    decreases entries.len(),
{
    if i == entries.len() - 1 {
        assert(entries.remove(i) =~= entries.drop_last());
    } else {
        lemma_count_keys_remove(entries.drop_last(), i);
        assert(entries.remove(i).drop_last() =~= entries.drop_last().remove(i));
        assert(entries.remove(i).last() == entries.last());
    }
}

/// A node added at the end adds what it holds.
pub proof fn lemma_key_records_push(tree: Seq<NodeView>, node: NodeView)
    ensures
        key_records(tree.push(node)) == key_records(tree) + node_keys(node),
{
    assert(tree.push(node).drop_last() =~= tree);
}

/// A node replaced changes the total by the difference between the two.
pub proof fn lemma_key_records_update(tree: Seq<NodeView>, i: int, node: NodeView)
    requires
        0 <= i < tree.len(),
    ensures
        key_records(tree.update(i, node)) + node_keys(tree[i]) == key_records(tree) + node_keys(
            node,
        ),
    decreases tree.len(),
{
    if i == tree.len() - 1 {
        assert(tree.update(i, node).drop_last() =~= tree.drop_last());
    } else {
        lemma_key_records_update(tree.drop_last(), i, node);
        assert(tree.update(i, node).drop_last() =~= tree.drop_last().update(i, node));
    }
}

/// A node taken out takes what it holds from the total.
pub proof fn lemma_key_records_remove(tree: Seq<NodeView>, i: int)
    requires
        0 <= i < tree.len(),
    ensures
        key_records(tree.remove(i)) + node_keys(tree[i]) == key_records(tree),
    decreases tree.len(),
{
    if i == tree.len() - 1 {
        assert(tree.remove(i) =~= tree.drop_last());
    } else {
        lemma_key_records_remove(tree.drop_last(), i);
        assert(tree.remove(i).drop_last() =~= tree.drop_last().remove(i));
        assert(tree.remove(i).last() == tree.last());
    }
}

/// Replacing a node by one of the same name and kind moves no shard.
pub proof fn lemma_find_shard_update(tree: Seq<NodeView>, i: int, node: NodeView, shard: Seq<char>)
    requires
        0 <= i < tree.len(),
        node.name == tree[i].name,
        node.is_dir == tree[i].is_dir,
    ensures
        find_shard(tree.update(i, node), shard) == find_shard(tree, shard),
{
    let changed = tree.update(i, node);
    lemma_find_shard(tree, shard);
    lemma_find_shard(changed, shard);
    assert(forall|j: int|
        0 <= j < tree.len() ==> is_shard(#[trigger] changed[j], shard) == is_shard(tree[j], shard));
    match find_shard(tree, shard) {
        Some(a) => {
            assert(is_shard(changed[a], shard));
            match find_shard(changed, shard) {
                Some(b) => {
                    assert(is_shard(tree[b], shard));
                    if a < b {
                        assert(!is_shard(changed[a], shard));
                    }
                    if b < a {
                        assert(!is_shard(tree[b], shard));
                    }
                },
                None => {},
            }
        },
        None => {
            match find_shard(changed, shard) {
                Some(b) => {
                    assert(is_shard(tree[b], shard));
                },
                None => {},
            }
        },
    }
}

/// A directory added at the end is found under its own name if no directory
/// bore that name, and moves no other shard.
pub proof fn lemma_find_shard_push(tree: Seq<NodeView>, node: NodeView, shard: Seq<char>)
    requires
        node.is_dir,
        find_shard(tree, node.name) is None,
    ensures
        find_shard(tree.push(node), shard) == if shard == node.name {
            Some(tree.len() as int)
        } else {
            find_shard(tree, shard)
        },
{
    assert(tree.push(node).drop_last() =~= tree);
}

/// Writing a file adds its name to those listed and nothing else, keeps the
/// names distinct, and counts one more key-record exactly when the name is new
/// and a key-record name.
pub proof fn lemma_with_name(entries: Seq<Seq<char>>, name: Seq<char>)
    ensures
        forall|x: Seq<char>| #[trigger]
            with_name(entries, name).contains(x) <==> entries.contains(x) || x == name,
        entries.no_duplicates() ==> with_name(entries, name).no_duplicates(),
        count_keys(with_name(entries, name)) == count_keys(entries) + if !entries.contains(name)
            && is_key_record(name) {
            1nat
        } else {
            0nat
        },
{
    let after = with_name(entries, name);
    if !entries.contains(name) {
        lemma_count_keys_push(entries, name);
        assert(after[entries.len() as int] == name);
        assert forall|x: Seq<char>| #[trigger]
            after.contains(x) <==> entries.contains(x) || x == name by {
            if entries.contains(x) {
                let i = entries.index_of(x);
                assert(after[i] == x);
            }
        }
    }
}

/// Deleting a file from a directory of distinct names takes its name from
/// those listed and nothing else, keeps the names distinct, and counts one
/// key-record less exactly when the name was listed and a key-record name.
pub proof fn lemma_without_name(entries: Seq<Seq<char>>, name: Seq<char>)
    requires
        entries.no_duplicates(),
    ensures
        forall|x: Seq<char>| #[trigger]
            without_name(entries, name).contains(x) <==> entries.contains(x) && x != name,
        without_name(entries, name).no_duplicates(),
        count_keys(without_name(entries, name)) + (if entries.contains(name) && is_key_record(
            name,
        ) {
            1nat
        } else {
            0nat
        }) == count_keys(entries),
{
    let after = without_name(entries, name);
    if entries.contains(name) {
        let at = entries.index_of(name);
        lemma_count_keys_remove(entries, at);
        assert(forall|j: int| 0 <= j < at ==> after[j] == entries[j]);
        assert(forall|j: int| at <= j < after.len() ==> after[j] == entries[j + 1]);
        assert forall|x: Seq<char>| #[trigger]
            after.contains(x) <==> entries.contains(x) && x != name by {
            if after.contains(x) {
                let j = after.index_of(x);
                if j < at {
                    assert(entries[j] == x);
                } else {
                    assert(entries[j + 1] == x);
                }
            }
            if entries.contains(x) && x != name {
                let j = entries.index_of(x);
                if j < at {
                    assert(after[j] == x);
                } else {
                    assert(after[j - 1] == x);
                }
            }
        }
    } else {
        assert forall|x: Seq<char>| #[trigger]
            after.contains(x) <==> entries.contains(x) && x != name by {}
    }
}

/// Writing both records of an entry lists them beside what was listed, keeps
/// the names distinct, and counts one more key-record exactly when the
/// key-record is new.
pub proof fn lemma_with_entry(entries: Seq<Seq<char>>, hash: Seq<char>)
    ensures
        forall|x: Seq<char>| #[trigger]
            with_entry(entries, hash).contains(x) <==> entries.contains(x) || x == key_record(hash)
                || x == value_record(hash),
        entries.no_duplicates() ==> with_entry(entries, hash).no_duplicates(),
        count_keys(with_entry(entries, hash)) == count_keys(entries) + if entries.contains(
            key_record(hash),
        ) {
            0nat
        } else {
            1nat
        },
{
    let keyed = with_name(entries, key_record(hash));
    lemma_record_kinds(hash);
    lemma_with_name(entries, key_record(hash));
    lemma_with_name(keyed, value_record(hash));
}

/// Deleting both records of an entry from a directory of distinct names lists
/// what was listed but them, keeps the names distinct, counts one key-record
/// less exactly when the key-record was listed, and leaves the directory empty
/// exactly when it held nothing else.
pub proof fn lemma_without_entry(entries: Seq<Seq<char>>, hash: Seq<char>)
    requires
        entries.no_duplicates(),
    ensures
        forall|x: Seq<char>| #[trigger]
            without_entry(entries, hash).contains(x) <==> entries.contains(x) && x != key_record(
                hash,
            ) && x != value_record(hash),
        without_entry(entries, hash).no_duplicates(),
        count_keys(without_entry(entries, hash)) + (if entries.contains(key_record(hash)) {
            1nat
        } else {
            0nat
        }) == count_keys(entries),
        holds_only(entries, key_record(hash), value_record(hash)) <==> without_entry(
            entries,
            hash,
        ).len() == 0,
{
    let k = key_record(hash);
    let v = value_record(hash);
    let unkeyed = without_name(entries, k);
    let after = without_entry(entries, hash);
    lemma_record_kinds(hash);
    lemma_without_name(entries, k);
    lemma_without_name(unkeyed, v);
    if holds_only(entries, k, v) {
        if after.len() > 0 {
            assert(after.contains(after[0]));
            let i = entries.index_of(after[0]);
            assert(entries[i] == k || entries[i] == v);
        }
    } else {
        let i = choose|i: int| 0 <= i < entries.len() && !(entries[i] == k || entries[i] == v);
        assert(entries.contains(entries[i]));
        assert(after.contains(entries[i]));
    }
}

/// Taking a directory out of a well-formed listing leaves no shard of its
/// name, leaves every other shard with the names it had, and leaves the
/// listing well-formed.
pub proof fn lemma_shard_entries_remove(tree: Seq<NodeView>, i: int, shard: Seq<char>)
    requires
        well_formed(tree),
        0 <= i < tree.len(),
        tree[i].is_dir,
    ensures
        shard_entries(tree.remove(i), shard) == if shard == tree[i].name {
            None
        } else {
            shard_entries(tree, shard)
        },
        well_formed(tree.remove(i)),
{
    let rest = tree.remove(i);
    assert(forall|j: int| 0 <= j < i ==> #[trigger] rest[j] == tree[j]);
    assert(forall|j: int| i <= j < rest.len() ==> #[trigger] rest[j] == tree[j + 1]);
    lemma_find_shard(tree, shard);
    lemma_find_shard(rest, shard);
    match find_shard(rest, shard) {
        Some(b) => {
            let from = if b < i {
                b
            } else {
                b + 1
            };
            assert(rest[b] == tree[from]);
            assert(is_shard(tree[from], shard));
            if shard == tree[i].name {
                assert(tree[from].is_dir && tree[i].is_dir);
                assert(false);
            } else {
                assert forall|j: int| 0 <= j < from implies !is_shard(#[trigger] tree[j], shard) by {
                    if j < i {
                        assert(rest[j] == tree[j]);
                    } else if j > i {
                        assert(rest[j - 1] == tree[j]);
                    }
                }
                lemma_find_shard_at(tree, shard, from);
            }
        },
        None => {
            if shard != tree[i].name {
                match find_shard(tree, shard) {
                    Some(a) => {
                        let to = if a < i {
                            a
                        } else {
                            a - 1
                        };
                        assert(rest[to] == tree[a]);
                        assert(false);
                    },
                    None => {},
                }
            }
        },
    }
    assert forall|a: int, b: int|
        0 <= a < b < rest.len() && (#[trigger] rest[a]).is_dir && (#[trigger] rest[b]).is_dir
        implies rest[a].name != rest[b].name by {
        let from_a = if a < i {
            a
        } else {
            a + 1
        };
        let from_b = if b < i {
            b
        } else {
            b + 1
        };
        assert(rest[a] == tree[from_a]);
        assert(rest[b] == tree[from_b]);
    }
    assert forall|a: int| 0 <= a < rest.len() implies (#[trigger] rest[a]).entries.no_duplicates() by {
        let from_a = if a < i {
            a
        } else {
            a + 1
        };
        assert(rest[a] == tree[from_a]);
    }
}

/// What carrying out an insert does to a listing: the shard of the digest
/// holds the two records beside what it held, every other shard holds what it
/// held, one more key-record is counted exactly when the key-record is new, and
/// a well-formed listing stays well-formed.
pub proof fn lemma_after_insert(tree: Seq<NodeView>, hash: Seq<char>)
    ensures
        ({
            let shard = shard_of(hash);
            let held = match shard_entries(tree, shard) {
                Some(entries) => entries,
                None => Seq::empty(),
            };
            let after = after_insert(tree, hash, shard_entries(tree, shard) is None);
            &&& shard_entries(after, shard) == Some(with_entry(held, hash))
            &&& forall|other: Seq<char>|
                other != shard ==> #[trigger] shard_entries(after, other) == shard_entries(
                    tree,
                    other,
                )
            &&& key_records(after) == key_records(tree) + if held.contains(key_record(hash)) {
                0nat
            } else {
                1nat
            }
            &&& well_formed(tree) ==> well_formed(after)
        }),
{
    let shard = shard_of(hash);
    lemma_find_shard(tree, shard);
    match find_shard(tree, shard) {
        Some(i) => {
            let held = tree[i].entries;
            let node = NodeView { name: tree[i].name, is_dir: true, entries: with_entry(held, hash) };
            let after = tree.update(i, node);
            assert(after == after_insert(tree, hash, false));
            lemma_with_entry(held, hash);
            lemma_key_records_update(tree, i, node);
            assert forall|other: Seq<char>| #[trigger]
                shard_entries(after, other) == if other == shard {
                    Some(with_entry(held, hash))
                } else {
                    shard_entries(tree, other)
                } by {
                lemma_find_shard_update(tree, i, node, other);
                lemma_find_shard(tree, other);
            }
            assert(shard_entries(after, shard) == Some(with_entry(held, hash)));
        },
        None => {
            let held = Seq::<Seq<char>>::empty();
            let node = NodeView { name: shard, is_dir: true, entries: with_entry(held, hash) };
            let after = tree.push(node);
            assert(after == after_insert(tree, hash, true));
            lemma_with_entry(held, hash);
            lemma_key_records_push(tree, node);
            assert(count_keys(held) == 0);
            assert(!held.contains(key_record(hash)));
            assert forall|other: Seq<char>| #[trigger]
                shard_entries(after, other) == if other == shard {
                    Some(with_entry(held, hash))
                } else {
                    shard_entries(tree, other)
                } by {
                lemma_find_shard_push(tree, node, other);
                lemma_find_shard(tree, other);
            }
            assert(shard_entries(after, shard) == Some(with_entry(held, hash)));
        },
    }
}

/// What carrying out a removal does to a well-formed listing that shows the
/// shard of the digest: the shard is gone where it held nothing but the two
/// records and else holds what it held but them, every other shard holds what
/// it held, one key-record less is counted exactly when the key-record was
/// listed, and the listing stays well-formed.
pub proof fn lemma_after_remove(tree: Seq<NodeView>, hash: Seq<char>)
    requires
        well_formed(tree),
        shard_entries(tree, shard_of(hash)) is Some,
    ensures
        ({
            let shard = shard_of(hash);
            let held = shard_entries(tree, shard)->0;
            let prune = holds_only(held, key_record(hash), value_record(hash));
            let after = after_remove(tree, hash, prune);
            &&& shard_entries(after, shard) == if prune {
                None
            } else {
                Some(without_entry(held, hash))
            }
            &&& forall|other: Seq<char>|
                other != shard ==> #[trigger] shard_entries(after, other) == shard_entries(
                    tree,
                    other,
                )
            &&& key_records(after) + (if held.contains(key_record(hash)) {
                1nat
            } else {
                0nat
            }) == key_records(tree)
            &&& well_formed(after)
        }),
{
    let shard = shard_of(hash);
    lemma_find_shard(tree, shard);
    let i = find_shard(tree, shard)->0;
    let held = tree[i].entries;
    let prune = holds_only(held, key_record(hash), value_record(hash));
    let after = after_remove(tree, hash, prune);
    lemma_without_entry(held, hash);
    if prune {
        assert(after == tree.remove(i));
        lemma_key_records_remove(tree, i);
        assert(count_keys(without_entry(held, hash)) == 0);
        assert forall|other: Seq<char>| #[trigger]
            shard_entries(after, other) == if other == shard {
                None
            } else {
                shard_entries(tree, other)
            } by {
            lemma_shard_entries_remove(tree, i, other);
        }
        lemma_shard_entries_remove(tree, i, shard);
        assert(shard_entries(after, shard) is None);
    } else {
        let node = NodeView { name: tree[i].name, is_dir: true, entries: without_entry(held, hash) };
        assert(after == tree.update(i, node));
        lemma_key_records_update(tree, i, node);
        assert forall|other: Seq<char>| #[trigger]
            shard_entries(after, other) == if other == shard {
                Some(without_entry(held, hash))
            } else {
                shard_entries(tree, other)
            } by {
            lemma_find_shard_update(tree, i, node, other);
            lemma_find_shard(tree, other);
        }
        assert(shard_entries(after, shard) == Some(without_entry(held, hash)));
    }
}

/// Running a sequence with one more action at the end is running the
/// sequence and then that action.
pub proof fn lemma_run_steps_push(
    files: Map<Seq<char>, Seq<char>>,
    steps: Seq<ActionView>,
    step: ActionView,
)
    ensures
        run_steps(files, steps.push(step)) == run_step(run_steps(files, steps), step),
{
    assert(steps.push(step).drop_last() =~= steps);
}

/// Carrying out an insert plan leaves the files as they were but for the two
/// records, which hold the key text and the value text.
pub proof fn lemma_files_after_insert(files: Map<Seq<char>, Seq<char>>, plan: InsertPlanView)
    ensures
        files_after_insert(files, plan) == files.insert(plan.key_path, plan.key_text).insert(
            plan.value_path,
            plan.value_text,
        ),
{
    let none = Seq::<ActionView>::empty();
    let make = ActionView::CreateDir { path: plan.shard_path };
    let key = ActionView::WriteFile { path: plan.key_path, text: plan.key_text };
    let value = ActionView::WriteFile { path: plan.value_path, text: plan.value_text };
    if plan.make_shard {
        assert(insert_steps(plan) =~= none.push(make).push(key).push(value));
        lemma_run_steps_push(files, none, make);
        lemma_run_steps_push(files, none.push(make), key);
        lemma_run_steps_push(files, none.push(make).push(key), value);
    } else {
        assert(insert_steps(plan) =~= none.push(key).push(value));
        lemma_run_steps_push(files, none, key);
        lemma_run_steps_push(files, none.push(key), value);
    }
}

/// Carrying out a removal plan leaves the files as they were but for the two
/// records, which are gone.
pub proof fn lemma_files_after_remove(files: Map<Seq<char>, Seq<char>>, plan: RemovePlanView)
    ensures
        files_after_remove(files, plan) == files.remove(plan.key_path).remove(plan.value_path),
{
    let none = Seq::<ActionView>::empty();
    let read = ActionView::ReadFile { path: plan.value_path };
    let key = ActionView::RemoveFile { path: plan.key_path };
    let value = ActionView::RemoveFile { path: plan.value_path };
    let prune = ActionView::RemoveDir { path: plan.shard_path };
    lemma_run_steps_push(files, none, read);
    lemma_run_steps_push(files, none.push(read), key);
    lemma_run_steps_push(files, none.push(read).push(key), value);
    if plan.prune {
        assert(remove_steps(plan) =~= none.push(read).push(key).push(value).push(prune));
        lemma_run_steps_push(files, none.push(read).push(key).push(value), prune);
    } else {
        assert(remove_steps(plan) =~= none.push(read).push(key).push(value));
    }
}

/// Two directories of distinct names that list the same names count the same
/// number of key-records, in whatever order each lists them.
pub proof fn lemma_count_keys_same_names(a: Seq<Seq<char>>, b: Seq<Seq<char>>)
    requires
        a.no_duplicates(),
        b.no_duplicates(),
        forall|x: Seq<char>| a.contains(x) <==> b.contains(x),
    ensures
        count_keys(a) == count_keys(b),
    decreases a.len(),
{
    if a.len() == 0 {
        if b.len() > 0 {
            assert(b.contains(b[0]));
            assert(a.contains(b[0]));
        }
    } else {
        let name = a.last();
        let at = a.len() - 1;
        assert(a.contains(name)) by {
            assert(a[at] == name);
        }
        let rest_a = without_name(a, name);
        let rest_b = without_name(b, name);
        lemma_without_name(a, name);
        lemma_without_name(b, name);
        assert(rest_a.len() < a.len()) by {
            let i = a.index_of(name);
            assert(rest_a == a.remove(i));
        }
        assert forall|x: Seq<char>| rest_a.contains(x) <==> rest_b.contains(x) by {}
        lemma_count_keys_same_names(rest_a, rest_b);
    }
}

/// A listing without directories holds no key-records.
pub proof fn lemma_key_records_without_dirs(tree: Seq<NodeView>)
    requires
        forall|i: int| 0 <= i < tree.len() ==> !(#[trigger] tree[i]).is_dir,
    ensures
        key_records(tree) == 0,
    decreases tree.len(),
{
    if tree.len() > 0 {
        let front = tree.drop_last();
        assert(forall|i: int| 0 <= i < front.len() ==> front[i] == tree[i]);
        lemma_key_records_without_dirs(front);
    }
}

/// Taking a node that is no directory out of a listing moves no shard and
/// leaves a well-formed listing well-formed.
pub proof fn lemma_shard_entries_remove_file(tree: Seq<NodeView>, i: int, shard: Seq<char>)
    requires
        0 <= i < tree.len(),
        !tree[i].is_dir,
    ensures
        shard_entries(tree.remove(i), shard) == shard_entries(tree, shard),
        well_formed(tree) ==> well_formed(tree.remove(i)),
        key_records(tree.remove(i)) == key_records(tree),
{
    let rest = tree.remove(i);
    assert(forall|j: int| 0 <= j < i ==> #[trigger] rest[j] == tree[j]);
    assert(forall|j: int| i <= j < rest.len() ==> #[trigger] rest[j] == tree[j + 1]);
    lemma_find_shard(tree, shard);
    lemma_find_shard(rest, shard);
    lemma_key_records_remove(tree, i);
    match find_shard(tree, shard) {
        Some(a) => {
            let to = if a < i {
                a
            } else {
                a - 1
            };
            assert(rest[to] == tree[a]);
            assert forall|j: int| 0 <= j < to implies !is_shard(#[trigger] rest[j], shard) by {
                if j < i {
                    assert(rest[j] == tree[j]);
                } else {
                    assert(rest[j] == tree[j + 1]);
                }
            }
            lemma_find_shard_at(rest, shard, to);
        },
        None => {
            match find_shard(rest, shard) {
                Some(b) => {
                    let from = if b < i {
                        b
                    } else {
                        b + 1
                    };
                    assert(rest[b] == tree[from]);
                    assert(false);
                },
                None => {},
            }
        },
    }
    if well_formed(tree) {
        assert forall|a: int, b: int|
            0 <= a < b < rest.len() && (#[trigger] rest[a]).is_dir && (#[trigger] rest[b]).is_dir
            implies rest[a].name != rest[b].name by {
            let from_a = if a < i {
                a
            } else {
                a + 1
            };
            let from_b = if b < i {
                b
            } else {
                b + 1
            };
            assert(rest[a] == tree[from_a]);
            assert(rest[b] == tree[from_b]);
        }
        assert forall|a: int| 0 <= a < rest.len() implies (#[trigger] rest[a]).entries.no_duplicates() by {
            let from_a = if a < i {
                a
            } else {
                a + 1
            };
            assert(rest[a] == tree[from_a]);
        }
    }
}

} // verus!
