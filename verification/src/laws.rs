//! What holds of the store across operations, stated over listings and proved.

use vstd::prelude::*;
use crate::layout::{key_path, key_record, shard_of, value_path, value_record};
use crate::lemmas::{
    lemma_after_insert,
    lemma_after_remove,
    lemma_count_keys_same_names,
    lemma_key_records_remove,
    lemma_key_records_without_dirs,
    lemma_shard_entries_remove,
    lemma_shard_entries_remove_file,
    lemma_files_after_insert,
    lemma_files_after_remove,
    lemma_record_names,
    lemma_with_entry,
    lemma_without_entry,
};
use crate::listing::{
    find_shard,
    holds_only,
    is_shard,
    key_records,
    lemma_find_shard,
    lemma_find_shard_at,
    well_formed,
    NodeView,
};
use crate::effect::{
    after_insert,
    after_remove,
    files_after_insert,
    files_after_remove,
    with_entry,
};
use crate::plan::{
    insert_outcome,
    insert_plan,
    is_live,
    is_readable,
    lookup_outcome,
    remove_outcome,
    remove_plan,
    shard_entries,
    InsertPlanView,
    RemovePlanView,
    StoreError,
};

verus! {

/// What a listing shows once an insert of the entry with digest `hash` has
/// been decided on it and carried out: nothing new where the insert is refused.
pub open spec fn insert_step(tree: Seq<NodeView>, hash: Seq<char>) -> Seq<NodeView> {
    if is_live(tree, hash) {
        tree
    } else {
        after_insert(tree, hash, shard_entries(tree, shard_of(hash)) is None)
    }
}

/// What a listing shows once the entries with the given digests have been
/// inserted one after the other.
pub open spec fn after_inserts(tree: Seq<NodeView>, hashes: Seq<Seq<char>>) -> Seq<NodeView>
    decreases hashes.len(),
{
    if hashes.len() == 0 {
        tree
    } else {
        insert_step(after_inserts(tree, hashes.drop_last()), hashes.last())
    }
}

/// True when the shard of the digest is missing or holds nothing but the two
/// records of the entry.
pub open spec fn shard_holds_nothing_else(tree: Seq<NodeView>, hash: Seq<char>) -> bool {
    match shard_entries(tree, shard_of(hash)) {
        Some(entries) => holds_only(entries, key_record(hash), value_record(hash)),
        None => true,
    }
}

/// A listing in which only the directories named `shard` keep their contents.
pub open spec fn narrowed(tree: Seq<NodeView>, shard: Seq<char>) -> Seq<NodeView> {
    Seq::new(
        tree.len(),
        |i: int|
            if is_shard(tree[i], shard) {
                tree[i]
            } else {
                NodeView { name: tree[i].name, is_dir: tree[i].is_dir, entries: Seq::empty() }
            },
    )
}

/// A decision about a key reads one shard directory: with the contents of
/// every other directory left out of the listing, an insert, a lookup and a
/// removal are decided as on the full listing.
pub proof fn law_decisions_read_one_shard(
    root: Seq<char>,
    tree: Seq<NodeView>,
    hash: Seq<char>,
    key: Seq<char>,
    value: Seq<char>,
)
    ensures
        ({
            let narrow = narrowed(tree, shard_of(hash));
            &&& insert_outcome(root, narrow, hash, key, value) == insert_outcome(
                root,
                tree,
                hash,
                key,
                value,
            )
            &&& lookup_outcome(root, narrow, hash) == lookup_outcome(root, tree, hash)
            &&& remove_outcome(root, narrow, hash) == remove_outcome(root, tree, hash)
        }),
{
    let shard = shard_of(hash);
    let narrow = narrowed(tree, shard);
    lemma_find_shard(tree, shard);
    lemma_find_shard(narrow, shard);
    assert(forall|i: int|
        0 <= i < tree.len() ==> is_shard(#[trigger] narrow[i], shard) == is_shard(tree[i], shard));
    match find_shard(tree, shard) {
        Some(i) => {
            assert(narrow[i] == tree[i]);
            assert forall|j: int| 0 <= j < i implies !is_shard(#[trigger] narrow[j], shard) by {
                assert(!is_shard(tree[j], shard));
            }
            lemma_find_shard_at(narrow, shard, i);
        },
        None => {
            match find_shard(narrow, shard) {
                Some(j) => {
                    assert(is_shard(tree[j], shard));
                },
                None => {},
            }
        },
    }
}

/// True when two directories list the same names, in whatever order.
pub open spec fn same_names(a: Seq<Seq<char>>, b: Seq<Seq<char>>) -> bool {
    forall|x: Seq<char>| a.contains(x) <==> b.contains(x)
}

/// True when two listings show the same shard directories with the same names
/// in each, in whatever order either lists them.
pub open spec fn same_shards(one: Seq<NodeView>, two: Seq<NodeView>) -> bool {
    forall|shard: Seq<char>|
        match (#[trigger] shard_entries(one, shard), shard_entries(two, shard)) {
            (Some(a), Some(b)) => same_names(a, b),
            (None, None) => true,
            _ => false,
        }
}

/// The order of a listing is immaterial to a decision: on two listings that
/// show the same shard directories with the same names in each, an insert, a
/// lookup and a removal are decided alike.
pub proof fn law_decisions_ignore_order(
    root: Seq<char>,
    one: Seq<NodeView>,
    two: Seq<NodeView>,
    hash: Seq<char>,
    key: Seq<char>,
    value: Seq<char>,
)
    requires
        same_shards(one, two),
    ensures
        insert_outcome(root, one, hash, key, value) == insert_outcome(root, two, hash, key, value),
        lookup_outcome(root, one, hash) == lookup_outcome(root, two, hash),
        remove_outcome(root, one, hash) == remove_outcome(root, two, hash),
{
    let shard = shard_of(hash);
    let k = key_record(hash);
    let v = value_record(hash);
    match (shard_entries(one, shard), shard_entries(two, shard)) {
        (Some(a), Some(b)) => {
            assert(same_names(a, b));
            assert(a.contains(k) <==> b.contains(k));
            assert(a.contains(v) <==> b.contains(v));
            if holds_only(a, k, v) {
                assert forall|i: int| 0 <= i < b.len() implies #[trigger] b[i] == k || b[i]
                    == v by {
                    assert(b.contains(b[i]));
                    let j = a.index_of(b[i]);
                    assert(a[j] == k || a[j] == v);
                }
            }
            if holds_only(b, k, v) {
                assert forall|i: int| 0 <= i < a.len() implies #[trigger] a[i] == k || a[i]
                    == v by {
                    assert(a.contains(a[i]));
                    let j = b.index_of(a[i]);
                    assert(b[j] == k || b[j] == v);
                }
            }
        },
        _ => {},
    }
}

/// The order of a listing is immaterial to the size recovered from it: two
/// well-formed listings that show the same shard directories with the same
/// names in each hold the same number of key-records.
pub proof fn law_count_ignores_order(one: Seq<NodeView>, two: Seq<NodeView>)
    requires
        well_formed(one),
        well_formed(two),
        same_shards(one, two),
    ensures
        key_records(one) == key_records(two),
    decreases one.len(),
{
    if one.len() == 0 {
        assert forall|i: int| 0 <= i < two.len() implies !(#[trigger] two[i]).is_dir by {
            if two[i].is_dir {
                lemma_find_shard(two, two[i].name);
                assert(shard_entries(two, two[i].name) is Some);
                assert(shard_entries(one, two[i].name) is None);
            }
        }
        lemma_key_records_without_dirs(two);
    } else {
        let at = one.len() - 1;
        let node = one[at];
        let rest = one.remove(at);
        lemma_key_records_remove(one, at);
        if node.is_dir {
            let shard = node.name;
            lemma_find_shard(one, shard);
            assert(find_shard(one, shard) == Some(at)) by {
                let found = find_shard(one, shard)->0;
                if found < at {
                    assert(one[found].is_dir && one[at].is_dir);
                }
            }
            assert(shard_entries(one, shard) == Some(node.entries));
            lemma_find_shard(two, shard);
            let j = find_shard(two, shard)->0;
            assert(same_names(node.entries, two[j].entries));
            lemma_count_keys_same_names(node.entries, two[j].entries);
            lemma_key_records_remove(two, j);
            assert forall|other: Seq<char>|
                match (#[trigger] shard_entries(rest, other), shard_entries(two.remove(j), other)) {
                    (Some(a), Some(b)) => same_names(a, b),
                    (None, None) => true,
                    _ => false,
                } by {
                lemma_shard_entries_remove(one, at, other);
                lemma_shard_entries_remove(two, j, other);
            }
            lemma_shard_entries_remove(one, at, shard);
            lemma_shard_entries_remove(two, j, shard);
            law_count_ignores_order(rest, two.remove(j));
        } else {
            assert forall|other: Seq<char>|
                match (#[trigger] shard_entries(rest, other), shard_entries(two, other)) {
                    (Some(a), Some(b)) => same_names(a, b),
                    (None, None) => true,
                    _ => false,
                } by {
                lemma_shard_entries_remove_file(one, at, other);
            }
            lemma_shard_entries_remove_file(one, at, node.name);
            law_count_ignores_order(rest, two);
        }
    }
}

/// The two records of an entry have different paths, and the records of
/// entries with different digests have different paths.
pub proof fn law_paths_are_distinct(root: Seq<char>, a: Seq<char>, b: Seq<char>)
    ensures
        key_path(root, a) != value_path(root, b),
        a != b ==> key_path(root, a) != key_path(root, b),
        a != b ==> value_path(root, a) != value_path(root, b),
{
    assert(key_path(root, a).last() == 'y');
    assert(value_path(root, b).last() == 'e');
    let ka = key_path(root, a);
    let kb = key_path(root, b);
    if ka == kb {
        assert(ka.len() == root.len() + shard_of(a).len() + 1 + a.len() + 4);
        assert(kb.len() == root.len() + shard_of(b).len() + 1 + b.len() + 4);
        assert(a.len() == b.len());
        assert(ka.subrange(ka.len() - 4 - a.len(), ka.len() - 4) =~= a);
        assert(kb.subrange(kb.len() - 4 - b.len(), kb.len() - 4) =~= b);
    }
    let va = value_path(root, a);
    let vb = value_path(root, b);
    if va == vb {
        assert(va.len() == root.len() + shard_of(a).len() + 1 + a.len() + 6);
        assert(vb.len() == root.len() + shard_of(b).len() + 1 + b.len() + 6);
        assert(a.len() == b.len());
        assert(va.subrange(va.len() - 6 - a.len(), va.len() - 6) =~= a);
        assert(vb.subrange(vb.len() - 6 - b.len(), vb.len() - 6) =~= b);
    }
}

/// A key whose value-record the listing does not show is not found, by a
/// lookup and by a removal alike; in an empty listing that is every key.
pub proof fn law_absent_is_not_found(root: Seq<char>, tree: Seq<NodeView>, hash: Seq<char>)
    ensures
        !is_readable(tree, hash) ==> lookup_outcome(root, tree, hash) == Err::<
            Seq<char>,
            StoreError,
        >(StoreError::NotFound),
        !is_readable(tree, hash) ==> remove_outcome(root, tree, hash) == Err::<
            RemovePlanView,
            StoreError,
        >(StoreError::NotFound),
        !is_readable(Seq::<NodeView>::empty(), hash),
{
}

/// Carrying out an insert leaves every entry with another digest as it was:
/// live if it was live, readable if it was readable, whether or not the two
/// share a shard.
pub proof fn law_insert_leaves_others(tree: Seq<NodeView>, hash: Seq<char>, other: Seq<char>)
    requires
        other != hash,
    ensures
        is_live(insert_step(tree, hash), other) == is_live(tree, other),
        is_readable(insert_step(tree, hash), other) == is_readable(tree, other),
{
    if !is_live(tree, hash) {
        lemma_after_insert(tree, hash);
        lemma_record_names(other, hash);
        lemma_record_names(hash, other);
        if shard_of(other) == shard_of(hash) {
            let held = match shard_entries(tree, shard_of(hash)) {
                Some(entries) => entries,
                None => Seq::empty(),
            };
            lemma_with_entry(held, hash);
        }
    }
}

/// A key that was never inserted is not found: after any sequence of inserts
/// into a listing that does not show its value-record, a lookup and a removal
/// of a key with another digest than those inserted both report not found.
pub proof fn law_never_inserted_is_not_found(
    root: Seq<char>,
    tree: Seq<NodeView>,
    hashes: Seq<Seq<char>>,
    hash: Seq<char>,
)
    requires
        !is_readable(tree, hash),
        !hashes.contains(hash),
    ensures
        lookup_outcome(root, after_inserts(tree, hashes), hash) == Err::<Seq<char>, StoreError>(
            StoreError::NotFound,
        ),
        remove_outcome(root, after_inserts(tree, hashes), hash) == Err::<
            RemovePlanView,
            StoreError,
        >(StoreError::NotFound),
    decreases hashes.len(),
{
    if hashes.len() > 0 {
        let front = hashes.drop_last();
        assert(forall|i: int| 0 <= i < front.len() ==> front[i] == hashes[i]);
        law_never_inserted_is_not_found(root, tree, front, hash);
        assert(hashes.last() == hashes[hashes.len() - 1]);
        law_insert_leaves_others(after_inserts(tree, front), hashes.last(), hash);
    }
}

/// Insert, then lookup: once an accepted insert is carried out, a lookup of
/// the same key names the value-record that the insert wrote, that file holds
/// exactly the inserted value and the key-record exactly the key, and the
/// listing shows one key-record more.
pub proof fn law_insert_then_lookup(
    root: Seq<char>,
    tree: Seq<NodeView>,
    files: Map<Seq<char>, Seq<char>>,
    hash: Seq<char>,
    key: Seq<char>,
    value: Seq<char>,
    plan: InsertPlanView,
)
    requires
        insert_outcome(root, tree, hash, key, value) == Ok::<InsertPlanView, StoreError>(plan),
    ensures
        ({
            let stored = after_insert(tree, plan.hash, plan.make_shard);
            let held = files_after_insert(files, plan);
            &&& lookup_outcome(root, stored, hash) == Ok::<Seq<char>, StoreError>(plan.value_path)
            &&& held.contains_key(plan.value_path) && held[plan.value_path] == value
            &&& held.contains_key(plan.key_path) && held[plan.key_path] == key
            &&& is_live(stored, hash)
            &&& key_records(stored) == key_records(tree) + 1
            &&& well_formed(tree) ==> well_formed(stored)
        }),
{
    lemma_after_insert(tree, hash);
    let held = match shard_entries(tree, shard_of(hash)) {
        Some(entries) => entries,
        None => Seq::empty(),
    };
    lemma_with_entry(held, hash);
    law_paths_are_distinct(root, hash, hash);
    lemma_files_after_insert(files, plan);
}

/// Insert twice: once an accepted insert is carried out, a second insert of
/// the same key is refused as already existing, whatever value it brings, so
/// that nothing is written and the listing stays as it is.
pub proof fn law_insert_twice(
    root: Seq<char>,
    tree: Seq<NodeView>,
    hash: Seq<char>,
    key: Seq<char>,
    first: Seq<char>,
    second: Seq<char>,
    plan: InsertPlanView,
)
    requires
        insert_outcome(root, tree, hash, key, first) == Ok::<InsertPlanView, StoreError>(plan),
    ensures
        ({
            let stored = after_insert(tree, plan.hash, plan.make_shard);
            &&& insert_outcome(root, stored, hash, key, second) == Err::<
                InsertPlanView,
                StoreError,
            >(StoreError::AlreadyExists)
            &&& insert_step(stored, hash) == stored
        }),
{
    law_insert_then_lookup(root, tree, Map::empty(), hash, key, first, plan);
}

/// What carrying out an accepted removal does to a well-formed listing: the
/// key is neither live nor readable any more, one key-record less is counted
/// exactly when the entry was live, the shard directory is gone exactly when it
/// held nothing else and is otherwise not empty, both record files are gone,
/// and the listing stays well-formed.
pub proof fn law_remove(
    root: Seq<char>,
    tree: Seq<NodeView>,
    files: Map<Seq<char>, Seq<char>>,
    hash: Seq<char>,
    plan: RemovePlanView,
)
    requires
        well_formed(tree),
        remove_outcome(root, tree, hash) == Ok::<RemovePlanView, StoreError>(plan),
    ensures
        ({
            let after = after_remove(tree, plan.hash, plan.prune);
            let left = files_after_remove(files, plan);
            &&& !is_live(after, hash)
            &&& !is_readable(after, hash)
            &&& lookup_outcome(root, after, hash) == Err::<Seq<char>, StoreError>(
                StoreError::NotFound,
            )
            &&& key_records(after) + (if is_live(tree, hash) {
                1nat
            } else {
                0nat
            }) == key_records(tree)
            &&& plan.prune == shard_holds_nothing_else(tree, hash)
            &&& match shard_entries(after, shard_of(hash)) {
                Some(entries) => !plan.prune && entries.len() > 0,
                None => plan.prune,
            }
            &&& !left.contains_key(plan.key_path) && !left.contains_key(plan.value_path)
            &&& well_formed(after)
        }),
{
    lemma_after_remove(tree, hash);
    lemma_find_shard(tree, shard_of(hash));
    let held = shard_entries(tree, shard_of(hash))->0;
    lemma_without_entry(held, hash);
    lemma_files_after_remove(files, plan);
}

/// Carrying out a removal on a well-formed listing leaves every entry with
/// another digest as it was, whether or not the two share a shard.
pub proof fn law_remove_leaves_others(
    root: Seq<char>,
    tree: Seq<NodeView>,
    hash: Seq<char>,
    other: Seq<char>,
    plan: RemovePlanView,
)
    requires
        well_formed(tree),
        remove_outcome(root, tree, hash) == Ok::<RemovePlanView, StoreError>(plan),
        other != hash,
    ensures
        is_live(after_remove(tree, plan.hash, plan.prune), other) == is_live(tree, other),
        is_readable(after_remove(tree, plan.hash, plan.prune), other) == is_readable(tree, other),
{
    lemma_after_remove(tree, hash);
    lemma_record_names(other, hash);
    lemma_record_names(hash, other);
    lemma_find_shard(tree, shard_of(hash));
    let held = shard_entries(tree, shard_of(hash))->0;
    lemma_without_entry(held, hash);
    if shard_of(other) == shard_of(hash) && plan.prune {
        if held.contains(key_record(other)) {
            let i = held.index_of(key_record(other));
            assert(held[i] == key_record(hash) || held[i] == value_record(hash));
        }
        if held.contains(value_record(other)) {
            let i = held.index_of(value_record(other));
            assert(held[i] == key_record(hash) || held[i] == value_record(hash));
        }
    }
}

/// Insert, then remove: once an accepted insert into a well-formed listing is
/// carried out, a removal of the same key is accepted and reads the file that
/// holds exactly the inserted value; once that is carried out, a lookup and a
/// removal of the key report not found, both record files are gone, as many
/// key-records are counted as before the insert, and the shard directory is
/// gone exactly when it held no other entry.
pub proof fn law_insert_then_remove(
    root: Seq<char>,
    tree: Seq<NodeView>,
    files: Map<Seq<char>, Seq<char>>,
    hash: Seq<char>,
    key: Seq<char>,
    value: Seq<char>,
    plan: InsertPlanView,
)
    requires
        well_formed(tree),
        insert_outcome(root, tree, hash, key, value) == Ok::<InsertPlanView, StoreError>(plan),
    ensures
        ({
            let stored = after_insert(tree, plan.hash, plan.make_shard);
            let held = files_after_insert(files, plan);
            let removal = remove_plan(root, stored, hash);
            let after = after_remove(stored, removal.hash, removal.prune);
            let left = files_after_remove(held, removal);
            &&& remove_outcome(root, stored, hash) == Ok::<RemovePlanView, StoreError>(removal)
            &&& held.contains_key(removal.value_path) && held[removal.value_path] == value
            &&& lookup_outcome(root, after, hash) == Err::<Seq<char>, StoreError>(
                StoreError::NotFound,
            )
            &&& remove_outcome(root, after, hash) == Err::<RemovePlanView, StoreError>(
                StoreError::NotFound,
            )
            &&& !left.contains_key(removal.key_path) && !left.contains_key(removal.value_path)
            &&& key_records(after) == key_records(tree)
            &&& shard_entries(after, shard_of(hash)) is None <==> shard_holds_nothing_else(
                tree,
                hash,
            )
            &&& well_formed(after)
        }),
{
    let stored = after_insert(tree, plan.hash, plan.make_shard);
    law_insert_then_lookup(root, tree, files, hash, key, value, plan);
    let removal = remove_plan(root, stored, hash);
    law_remove(root, stored, files_after_insert(files, plan), hash, removal);
    lemma_after_insert(tree, hash);
    let before = match shard_entries(tree, shard_of(hash)) {
        Some(entries) => entries,
        None => Seq::empty(),
    };
    lemma_with_entry(before, hash);
    let during = with_entry(before, hash);
    let k = key_record(hash);
    let v = value_record(hash);
    if holds_only(before, k, v) {
        assert forall|i: int| 0 <= i < during.len() implies #[trigger] during[i] == k || during[i]
            == v by {
            assert(during.contains(during[i]));
            if before.contains(during[i]) {
                let j = before.index_of(during[i]);
                assert(before[j] == k || before[j] == v);
            }
        }
    } else {
        let j = choose|j: int| 0 <= j < before.len() && !(before[j] == k || before[j] == v);
        assert(before.contains(before[j]));
        assert(during.contains(before[j]));
        let i = during.index_of(before[j]);
        assert(!(during[i] == k || during[i] == v));
    }
}

/// Reopening counts what was inserted: after entries with pairwise different
/// digests, none of them live before, have been inserted one after the other,
/// the listing shows as many key-records more as there were inserts; from an
/// empty listing, exactly as many as there were inserts.
pub proof fn law_inserts_are_counted(tree: Seq<NodeView>, hashes: Seq<Seq<char>>)
    requires
        hashes.no_duplicates(),
        forall|i: int| 0 <= i < hashes.len() ==> !is_live(tree, #[trigger] hashes[i]),
    ensures
        key_records(after_inserts(tree, hashes)) == key_records(tree) + hashes.len(),
        forall|hash: Seq<char>|
            hashes.contains(hash) ==> #[trigger] is_live(after_inserts(tree, hashes), hash),
        forall|hash: Seq<char>|
            !hashes.contains(hash) ==> #[trigger] is_live(after_inserts(tree, hashes), hash)
                == is_live(tree, hash),
        well_formed(tree) ==> well_formed(after_inserts(tree, hashes)),
        tree.len() == 0 ==> key_records(after_inserts(tree, hashes)) == hashes.len(),
    decreases hashes.len(),
{
    if hashes.len() > 0 {
        let front = hashes.drop_last();
        let last = hashes.last();
        let before = after_inserts(tree, front);
        assert(forall|i: int| 0 <= i < front.len() ==> front[i] == hashes[i]);
        law_inserts_are_counted(tree, front);
        assert(!front.contains(last)) by {
            if front.contains(last) {
                let i = front.index_of(last);
                assert(hashes[i] == hashes[hashes.len() - 1]);
            }
        }
        assert(!is_live(tree, last)) by {
            assert(hashes[hashes.len() - 1] == last);
        }
        assert(!is_live(before, last));
        lemma_after_insert(before, last);
        let held = match shard_entries(before, shard_of(last)) {
            Some(entries) => entries,
            None => Seq::empty(),
        };
        lemma_with_entry(held, last);
        assert forall|hash: Seq<char>| hashes.contains(hash) implies #[trigger] is_live(
            after_inserts(tree, hashes),
            hash,
        ) by {
            if hash != last {
                let i = hashes.index_of(hash);
                assert(front[i] == hash);
                law_insert_leaves_others(before, last, hash);
            }
        }
        assert forall|hash: Seq<char>| !hashes.contains(hash) implies #[trigger] is_live(
            after_inserts(tree, hashes),
            hash,
        ) == is_live(tree, hash) by {
            assert(hashes[hashes.len() - 1] == last);
            if front.contains(hash) {
                let i = front.index_of(hash);
                assert(hashes[i] == hash);
            }
            law_insert_leaves_others(before, last, hash);
        }
    } else {
        assert(forall|hash: Seq<char>| !hashes.contains(hash));
    }
    if tree.len() == 0 {
        assert(key_records(tree) == 0);
    }
}

/// Two entries with different digests do not interfere, even where the digests
/// share their first ten characters and so their shard: in a well-formed
/// listing where neither is live, both inserts are accepted, both lookups then
/// name each entry's own value-record, the four record files have four
/// different paths, and once one entry is removed it is not found while the
/// other is still live and looked up as before.
pub proof fn law_entries_do_not_interfere(
    root: Seq<char>,
    tree: Seq<NodeView>,
    a: Seq<char>,
    b: Seq<char>,
)
    requires
        well_formed(tree),
        a != b,
        !is_live(tree, a),
        !is_live(tree, b),
    ensures
        ({
            let one = insert_step(tree, a);
            let both = insert_step(one, b);
            let removal = remove_plan(root, both, a);
            let rest = after_remove(both, removal.hash, removal.prune);
            &&& !is_live(one, b)
            &&& lookup_outcome(root, both, a) == Ok::<Seq<char>, StoreError>(value_path(root, a))
            &&& lookup_outcome(root, both, b) == Ok::<Seq<char>, StoreError>(value_path(root, b))
            &&& value_path(root, a) != value_path(root, b)
            &&& key_path(root, a) != key_path(root, b)
            &&& key_path(root, a) != value_path(root, b)
            &&& key_path(root, b) != value_path(root, a)
            &&& key_records(both) == key_records(tree) + 2
            &&& remove_outcome(root, both, a) == Ok::<RemovePlanView, StoreError>(removal)
            &&& lookup_outcome(root, rest, a) == Err::<Seq<char>, StoreError>(
                StoreError::NotFound,
            )
            &&& lookup_outcome(root, rest, b) == Ok::<Seq<char>, StoreError>(value_path(root, b))
            &&& is_live(rest, b)
            &&& key_records(rest) == key_records(tree) + 1
        }),
{
    let one = insert_step(tree, a);
    let both = insert_step(one, b);
    let text = Seq::<char>::empty();
    let files = Map::<Seq<char>, Seq<char>>::empty();
    law_paths_are_distinct(root, a, b);
    law_paths_are_distinct(root, b, a);
    let plan_a = insert_plan(root, tree, a, text, text);
    law_insert_then_lookup(root, tree, files, a, text, text, plan_a);
    law_insert_leaves_others(tree, a, b);
    let plan_b = insert_plan(root, one, b, text, text);
    law_insert_then_lookup(root, one, files, b, text, text, plan_b);
    law_insert_leaves_others(one, b, a);
    let removal = remove_plan(root, both, a);
    law_remove(root, both, files, a, removal);
    law_remove_leaves_others(root, both, a, b, removal);
}

} // verus!
