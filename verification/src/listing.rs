//! What a directory listing of the root says: the nodes directly below it, and
//! for each directory among them the names it holds.

use vstd::prelude::*;
use crate::layout::{has_key_suffix, is_key_record};

verus! {

/// One node directly below the root, as a listing reports it.
#[derive(Clone, Debug, PartialEq, Eq)]
pub struct Node {
    /// The node's file name, without any directory in front.
    pub name: String,
    /// Whether the node is a directory.
    pub is_dir: bool,
    /// The names found inside the node where it is a directory.
    pub entries: Vec<String>,
}

/// The mathematical content of a [`Node`].
pub struct NodeView {
    pub name: Seq<char>,
    pub is_dir: bool,
    pub entries: Seq<Seq<char>>,
}

impl DeepView for Node {
    type V = NodeView;

    open spec fn deep_view(&self) -> NodeView {
        NodeView {
            name: self.name@,
            is_dir: self.is_dir,
            entries: self.entries.deep_view(),
        }
    }
}

/// True of a directory that bears the name `shard`.
pub open spec fn is_shard(node: NodeView, shard: Seq<char>) -> bool {
    node.is_dir && node.name == shard
}

/// The position of the first directory named `shard`, if there is one.
pub open spec fn find_shard(tree: Seq<NodeView>, shard: Seq<char>) -> Option<int>
    decreases tree.len(),
{
    if tree.len() == 0 {
        None
    } else {
        match find_shard(tree.drop_last(), shard) {
            Some(i) => Some(i),
            None => if is_shard(tree.last(), shard) {
                Some(tree.len() - 1)
            } else {
                None
            },
        }
    }
}

/// How many of the names are key-record names.
pub open spec fn count_keys(entries: Seq<Seq<char>>) -> nat
    decreases entries.len(),
{
    if entries.len() == 0 {
        0
    } else {
        count_keys(entries.drop_last()) + if is_key_record(entries.last()) {
            1nat
        } else {
            0nat
        }
    }
}

/// How many key-records a single node contributes: none unless it is a directory.
pub open spec fn node_keys(node: NodeView) -> nat {
    if node.is_dir {
        count_keys(node.entries)
    } else {
        0
    }
}

/// The number of live entries: the key-records in the directories directly
/// below the root.
pub open spec fn key_records(tree: Seq<NodeView>) -> nat
    decreases tree.len(),
{
    if tree.len() == 0 {
        0
    } else {
        key_records(tree.drop_last()) + node_keys(tree.last())
    }
}

/// True when every name is one of the two given.
pub open spec fn holds_only(entries: Seq<Seq<char>>, a: Seq<char>, b: Seq<char>) -> bool {
    forall|i: int| 0 <= i < entries.len() ==> #[trigger] entries[i] == a || entries[i] == b
}

/// A listing as a file system can produce it: no two directories below the root
/// share a name, and no directory lists a name twice.
pub open spec fn well_formed(tree: Seq<NodeView>) -> bool {
    &&& forall|i: int, j: int|
        0 <= i < j < tree.len() && (#[trigger] tree[i]).is_dir && (#[trigger] tree[j]).is_dir
            ==> tree[i].name != tree[j].name
    &&& forall|i: int| 0 <= i < tree.len() ==> (#[trigger] tree[i]).entries.no_duplicates()
}

/// What [`find_shard`] finds: a directory of that name with none before it, or
/// nothing where no directory bears the name.
pub proof fn lemma_find_shard(tree: Seq<NodeView>, shard: Seq<char>)
    ensures
        match find_shard(tree, shard) {
            Some(i) => 0 <= i < tree.len() && is_shard(tree[i], shard) && forall|j: int|
                0 <= j < i ==> !is_shard(#[trigger] tree[j], shard),
            None => forall|j: int| 0 <= j < tree.len() ==> !is_shard(#[trigger] tree[j], shard),
        },
    decreases tree.len(),
{
    if tree.len() > 0 {
        let front = tree.drop_last();
        lemma_find_shard(front, shard);
        assert(forall|j: int| 0 <= j < front.len() ==> front[j] == tree[j]);
        match find_shard(front, shard) {
            Some(i) => {
                assert(front[i] == tree[i]);
            },
            None => {
                assert forall|j: int| 0 <= j < tree.len() - 1 implies !is_shard(
                    #[trigger] tree[j],
                    shard,
                ) by {
                    assert(front[j] == tree[j]);
                }
            },
        }
    }
}

/// A directory named `shard` with none before it is the one [`find_shard`] finds.
pub proof fn lemma_find_shard_at(tree: Seq<NodeView>, shard: Seq<char>, i: int)
    requires
        0 <= i < tree.len(),
        is_shard(tree[i], shard),
        forall|j: int| 0 <= j < i ==> !is_shard(#[trigger] tree[j], shard),
    ensures
        find_shard(tree, shard) == Some(i),
{
    lemma_find_shard(tree, shard);
}

/// The nodes at the front of a listing hold no more key-records than all of it.
pub proof fn lemma_key_records_prefix(tree: Seq<NodeView>, k: int)
    requires
        0 <= k <= tree.len(),
    ensures
        key_records(tree.take(k)) <= key_records(tree),
    decreases tree.len() - k,
{
    if k < tree.len() {
        lemma_key_records_prefix(tree, k + 1);
        assert(tree.take(k + 1).drop_last() =~= tree.take(k));
    } else {
        assert(tree.take(k) =~= tree);
    }
}

/// Counts the key-record names that a directory lists.
pub fn count_key_names(entries: &Vec<String>) -> (n: usize)
    ensures
        n == count_keys(entries.deep_view()),
{
    let ghost view = entries.deep_view();
    let mut n: usize = 0;
    let mut i: usize = 0;
    assert(view.take(0) =~= Seq::<Seq<char>>::empty());
    while i < entries.len()
        invariant
            i <= entries.len(),
            view == entries.deep_view(),
            n == count_keys(view.take(i as int)),
            n <= i,
        decreases entries.len() - i,
    {
        proof {
            assert(view.take(i + 1).drop_last() =~= view.take(i as int));
            assert(view.take(i + 1).last() == entries[i as int]@);
        }
        if has_key_suffix(entries[i].as_str()) {
            n += 1;
        }
        i += 1;
    }
    assert(view.take(i as int) =~= view);
    n
}

/// Counts the live entries that a listing of the root shows: the key-records
/// inside the directories directly below it. Other nodes, and other files
/// inside those directories, are passed over.
pub fn count_key_records(tree: &Vec<Node>) -> (n: usize)
    requires
        key_records(tree.deep_view()) <= usize::MAX,
    ensures
        n == key_records(tree.deep_view()),
{
    let ghost view = tree.deep_view();
    let mut n: usize = 0;
    let mut i: usize = 0;
    assert(view.take(0) =~= Seq::<NodeView>::empty());
    while i < tree.len()
        invariant
            i <= tree.len(),
            view == tree.deep_view(),
            n == key_records(view.take(i as int)),
            key_records(view) <= usize::MAX,
        decreases tree.len() - i,
    {
        proof {
            assert(view.take(i + 1).drop_last() =~= view.take(i as int));
            assert(view.take(i + 1).last() == tree[i as int].deep_view());
            lemma_key_records_prefix(view, i + 1);
        }
        if tree[i].is_dir {
            let here: usize = count_key_names(&tree[i].entries);
            n += here;
        }
        i += 1;
    }
    assert(view.take(i as int) =~= view);
    n
}

/// Finds the first directory named `shard` in a listing.
pub fn locate_shard(tree: &Vec<Node>, shard: &String) -> (found: Option<usize>)
    ensures
        match found {
            Some(i) => i < tree.len() && find_shard(tree.deep_view(), shard@) == Some(i as int),
            None => find_shard(tree.deep_view(), shard@) is None,
        },
{
    let ghost view = tree.deep_view();
    let mut i: usize = 0;
    while i < tree.len()
        invariant
            i <= tree.len(),
            view == tree.deep_view(),
            forall|j: int| 0 <= j < i ==> !is_shard(#[trigger] view[j], shard@),
        decreases tree.len() - i,
    {
        if tree[i].is_dir && tree[i].name == *shard {
            proof {
                lemma_find_shard_at(view, shard@, i as int);
            }
            return Some(i);
        }
        i += 1;
    }
    proof {
        lemma_find_shard(view, shard@);
    }
    None
}

/// Tells whether a directory lists `name`.
pub fn lists_name(entries: &Vec<String>, name: &String) -> (yes: bool)
    ensures
        yes == entries.deep_view().contains(name@),
{
    let ghost view = entries.deep_view();
    let mut i: usize = 0;
    while i < entries.len()
        invariant
            i <= entries.len(),
            view == entries.deep_view(),
            forall|j: int| 0 <= j < i ==> view[j] != name@,
        decreases entries.len() - i,
    {
        if entries[i] == *name {
            assert(view[i as int] == name@);
            return true;
        }
        i += 1;
    }
    false
}

/// Tells whether a directory lists nothing but the two given names.
pub fn lists_only(entries: &Vec<String>, a: &String, b: &String) -> (yes: bool)
    ensures
        yes == holds_only(entries.deep_view(), a@, b@),
{
    let ghost view = entries.deep_view();
    let mut i: usize = 0;
    while i < entries.len()
        invariant
            i <= entries.len(),
            view == entries.deep_view(),
            forall|j: int| 0 <= j < i ==> #[trigger] view[j] == a@ || view[j] == b@,
        decreases entries.len() - i,
    {
        if !(entries[i] == *a || entries[i] == *b) {
            assert(!(view[i as int] == a@ || view[i as int] == b@));
            return false;
        }
        i += 1;
    }
    true
}

} // verus!
