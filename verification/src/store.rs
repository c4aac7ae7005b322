//! The store handle: the root it works below, the number of live entries, and
//! the decision each operation takes from a listing of the root.

use vstd::prelude::*;
use crate::digest::{digest_hex, is_lower_hex, sha256_hex};
use crate::layout::{
    combine_string,
    create_file_path,
    ends_in_separator,
    key_record_name,
    lemma_record_paths,
    normalize_root,
    normalized,
    shard_len,
    shard_name,
    shard_of,
    value_record_name,
};
use crate::listing::{count_key_records, key_records, lists_name, lists_only, locate_shard, Node};
use crate::plan::{
    insert_outcome,
    lookup_outcome,
    remove_outcome,
    InsertPlan,
    InsertPlanView,
    RemovePlan,
    RemovePlanView,
    StoreError,
};

verus! {

/// A handle on a store: the root directory, always ending in the separator,
/// and the number of live entries below it.
#[derive(Debug)]
pub struct KVStore {
    /// The number of key-value mappings currently stored.
    size: usize,
    /// The root directory below which the mappings are stored.
    path: String,
}

impl KVStore {
    #[verifier::type_invariant]
    spec fn rooted(self) -> bool {
        ends_in_separator(self.path@)
    }

    /// The number of live entries that the handle reports.
    pub closed spec fn count(&self) -> nat {
        self.size as nat
    }

    /// The root path that the handle works below.
    pub closed spec fn root(&self) -> Seq<char> {
        self.path@
    }

    /// Opens a store on `path`, given the listing of that directory: the root is
    /// the path made to end in the separator, and the size is recovered by
    /// counting the key-records in the directories directly below it, which is
    /// zero for an empty directory.
    pub fn new(path: &str, tree: &Vec<Node>) -> (store: KVStore)
        requires
            key_records(tree.deep_view()) <= usize::MAX,
        ensures
            store.root() == normalized(path@),
            ends_in_separator(store.root()),
            store.count() == key_records(tree.deep_view()),
    {
        let root = normalize_root(path);
        let size: usize = count_key_records(tree);
        KVStore { size, path: root }
    }

    /// Brings back a handle whose size is already known, as when a saved handle
    /// is restored: the root is the path made to end in the separator.
    pub fn from_parts(path: &str, size: usize) -> (store: KVStore)
        ensures
            store.root() == normalized(path@),
            ends_in_separator(store.root()),
            store.count() == size,
    {
        KVStore { size, path: normalize_root(path) }
    }

    /// The number of key-value mappings currently stored.
    pub fn size(&self) -> (n: usize)
        ensures
            n == self.count(),
    {
        self.size
    }

    /// The root directory of the store, ending in the separator.
    pub fn path(&self) -> (root: &String)
        ensures
            root@ == self.root(),
            ends_in_separator(root@),
    {
        proof {
            use_type_invariant(self);
        }
        &self.path
    }

    /// The name of the shard directory of a serialized key: the one directory
    /// below the root whose contents a decision about that key reads. It is ten
    /// characters long, each a decimal digit or a letter from `a` to `f`.
    pub fn shard_for(key: &str) -> (shard: String)
        ensures
            shard@ == shard_of(sha256_hex(key@)),
            shard@.len() == shard_len(),
            forall|i: int| 0 <= i < shard@.len() ==> is_lower_hex(#[trigger] shard@[i]),
    {
        let hash = digest_hex(key);
        shard_name(hash.as_str())
    }

    /// Decides an insert for an entry whose serialized key has the digest
    /// `hash`: refused where the listing shows the entry's key-record, else the
    /// plan that creates the shard directory where it is missing and writes
    /// both records. The handle is left as it is; [`KVStore::commit_insert`]
    /// counts the entry once the plan has been carried out.
    pub fn insert_hashed(&self, tree: &Vec<Node>, hash: &str, key: &str, value: &str) -> (decision:
        Result<InsertPlan, StoreError>)
        ensures
            match decision {
                Ok(plan) => insert_outcome(self.root(), tree.deep_view(), hash@, key@, value@)
                    == Ok::<InsertPlanView, StoreError>(plan.deep_view()),
                Err(e) => insert_outcome(self.root(), tree.deep_view(), hash@, key@, value@)
                    == Err::<InsertPlanView, StoreError>(e),
            },
    {
        proof {
            use_type_invariant(self);
            lemma_record_paths(self.path@, hash@);
            reveal_strlit(".key");
            reveal_strlit(".value");
        }
        let shard = shard_name(hash);
        let key_name = key_record_name(hash);
        let make_shard = match locate_shard(tree, &shard) {
            Some(i) => {
                if lists_name(&tree[i].entries, &key_name) {
                    return Err(StoreError::AlreadyExists);
                }
                false
            },
            None => true,
        };
        let shard_path = combine_string(self.path.as_str(), shard.as_str());
        assert(".key"@ =~= crate::layout::key_suffix());
        assert(".value"@ =~= crate::layout::value_suffix());
        let key_path = create_file_path(&shard_path, hash, ".key");
        let value_path = create_file_path(&shard_path, hash, ".value");
        Ok(
            InsertPlan {
                hash: String::from_str(hash),
                make_shard,
                shard_path,
                key_path,
                key_text: String::from_str(key),
                value_path,
                value_text: String::from_str(value),
            },
        )
    }

    /// Decides an insert of a serialized key and value: hashes the key and
    /// decides as [`KVStore::insert_hashed`] does for that digest.
    pub fn insert(&self, tree: &Vec<Node>, key: &str, value: &str) -> (decision: Result<
        InsertPlan,
        StoreError,
    >)
        ensures
            match decision {
                Ok(plan) => insert_outcome(
                    self.root(),
                    tree.deep_view(),
                    sha256_hex(key@),
                    key@,
                    value@,
                ) == Ok::<InsertPlanView, StoreError>(plan.deep_view()),
                Err(e) => insert_outcome(
                    self.root(),
                    tree.deep_view(),
                    sha256_hex(key@),
                    key@,
                    value@,
                ) == Err::<InsertPlanView, StoreError>(e),
            },
    {
        let hash = digest_hex(key);
        self.insert_hashed(tree, hash.as_str(), key, value)
    }

    /// Decides a lookup for an entry whose serialized key has the digest
    /// `hash`: the path of the value-record to read where the listing shows it
    /// in the shard directory, else not found.
    pub fn lookup_hashed(&self, tree: &Vec<Node>, hash: &str) -> (decision: Result<
        String,
        StoreError,
    >)
        ensures
            match decision {
                Ok(path) => lookup_outcome(self.root(), tree.deep_view(), hash@) == Ok::<
                    Seq<char>,
                    StoreError,
                >(path@),
                Err(e) => lookup_outcome(self.root(), tree.deep_view(), hash@) == Err::<
                    Seq<char>,
                    StoreError,
                >(e),
            },
    {
        proof {
            use_type_invariant(self);
            lemma_record_paths(self.path@, hash@);
            reveal_strlit(".value");
        }
        let shard = shard_name(hash);
        let value_name = value_record_name(hash);
        match locate_shard(tree, &shard) {
            Some(i) => {
                if !lists_name(&tree[i].entries, &value_name) {
                    return Err(StoreError::NotFound);
                }
            },
            None => {
                return Err(StoreError::NotFound);
            },
        }
        let shard_path = combine_string(self.path.as_str(), shard.as_str());
        assert(".value"@ =~= crate::layout::value_suffix());
        Ok(create_file_path(&shard_path, hash, ".value"))
    }

    /// Decides a lookup of a serialized key: hashes the key and decides as
    /// [`KVStore::lookup_hashed`] does for that digest.
    pub fn lookup(&self, tree: &Vec<Node>, key: &str) -> (decision: Result<String, StoreError>)
        ensures
            match decision {
                Ok(path) => lookup_outcome(self.root(), tree.deep_view(), sha256_hex(key@)) == Ok::<
                    Seq<char>,
                    StoreError,
                >(path@),
                Err(e) => lookup_outcome(self.root(), tree.deep_view(), sha256_hex(key@)) == Err::<
                    Seq<char>,
                    StoreError,
                >(e),
            },
    {
        let hash = digest_hex(key);
        self.lookup_hashed(tree, hash.as_str())
    }

    /// Decides a removal for an entry whose serialized key has the digest
    /// `hash`: not found where a lookup finds nothing, else the plan that reads
    /// the value, deletes both records, and removes the shard directory where
    /// the listing shows nothing else in it. The handle is left as it is;
    /// [`KVStore::commit_remove`] discounts the entry once the plan has been
    /// carried out.
    pub fn remove_hashed(&self, tree: &Vec<Node>, hash: &str) -> (decision: Result<
        RemovePlan,
        StoreError,
    >)
        ensures
            match decision {
                Ok(plan) => remove_outcome(self.root(), tree.deep_view(), hash@) == Ok::<
                    RemovePlanView,
                    StoreError,
                >(plan.deep_view()),
                Err(e) => remove_outcome(self.root(), tree.deep_view(), hash@) == Err::<
                    RemovePlanView,
                    StoreError,
                >(e),
            },
    {
        proof {
            use_type_invariant(self);
            lemma_record_paths(self.path@, hash@);
            reveal_strlit(".key");
            reveal_strlit(".value");
        }
        let shard = shard_name(hash);
        let key_name = key_record_name(hash);
        let value_name = value_record_name(hash);
        let prune = match locate_shard(tree, &shard) {
            Some(i) => {
                if !lists_name(&tree[i].entries, &value_name) {
                    return Err(StoreError::NotFound);
                }
                lists_only(&tree[i].entries, &key_name, &value_name)
            },
            None => {
                return Err(StoreError::NotFound);
            },
        };
        let shard_path = combine_string(self.path.as_str(), shard.as_str());
        assert(".key"@ =~= crate::layout::key_suffix());
        assert(".value"@ =~= crate::layout::value_suffix());
        let key_path = create_file_path(&shard_path, hash, ".key");
        let value_path = create_file_path(&shard_path, hash, ".value");
        Ok(RemovePlan { hash: String::from_str(hash), value_path, key_path, prune, shard_path })
    }

    /// Decides a removal of a serialized key: hashes the key and decides as
    /// [`KVStore::remove_hashed`] does for that digest.
    pub fn remove(&self, tree: &Vec<Node>, key: &str) -> (decision: Result<RemovePlan, StoreError>)
        ensures
            match decision {
                Ok(plan) => remove_outcome(self.root(), tree.deep_view(), sha256_hex(key@)) == Ok::<
                    RemovePlanView,
                    StoreError,
                >(plan.deep_view()),
                Err(e) => remove_outcome(self.root(), tree.deep_view(), sha256_hex(key@)) == Err::<
                    RemovePlanView,
                    StoreError,
                >(e),
            },
    {
        let hash = digest_hex(key);
        self.remove_hashed(tree, hash.as_str())
    }

    /// Counts an entry whose insert plan has been carried out.
    pub fn commit_insert(&mut self)
        requires
            old(self).count() < usize::MAX,
        ensures
            final(self).count() == old(self).count() + 1,
            final(self).root() == old(self).root(),
    {
        proof {
            use_type_invariant(&*self);
        }
        self.size = self.size + 1;
    }

    /// Discounts an entry whose removal plan has been carried out.
    pub fn commit_remove(&mut self)
        requires
            old(self).count() > 0,
        ensures
            final(self).count() == old(self).count() - 1,
            final(self).root() == old(self).root(),
    {
        proof {
            use_type_invariant(&*self);
        }
        self.size = self.size - 1;
    }
}

} // verus!
