//! How an entry is laid out below the root: shard directory, record names, paths.

use vstd::prelude::*;

verus! {

/// The separator between the components of a path.
pub open spec fn separator() -> Seq<char> {
    seq!['/']
}

/// The shorthand for the current directory.
pub open spec fn current_dir() -> Seq<char> {
    seq!['.']
}

/// How many leading characters of a digest name its shard directory.
pub open spec fn shard_len() -> nat {
    10
}

/// The extension of the file that holds an entry's serialized key.
pub open spec fn key_suffix() -> Seq<char> {
    seq!['.', 'k', 'e', 'y']
}

/// The extension of the file that holds an entry's serialized value.
pub open spec fn value_suffix() -> Seq<char> {
    seq!['.', 'v', 'a', 'l', 'u', 'e']
}

/// The name of the shard directory of an entry: the first ten characters of
/// its digest (all of it, should it be shorter).
pub open spec fn shard_of(hash: Seq<char>) -> Seq<char> {
    if hash.len() >= shard_len() {
        hash.subrange(0, shard_len() as int)
    } else {
        hash
    }
}

/// The name of an entry's key-record: the full digest and the key extension.
pub open spec fn key_record(hash: Seq<char>) -> Seq<char> {
    hash + key_suffix()
}

/// The name of an entry's value-record: the full digest and the value extension.
pub open spec fn value_record(hash: Seq<char>) -> Seq<char> {
    hash + value_suffix()
}

/// True of a file name that ends in the key extension.
pub open spec fn is_key_record(name: Seq<char>) -> bool {
    key_suffix().is_suffix_of(name)
}

/// True of a path whose last character is the separator.
pub open spec fn ends_in_separator(path: Seq<char>) -> bool {
    path.len() > 0 && path.last() == '/'
}

/// A root path made to end in the separator: left alone where it already
/// does, else with the separator added, so that the current-directory
/// shorthand becomes `./` and the empty path the separator alone.
pub open spec fn normalized(path: Seq<char>) -> Seq<char> {
    if ends_in_separator(path) {
        path
    } else {
        path + separator()
    }
}

/// The path of the shard directory of an entry below `root`.
pub open spec fn shard_dir(root: Seq<char>, hash: Seq<char>) -> Seq<char> {
    root + shard_of(hash)
}

/// The path of an entry's key-record below `root`: the root, the shard
/// directory, and in it the file named by the full digest.
pub open spec fn key_path(root: Seq<char>, hash: Seq<char>) -> Seq<char> {
    root + shard_of(hash) + separator() + key_record(hash)
}

/// The path of an entry's value-record below `root`, beside the key-record.
pub open spec fn value_path(root: Seq<char>, hash: Seq<char>) -> Seq<char> {
    root + shard_of(hash) + separator() + value_record(hash)
}

/// The path of the file `stem + extension` inside the directory `dir`. The
/// current-directory shorthand contributes nothing but the separator.
pub open spec fn file_path(dir: Seq<char>, stem: Seq<char>, extension: Seq<char>) -> Seq<char> {
    if dir == current_dir() {
        separator() + stem + extension
    } else {
        dir + separator() + stem + extension
    }
}

/// Joins two pieces of text.
pub fn combine_string(first: &str, second: &str) -> (joined: String)
    ensures
        joined@ == first@ + second@,
{
    String::from_str(first).concat(second)
}

/// Builds the path of a record file from its directory, the hash that names it
/// and its extension.
pub fn create_file_path(path: &String, hashed_value: &str, extension: &str) -> (file: String)
    ensures
        file@ == file_path(path@, hashed_value@, extension@),
{
    proof {
        reveal_strlit(".");
        reveal_strlit("/");
    }
    let dot = String::from_str(".");
    assert(dot@ =~= current_dir());
    assert("/"@ =~= separator());
    if *path == dot {
        String::from_str("/").concat(hashed_value).concat(extension)
    } else {
        path.clone().concat("/").concat(hashed_value).concat(extension)
    }
}

/// The name of the shard directory for a digest.
pub fn shard_name(hash: &str) -> (shard: String)
    ensures
        shard@ == shard_of(hash@),
{
    let n: usize = hash.unicode_len();
    if n >= 10 {
        String::from_str(hash.substring_char(0, 10))
    } else {
        String::from_str(hash)
    }
}

/// The name of the key-record for a digest.
pub fn key_record_name(hash: &str) -> (name: String)
    ensures
        name@ == key_record(hash@),
{
    proof {
        reveal_strlit(".key");
    }
    assert(".key"@ =~= key_suffix());
    combine_string(hash, ".key")
}

/// The name of the value-record for a digest.
pub fn value_record_name(hash: &str) -> (name: String)
    ensures
        name@ == value_record(hash@),
{
    proof {
        reveal_strlit(".value");
    }
    assert(".value"@ =~= value_suffix());
    combine_string(hash, ".value")
}

/// Tells whether a file name is that of a key-record.
pub fn has_key_suffix(name: &str) -> (yes: bool)
    ensures
        yes == is_key_record(name@),
{
    let n: usize = name.unicode_len();
    if n < 4 {
        return false;
    }
    proof {
        reveal_strlit(".key");
    }
    assert(".key"@ =~= key_suffix());
    let tail = String::from_str(name.substring_char(n - 4, n));
    let suffix = String::from_str(".key");
    tail == suffix
}

/// Makes a root path end in the separator, leaving alone one that already
/// does. The last character is looked at as a character, so a path that ends
/// in a character of several bytes is handled like any other.
pub fn normalize_root(path: &str) -> (root: String)
    ensures
        root@ == normalized(path@),
{
    proof {
        reveal_strlit("/");
    }
    assert("/"@ =~= separator());
    let n: usize = path.unicode_len();
    if n > 0 && path.get_char(n - 1) == '/' {
        String::from_str(path)
    } else {
        String::from_str(path).concat("/")
    }
}

/// Below a root that ends in the separator, the path built for a record is the
/// root, the shard, the separator and the record's name, whatever the digest.
pub proof fn lemma_record_paths(root: Seq<char>, hash: Seq<char>)
    requires
        ends_in_separator(root),
    ensures
        file_path(shard_dir(root, hash), hash, key_suffix()) == key_path(root, hash),
        file_path(shard_dir(root, hash), hash, value_suffix()) == value_path(root, hash),
{
    let dir = shard_dir(root, hash);
    if dir == current_dir() {
        assert(dir.len() == 1);
        assert(root.len() == 1);
        assert(dir[0] == root[0]);
    }
    assert(dir + separator() + hash + key_suffix() =~= key_path(root, hash));
    assert(dir + separator() + hash + value_suffix() =~= value_path(root, hash));
}

} // verus!
