use std::collections::{BTreeMap, BTreeSet};

use kvstore::{Action, InsertPlan, KVStore, Node, RemovePlan, StoreError};

const DIGEST_A: &str = "ac8d8342bbb2362d13f0a559a3621bb407011368895164b628a54f7fc33fc43c";
const DIGEST_B: &str = "c100f95c1913f9c72fc1f4ef0847e1e723ffe0bde0b36e5f36c13f81fe8c26ed";
const TWIN_ONE: &str = "aaaaaaaaaa11111111111111111111111111111111111111111111111111111111";
const TWIN_TWO: &str = "aaaaaaaaaa22222222222222222222222222222222222222222222222222222222";

/// A file system held in memory: directories and files by full path.
struct Disk {
    dirs: BTreeSet<String>,
    files: BTreeMap<String, String>,
}

impl Disk {
    fn new() -> Disk {
        Disk { dirs: BTreeSet::new(), files: BTreeMap::new() }
    }

    fn children(&self, dir: &str) -> Vec<(String, bool)> {
        let prefix = if dir.ends_with('/') { dir.to_string() } else { format!("{}/", dir) };
        let mut found = Vec::new();
        for d in &self.dirs {
            if let Some(rest) = d.strip_prefix(&prefix) {
                if !rest.is_empty() && !rest.contains('/') {
                    found.push((rest.to_string(), true));
                }
            }
        }
        for f in self.files.keys() {
            if let Some(rest) = f.strip_prefix(&prefix) {
                if !rest.is_empty() && !rest.contains('/') {
                    found.push((rest.to_string(), false));
                }
            }
        }
        found
    }

    fn list(&self, root: &str) -> Vec<Node> {
        let mut nodes = Vec::new();
        for (name, is_dir) in self.children(root) {
            let entries = if is_dir {
                let path = format!("{}{}", root, name);
                self.children(&path).into_iter().map(|(n, _)| n).collect()
            } else {
                Vec::new()
            };
            nodes.push(Node { name, is_dir, entries });
        }
        nodes
    }

    fn parent_exists(&self, path: &str) -> bool {
        match path.rfind('/') {
            Some(at) => self.dirs.contains(&path[..at]),
            None => false,
        }
    }

    fn create_dir(&mut self, path: &str) {
        assert!(!self.dirs.contains(path), "directory exists: {}", path);
        assert!(!self.files.contains_key(path), "a file is in the way: {}", path);
        self.dirs.insert(path.to_string());
    }

    fn write(&mut self, path: &str, text: &str) {
        assert!(self.parent_exists(path), "no directory for {}", path);
        self.files.insert(path.to_string(), text.to_string());
    }

    fn read(&self, path: &str) -> String {
        self.files.get(path).expect("no such file").clone()
    }

    fn remove_file(&mut self, path: &str) {
        assert!(self.files.remove(path).is_some(), "no such file: {}", path);
    }

    fn remove_dir(&mut self, path: &str) {
        assert!(self.children(path).is_empty(), "directory not empty: {}", path);
        assert!(self.dirs.remove(path), "no such directory: {}", path);
    }

    /// Carries out the actions in order and hands back what was read.
    fn carry_out(&mut self, steps: &[Action]) -> Option<String> {
        let mut read = None;
        for step in steps {
            match step {
                Action::CreateDir { path } => self.create_dir(path),
                Action::WriteFile { path, text } => self.write(path, text),
                Action::ReadFile { path } => read = Some(self.read(path)),
                Action::RemoveFile { path } => self.remove_file(path),
                Action::RemoveDir { path } => self.remove_dir(path),
            }
        }
        read
    }
}

fn open(disk: &mut Disk, path: &str) -> KVStore {
    let bare = path.trim_end_matches('/');
    disk.dirs.insert(bare.to_string());
    let root = format!("{}/", bare);
    KVStore::new(path, &disk.list(&root))
}

fn insert(store: &mut KVStore, disk: &mut Disk, key: &str, value: &str) -> Result<(), StoreError> {
    let plan = store.insert(&disk.list(store.path()), key, value)?;
    assert_eq!(disk.carry_out(&plan.steps()), None);
    store.commit_insert();
    Ok(())
}

fn lookup(store: &KVStore, disk: &Disk, key: &str) -> Result<String, StoreError> {
    let path = store.lookup(&disk.list(store.path()), key)?;
    Ok(disk.read(&path))
}

fn remove(store: &mut KVStore, disk: &mut Disk, key: &str) -> Result<String, StoreError> {
    let plan = store.remove(&disk.list(store.path()), key)?;
    let value = disk.carry_out(&plan.steps()).unwrap();
    store.commit_remove();
    Ok(value)
}

fn insert_hashed(
    store: &mut KVStore,
    disk: &mut Disk,
    hash: &str,
    key: &str,
    value: &str,
) -> Result<(), StoreError> {
    let plan = store.insert_hashed(&disk.list(store.path()), hash, key, value)?;
    assert_eq!(disk.carry_out(&plan.steps()), None);
    store.commit_insert();
    Ok(())
}

fn lookup_hashed(store: &KVStore, disk: &Disk, hash: &str) -> Result<String, StoreError> {
    let path = store.lookup_hashed(&disk.list(store.path()), hash)?;
    Ok(disk.read(&path))
}

fn remove_hashed(store: &mut KVStore, disk: &mut Disk, hash: &str) -> Result<String, StoreError> {
    let plan = store.remove_hashed(&disk.list(store.path()), hash)?;
    let value = disk.carry_out(&plan.steps()).unwrap();
    store.commit_remove();
    Ok(value)
}

fn json<T: serde::Serialize>(value: T) -> String {
    serde_json::to_string(&value).unwrap()
}

fn dir(name: &str, entries: &[&str]) -> Node {
    Node {
        name: name.to_string(),
        is_dir: true,
        entries: entries.iter().map(|e| e.to_string()).collect(),
    }
}

fn file(name: &str) -> Node {
    Node { name: name.to_string(), is_dir: false, entries: Vec::new() }
}

#[test]
fn open_fresh_directory_is_empty() {
    let mut disk = Disk::new();
    let store = open(&mut disk, "data");
    assert_eq!(store.size(), 0);
    assert_eq!(store.path(), "data/");
}

#[test]
fn open_normalizes_the_root() {
    let none: Vec<Node> = Vec::new();
    assert_eq!(KVStore::new(".", &none).path(), "./");
    assert_eq!(KVStore::new("./", &none).path(), "./");
    assert_eq!(KVStore::new("a/b", &none).path(), "a/b/");
    assert_eq!(KVStore::new("a/b/", &none).path(), "a/b/");
    assert_eq!(KVStore::new("/", &none).path(), "/");
}

#[test]
fn open_counts_key_records_in_directories_only() {
    let tree = vec![
        dir("aaaaaaaaaa", &["x.key", "x.value", "y.key", "y.value"]),
        file("stray.key"),
        dir("bbbbbbbbbb", &["z.key", "z.value", "notes.txt", "w.value"]),
        dir("other", &[]),
        file("README"),
    ];
    let store = KVStore::new("data", &tree);
    assert_eq!(store.size(), 3);
}

#[test]
fn open_does_not_count_value_records_or_lookalikes() {
    let tree = vec![dir(
        "aaaaaaaaaa",
        &["x.value", "x.key.value", "x.keys", "key", ".key", "x.key.bak", "x.KEY"],
    )];
    let store = KVStore::new("data", &tree);
    assert_eq!(store.size(), 1);
}

#[test]
fn from_parts_restores_size_and_root() {
    let store = KVStore::from_parts("data", 7);
    assert_eq!(store.size(), 7);
    assert_eq!(store.path(), "data/");
    let again = KVStore::from_parts(store.path(), store.size());
    assert_eq!(again.size(), 7);
    assert_eq!(again.path(), "data/");
}

#[test]
fn insert_plan_lays_out_the_entry() {
    let store = KVStore::new("data", &Vec::new());
    let plan = store.insert(&Vec::new(), "\"a\"", "1").unwrap();
    assert_eq!(
        plan,
        InsertPlan {
            hash: DIGEST_A.to_string(),
            make_shard: true,
            shard_path: "data/ac8d8342bb".to_string(),
            key_path: format!("data/ac8d8342bb/{}.key", DIGEST_A),
            key_text: "\"a\"".to_string(),
            value_path: format!("data/ac8d8342bb/{}.value", DIGEST_A),
            value_text: "1".to_string(),
        }
    );
}

#[test]
fn insert_hashes_the_serialized_key() {
    let store = KVStore::new("data", &Vec::new());
    let plan = store.insert(&Vec::new(), "hello", "x").unwrap();
    assert_eq!(plan.hash, "2cf24dba5fb0a30e26e83b2ac5b9e29e1b161e5c1fa7425e73043362938b9824");
    assert_eq!(plan.shard_path, "data/2cf24dba5f");
    let other = store.insert(&Vec::new(), "\"b\"", "x").unwrap();
    assert_eq!(other.hash, DIGEST_B);
    let empty = store.insert(&Vec::new(), "", "x").unwrap();
    assert_eq!(empty.hash, "e3b0c44298fc1c149afbf4c8996fb92427ae41e4649b934ca495991b7852b855");
}

#[test]
fn insert_into_existing_shard_does_not_create_it() {
    let store = KVStore::new("data", &Vec::new());
    let tree = vec![dir("aaaaaaaaaa", &["other.key", "other.value"])];
    let plan = store.insert_hashed(&tree, TWIN_ONE, "k", "v").unwrap();
    assert!(!plan.make_shard);
    assert_eq!(plan.shard_path, "data/aaaaaaaaaa");
    assert_eq!(plan.key_path, format!("data/aaaaaaaaaa/{}.key", TWIN_ONE));
    assert_eq!(plan.value_path, format!("data/aaaaaaaaaa/{}.value", TWIN_ONE));
}

#[test]
fn insert_treats_a_file_of_the_shard_name_as_no_shard() {
    let store = KVStore::new("data", &Vec::new());
    let tree = vec![file("aaaaaaaaaa")];
    let plan = store.insert_hashed(&tree, TWIN_ONE, "k", "v").unwrap();
    assert!(plan.make_shard);
}

#[test]
fn insert_of_live_key_is_refused() {
    let store = KVStore::new("data", &Vec::new());
    let key_name = format!("{}.key", TWIN_ONE);
    let tree = vec![dir("aaaaaaaaaa", &[&key_name])];
    assert_eq!(store.insert_hashed(&tree, TWIN_ONE, "k", "v"), Err(StoreError::AlreadyExists));
    assert!(store.insert_hashed(&tree, TWIN_TWO, "k", "v").is_ok());
}

#[test]
fn insert_over_orphan_value_record_is_accepted() {
    let store = KVStore::new("data", &Vec::new());
    let value_name = format!("{}.value", TWIN_ONE);
    let tree = vec![dir("aaaaaaaaaa", &[&value_name])];
    let plan = store.insert_hashed(&tree, TWIN_ONE, "k", "v").unwrap();
    assert!(!plan.make_shard);
}

#[test]
fn lookup_needs_the_exact_shard_name() {
    let store = KVStore::new("data", &Vec::new());
    let value_name = format!("{}.value", TWIN_ONE);
    let longer = vec![dir("aaaaaaaaaa1", &[&value_name])];
    assert_eq!(store.lookup_hashed(&longer, TWIN_ONE), Err(StoreError::NotFound));
    let shorter = vec![dir("aaaaaaaaa", &[&value_name])];
    assert_eq!(store.lookup_hashed(&shorter, TWIN_ONE), Err(StoreError::NotFound));
    let not_dir = vec![Node {
        name: "aaaaaaaaaa".to_string(),
        is_dir: false,
        entries: vec![value_name.clone()],
    }];
    assert_eq!(store.lookup_hashed(&not_dir, TWIN_ONE), Err(StoreError::NotFound));
    let exact = vec![file("aaaaaaaaaa1"), dir("aaaaaaaaaa", &[&value_name])];
    assert_eq!(
        store.lookup_hashed(&exact, TWIN_ONE),
        Ok(format!("data/aaaaaaaaaa/{}.value", TWIN_ONE))
    );
}

#[test]
fn lookup_of_key_record_alone_is_not_found() {
    let store = KVStore::new("data", &Vec::new());
    let key_name = format!("{}.key", TWIN_ONE);
    let tree = vec![dir("aaaaaaaaaa", &[&key_name])];
    assert_eq!(store.lookup_hashed(&tree, TWIN_ONE), Err(StoreError::NotFound));
    assert_eq!(store.remove_hashed(&tree, TWIN_ONE), Err(StoreError::NotFound));
}

#[test]
fn lookup_in_empty_store_is_not_found() {
    let mut disk = Disk::new();
    let mut store = open(&mut disk, "data");
    assert_eq!(lookup(&store, &disk, &json("a")), Err(StoreError::NotFound));
    assert_eq!(remove(&mut store, &mut disk, &json("a")), Err(StoreError::NotFound));
    assert_eq!(store.size(), 0);
}

#[test]
fn never_inserted_key_is_not_found_among_others() {
    let mut disk = Disk::new();
    let mut store = open(&mut disk, "data");
    for i in 0..20 {
        insert(&mut store, &mut disk, &json(i), &json(i * 10)).unwrap();
    }
    assert_eq!(lookup(&store, &disk, &json(20)), Err(StoreError::NotFound));
    assert_eq!(lookup(&store, &disk, &json("0")), Err(StoreError::NotFound));
    assert_eq!(remove(&mut store, &mut disk, &json(-1)), Err(StoreError::NotFound));
    assert_eq!(store.size(), 20);
}

#[test]
fn insert_then_lookup_round_trips() {
    let mut disk = Disk::new();
    let mut store = open(&mut disk, "data");
    let key = json("key");
    let value = json(vec![1, 2, 3]);
    assert_eq!(insert(&mut store, &mut disk, &key, &value), Ok(()));
    assert_eq!(store.size(), 1);
    let read = lookup(&store, &disk, &key).unwrap();
    assert_eq!(read, "[1,2,3]");
    let back: Vec<i32> = serde_json::from_str(&read).unwrap();
    assert_eq!(back, vec![1, 2, 3]);
    assert_eq!(store.size(), 1);
}

#[test]
fn insert_writes_both_records() {
    let mut disk = Disk::new();
    let mut store = open(&mut disk, "data");
    insert(&mut store, &mut disk, &json("a"), &json(1)).unwrap();
    assert!(disk.dirs.contains("data/ac8d8342bb"));
    assert_eq!(disk.read(&format!("data/ac8d8342bb/{}.key", DIGEST_A)), "\"a\"");
    assert_eq!(disk.read(&format!("data/ac8d8342bb/{}.value", DIGEST_A)), "1");
    assert_eq!(disk.files.len(), 2);
}

#[test]
fn second_insert_of_a_key_changes_nothing() {
    let mut disk = Disk::new();
    let mut store = open(&mut disk, "data");
    insert(&mut store, &mut disk, &json("a"), &json(1)).unwrap();
    let files = disk.files.clone();
    let dirs = disk.dirs.clone();
    assert_eq!(
        insert(&mut store, &mut disk, &json("a"), &json(2)),
        Err(StoreError::AlreadyExists)
    );
    assert_eq!(disk.files, files);
    assert_eq!(disk.dirs, dirs);
    assert_eq!(store.size(), 1);
    assert_eq!(lookup(&store, &disk, &json("a")), Ok("1".to_string()));
}

#[test]
fn insert_then_remove_restores_the_store() {
    let mut disk = Disk::new();
    let mut store = open(&mut disk, "data");
    insert(&mut store, &mut disk, &json("b"), &json("kept")).unwrap();
    let files = disk.files.clone();
    let dirs = disk.dirs.clone();
    insert(&mut store, &mut disk, &json("a"), &json(1)).unwrap();
    assert_eq!(store.size(), 2);
    assert_eq!(remove(&mut store, &mut disk, &json("a")), Ok("1".to_string()));
    assert_eq!(lookup(&store, &disk, &json("a")), Err(StoreError::NotFound));
    assert_eq!(store.size(), 1);
    assert!(!disk.dirs.contains("data/ac8d8342bb"));
    assert_eq!(disk.files, files);
    assert_eq!(disk.dirs, dirs);
}

#[test]
fn remove_plan_prunes_only_an_emptied_shard() {
    let store = KVStore::new("data", &Vec::new());
    let key_name = format!("{}.key", TWIN_ONE);
    let value_name = format!("{}.value", TWIN_ONE);
    let alone = vec![dir("aaaaaaaaaa", &[&key_name, &value_name])];
    assert_eq!(
        store.remove_hashed(&alone, TWIN_ONE),
        Ok(RemovePlan {
            hash: TWIN_ONE.to_string(),
            value_path: format!("data/aaaaaaaaaa/{}.value", TWIN_ONE),
            key_path: format!("data/aaaaaaaaaa/{}.key", TWIN_ONE),
            prune: true,
            shard_path: "data/aaaaaaaaaa".to_string(),
        })
    );
    let shared = vec![dir("aaaaaaaaaa", &[&key_name, "notes.txt", &value_name])];
    let plan = store.remove_hashed(&shared, TWIN_ONE).unwrap();
    assert!(!plan.prune);
    assert_eq!(plan.shard_path, "data/aaaaaaaaaa");
}

#[test]
fn insert_steps_create_then_write_key_then_value() {
    let store = KVStore::new("data", &Vec::new());
    let plan = store.insert_hashed(&Vec::new(), TWIN_ONE, "k", "v").unwrap();
    assert_eq!(
        plan.steps(),
        vec![
            Action::CreateDir { path: "data/aaaaaaaaaa".to_string() },
            Action::WriteFile {
                path: format!("data/aaaaaaaaaa/{}.key", TWIN_ONE),
                text: "k".to_string()
            },
            Action::WriteFile {
                path: format!("data/aaaaaaaaaa/{}.value", TWIN_ONE),
                text: "v".to_string()
            },
        ]
    );
    let tree = vec![dir("aaaaaaaaaa", &["notes.txt"])];
    let plan = store.insert_hashed(&tree, TWIN_ONE, "k", "v").unwrap();
    assert_eq!(
        plan.steps(),
        vec![
            Action::WriteFile {
                path: format!("data/aaaaaaaaaa/{}.key", TWIN_ONE),
                text: "k".to_string()
            },
            Action::WriteFile {
                path: format!("data/aaaaaaaaaa/{}.value", TWIN_ONE),
                text: "v".to_string()
            },
        ]
    );
}

#[test]
fn remove_steps_read_then_delete_then_prune() {
    let store = KVStore::new("data", &Vec::new());
    let key_name = format!("{}.key", TWIN_ONE);
    let value_name = format!("{}.value", TWIN_ONE);
    let alone = vec![dir("aaaaaaaaaa", &[&key_name, &value_name])];
    assert_eq!(
        store.remove_hashed(&alone, TWIN_ONE).unwrap().steps(),
        vec![
            Action::ReadFile { path: format!("data/aaaaaaaaaa/{}", value_name) },
            Action::RemoveFile { path: format!("data/aaaaaaaaaa/{}", key_name) },
            Action::RemoveFile { path: format!("data/aaaaaaaaaa/{}", value_name) },
            Action::RemoveDir { path: "data/aaaaaaaaaa".to_string() },
        ]
    );
    let shared = vec![dir("aaaaaaaaaa", &[&key_name, &value_name, "notes.txt"])];
    assert_eq!(
        store.remove_hashed(&shared, TWIN_ONE).unwrap().steps(),
        vec![
            Action::ReadFile { path: format!("data/aaaaaaaaaa/{}", value_name) },
            Action::RemoveFile { path: format!("data/aaaaaaaaaa/{}", key_name) },
            Action::RemoveFile { path: format!("data/aaaaaaaaaa/{}", value_name) },
        ]
    );
}

#[test]
fn shard_for_names_the_directory_of_a_key() {
    assert_eq!(KVStore::shard_for("\"a\""), "ac8d8342bb");
    assert_eq!(KVStore::shard_for("hello"), "2cf24dba5f");
    assert_eq!(KVStore::shard_for(""), "e3b0c44298");
}

#[test]
fn a_listing_narrowed_to_the_shard_decides_the_same() {
    let store = KVStore::new("data", &Vec::new());
    let key_name = format!("{}.key", DIGEST_A);
    let value_name = format!("{}.value", DIGEST_A);
    let full = vec![
        dir("c100f95c19", &["x.key", "x.value"]),
        dir("ac8d8342bb", &[&key_name, &value_name, "notes.txt"]),
        file("stray"),
    ];
    let narrow = vec![
        dir("c100f95c19", &[]),
        dir("ac8d8342bb", &[&key_name, &value_name, "notes.txt"]),
        file("stray"),
    ];
    assert_eq!(store.insert(&full, "\"a\"", "1"), store.insert(&narrow, "\"a\"", "1"));
    assert_eq!(store.insert(&full, "\"a\"", "1"), Err(StoreError::AlreadyExists));
    assert_eq!(store.lookup(&full, "\"a\""), store.lookup(&narrow, "\"a\""));
    assert_eq!(store.remove(&full, "\"a\""), store.remove(&narrow, "\"a\""));
    assert!(store.remove(&full, "\"a\"").is_ok());
}

#[test]
fn round_trip_of_assorted_text_keys() {
    let mut disk = Disk::new();
    let mut store = open(&mut disk, "data");
    let keys = ["", " ", "key", "a/b", "with \"quotes\"", "ünïcödé", "\n\t", "0", "null"];
    for key in keys {
        assert_eq!(insert(&mut store, &mut disk, &json(key), &json(key)), Ok(()));
        let read = lookup(&store, &disk, &json(key)).unwrap();
        assert_eq!(serde_json::from_str::<String>(&read).unwrap(), key);
        let removed = remove(&mut store, &mut disk, &json(key)).unwrap();
        assert_eq!(serde_json::from_str::<String>(&removed).unwrap(), key);
        assert_eq!(store.size(), 0);
        assert!(disk.list("data/").is_empty());
    }
}

#[test]
fn reopening_counts_the_inserted_keys() {
    let mut disk = Disk::new();
    let mut store = open(&mut disk, "data");
    for i in 0..37 {
        insert(&mut store, &mut disk, &json(format!("key-{}", i)), &json(i)).unwrap();
    }
    assert_eq!(store.size(), 37);
    let again = open(&mut disk, "data");
    assert_eq!(again.size(), 37);
    let slashed = open(&mut disk, "data/");
    assert_eq!(slashed.size(), 37);
    assert_eq!(slashed.path(), "data/");
}

#[test]
fn reopening_after_removals_counts_what_is_left() {
    let mut disk = Disk::new();
    let mut store = open(&mut disk, "data");
    for i in 0..10 {
        insert(&mut store, &mut disk, &json(i), &json(i)).unwrap();
    }
    for i in 0..4 {
        assert_eq!(remove(&mut store, &mut disk, &json(i)), Ok(i.to_string()));
    }
    assert_eq!(store.size(), 6);
    assert_eq!(open(&mut disk, "data").size(), 6);
}

#[test]
fn reopening_ignores_foreign_files() {
    let mut disk = Disk::new();
    let mut store = open(&mut disk, "data");
    insert(&mut store, &mut disk, &json("a"), &json(1)).unwrap();
    disk.write("data/stray.key", "x");
    disk.write("data/ac8d8342bb/notes.txt", "x");
    disk.create_dir("data/empty");
    assert_eq!(open(&mut disk, "data").size(), 1);
}

#[test]
fn keys_sharing_a_shard_do_not_interfere() {
    let mut disk = Disk::new();
    let mut store = open(&mut disk, "data");
    assert_eq!(insert_hashed(&mut store, &mut disk, TWIN_ONE, "k1", "v1"), Ok(()));
    assert_eq!(insert_hashed(&mut store, &mut disk, TWIN_TWO, "k2", "v2"), Ok(()));
    assert_eq!(store.size(), 2);
    assert_eq!(disk.dirs.len(), 2);
    assert_eq!(disk.list("data/").len(), 1);
    assert_eq!(lookup_hashed(&store, &disk, TWIN_ONE), Ok("v1".to_string()));
    assert_eq!(lookup_hashed(&store, &disk, TWIN_TWO), Ok("v2".to_string()));
    assert_eq!(
        insert_hashed(&mut store, &mut disk, TWIN_ONE, "k1", "again"),
        Err(StoreError::AlreadyExists)
    );
    assert_eq!(remove_hashed(&mut store, &mut disk, TWIN_ONE), Ok("v1".to_string()));
    assert!(disk.dirs.contains("data/aaaaaaaaaa"));
    assert_eq!(lookup_hashed(&store, &disk, TWIN_ONE), Err(StoreError::NotFound));
    assert_eq!(lookup_hashed(&store, &disk, TWIN_TWO), Ok("v2".to_string()));
    assert_eq!(store.size(), 1);
    assert_eq!(remove_hashed(&mut store, &mut disk, TWIN_TWO), Ok("v2".to_string()));
    assert!(!disk.dirs.contains("data/aaaaaaaaaa"));
    assert_eq!(store.size(), 0);
    assert_eq!(open(&mut disk, "data").size(), 0);
}

#[test]
fn scenario_on_a_fresh_directory() {
    let mut disk = Disk::new();
    let mut store = open(&mut disk, "fresh");
    assert_eq!(store.size(), 0);
    assert_eq!(insert(&mut store, &mut disk, &json("a"), &json(1)), Ok(()));
    assert_eq!(
        insert(&mut store, &mut disk, &json("a"), &json(2)),
        Err(StoreError::AlreadyExists)
    );
    let read = lookup(&store, &disk, &json("a")).unwrap();
    assert_eq!(serde_json::from_str::<i32>(&read).unwrap(), 1);
    let removed = remove(&mut store, &mut disk, &json("a")).unwrap();
    assert_eq!(serde_json::from_str::<i32>(&removed).unwrap(), 1);
    assert_eq!(lookup(&store, &disk, &json("a")), Err(StoreError::NotFound));
    assert_eq!(store.size(), 0);
    assert!(disk.list("fresh/").is_empty());
    assert!(disk.files.is_empty());
}

#[test]
fn stored_text_that_is_not_the_asked_type_is_not_a_miss() {
    let mut disk = Disk::new();
    let mut store = open(&mut disk, "data");
    insert(&mut store, &mut disk, &json("a"), &json("text")).unwrap();
    let read = lookup(&store, &disk, &json("a"));
    assert_eq!(read, Ok("\"text\"".to_string()));
    assert!(serde_json::from_str::<i32>(&read.unwrap()).is_err());
}

#[test]
fn commit_steps_move_the_size_by_one() {
    let mut store = KVStore::from_parts("data", 5);
    store.commit_insert();
    assert_eq!(store.size(), 6);
    store.commit_remove();
    store.commit_remove();
    assert_eq!(store.size(), 4);
    assert_eq!(store.path(), "data/");
}

#[test]
fn decisions_do_not_depend_on_listing_order() {
    let store = KVStore::new("data", &Vec::new());
    let key_name = format!("{}.key", TWIN_ONE);
    let value_name = format!("{}.value", TWIN_ONE);
    let one = vec![
        dir("bbbbbbbbbb", &["x.key", "x.value"]),
        dir("aaaaaaaaaa", &[&key_name, "notes.txt", &value_name]),
    ];
    let two = vec![
        file("stray"),
        dir("aaaaaaaaaa", &[&value_name, &key_name, "notes.txt"]),
        dir("bbbbbbbbbb", &["x.value", "x.key"]),
    ];
    assert_eq!(
        store.insert_hashed(&one, TWIN_ONE, "k", "v"),
        store.insert_hashed(&two, TWIN_ONE, "k", "v")
    );
    assert_eq!(
        store.insert_hashed(&one, TWIN_TWO, "k", "v"),
        store.insert_hashed(&two, TWIN_TWO, "k", "v")
    );
    assert_eq!(store.lookup_hashed(&one, TWIN_ONE), store.lookup_hashed(&two, TWIN_ONE));
    assert_eq!(store.lookup_hashed(&one, TWIN_TWO), store.lookup_hashed(&two, TWIN_TWO));
    assert_eq!(store.remove_hashed(&one, TWIN_ONE), store.remove_hashed(&two, TWIN_ONE));
    assert!(store.remove_hashed(&one, TWIN_ONE).is_ok());
    assert_eq!(KVStore::new("data", &one).size(), KVStore::new("data", &two).size());
    assert_eq!(KVStore::new("data", &one).size(), 2);
}
