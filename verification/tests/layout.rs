use kvstore::layout::{
    has_key_suffix, key_record_name, normalize_root, shard_name, value_record_name,
};

const DIGEST_A: &str = "ac8d8342bbb2362d13f0a559a3621bb407011368895164b628a54f7fc33fc43c";

#[test]
fn shard_name_is_first_ten_characters() {
    assert_eq!(shard_name(DIGEST_A), "ac8d8342bb");
    assert_eq!(shard_name("0123456789"), "0123456789");
    assert_eq!(shard_name("0123456789a"), "0123456789");
}

#[test]
fn shard_name_of_short_text_is_the_text() {
    assert_eq!(shard_name("abc"), "abc");
    assert_eq!(shard_name(""), "");
    assert_eq!(shard_name("012345678"), "012345678");
}

#[test]
fn shard_name_counts_characters_not_bytes() {
    assert_eq!(shard_name("ééééééééééé"), "éééééééééé");
    assert_eq!(shard_name("ééééé"), "ééééé");
}

#[test]
fn record_names_use_the_full_digest() {
    assert_eq!(
        key_record_name(DIGEST_A),
        "ac8d8342bbb2362d13f0a559a3621bb407011368895164b628a54f7fc33fc43c.key"
    );
    assert_eq!(
        value_record_name(DIGEST_A),
        "ac8d8342bbb2362d13f0a559a3621bb407011368895164b628a54f7fc33fc43c.value"
    );
    assert_eq!(key_record_name(""), ".key");
    assert_eq!(value_record_name(""), ".value");
}

#[test]
fn key_suffix_is_recognized_only_at_the_end() {
    assert!(has_key_suffix("abc.key"));
    assert!(has_key_suffix(".key"));
    assert!(has_key_suffix(&key_record_name(DIGEST_A)));
    assert!(!has_key_suffix(&value_record_name(DIGEST_A)));
    assert!(!has_key_suffix("abc.value"));
    assert!(!has_key_suffix("abc.key.value"));
    assert!(!has_key_suffix("abc.keys"));
    assert!(!has_key_suffix("key"));
    assert!(!has_key_suffix(""));
    assert!(!has_key_suffix("abc.KEY"));
    assert!(has_key_suffix("é.key"));
    assert!(!has_key_suffix("é.ke"));
}

#[test]
fn normalize_root_appends_one_separator() {
    assert_eq!(normalize_root("store"), "store/");
    assert_eq!(normalize_root("a/b/c"), "a/b/c/");
    assert_eq!(normalize_root("/tmp/kv"), "/tmp/kv/");
}

#[test]
fn normalize_root_keeps_a_trailing_separator() {
    assert_eq!(normalize_root("store/"), "store/");
    assert_eq!(normalize_root("/"), "/");
    assert_eq!(normalize_root("a//"), "a//");
}

#[test]
fn normalize_root_of_current_dir_shorthand() {
    assert_eq!(normalize_root("."), "./");
    assert_eq!(normalize_root("./"), "./");
}

#[test]
fn normalize_root_of_non_ascii_and_empty_text() {
    assert_eq!(normalize_root("dépôt"), "dépôt/");
    assert_eq!(normalize_root("dépôt/"), "dépôt/");
    assert_eq!(normalize_root(""), "/");
}
