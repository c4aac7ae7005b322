use kvstore::{combine_string, create_file_path};

#[test]
fn hello_world_test() {
    assert_eq!(4, 4);
}

#[test]
fn combine_string_joins_in_order() {
    assert_eq!(combine_string("abc", "def"), "abcdef");
    assert_eq!(combine_string("", "x"), "x");
    assert_eq!(combine_string("x", ""), "x");
    assert_eq!(combine_string("", ""), "");
    assert_eq!(combine_string("store/", "ac8d8342bb"), "store/ac8d8342bb");
}

#[test]
fn combine_string_keeps_non_ascii_text() {
    assert_eq!(combine_string("é", "ü/"), "éü/");
}

#[test]
fn create_file_path_joins_with_separator() {
    let dir = String::from("store/ac8d8342bb");
    assert_eq!(create_file_path(&dir, "ac8d", ".key"), "store/ac8d8342bb/ac8d.key");
    assert_eq!(create_file_path(&dir, "ac8d", ".value"), "store/ac8d8342bb/ac8d.value");
}

#[test]
fn create_file_path_of_current_dir_shorthand() {
    let dot = String::from(".");
    assert_eq!(create_file_path(&dot, "ac8d", ".key"), "/ac8d.key");
    let dot_slash = String::from("./");
    assert_eq!(create_file_path(&dot_slash, "ac8d", ".key"), ".//ac8d.key");
    let empty = String::new();
    assert_eq!(create_file_path(&empty, "ac8d", ".key"), "/ac8d.key");
}
