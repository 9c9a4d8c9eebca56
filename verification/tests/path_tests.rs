use timebomb::path::{path_key_of, paths_equal};

#[test]
fn paths_compare_by_component() {
    assert!(paths_equal("src/main.rs", "src/main.rs"));
    assert!(paths_equal("src/main.rs", "src//main.rs"));
    assert!(paths_equal("src/main.rs", "src/./main.rs"));
    assert!(paths_equal("src/", "src"));
    assert!(!paths_equal("src/main.rs", "src/lib.rs"));
    assert!(!paths_equal("./main.rs", "main.rs"));
    assert!(!paths_equal("/main.rs", "main.rs"));
}

#[test]
fn path_keys_sort_by_component() {
    // As text "a-b" sorts before "a/b"; as paths "a" comes before "a-b".
    assert!(path_key_of("a/b") < path_key_of("a-b"));
    assert!(path_key_of("a/b") < path_key_of("a/c"));
    assert!(path_key_of("a") < path_key_of("a/b"));
    assert!(path_key_of("/z") < path_key_of("a"));
    assert_eq!(path_key_of("x//y/"), path_key_of("x/y"));
    assert_ne!(path_key_of("x/y"), path_key_of("xy"));
}
