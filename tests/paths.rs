use graymamba::sharesfs::SharesFS;
use graymamba::paths::{
    child_path, depth_score, glob_matches, is_direct_child, is_root_path, mount_user_key,
    path_contains, path_user_of,
};

#[test]
fn depth_scores() {
    assert_eq!(depth_score("/"), 1);
    assert_eq!(depth_score("/a"), 2);
    assert_eq!(depth_score("/x/b/c"), 4);
    assert_eq!(depth_score(""), 1);
}

#[test]
fn joining_names() {
    assert_eq!(child_path("/", "a"), "/a");
    assert_eq!(child_path("/a", "b"), "/a/b");
    assert!(is_root_path("/"));
    assert!(!is_root_path("/a"));
}

#[test]
fn last_elements() {
    let fs = SharesFS::new("n", "c");
    assert_eq!(fs.get_last_path_element("/a/b/c"), "c");
    assert_eq!(fs.get_last_path_element("/"), "");
    assert_eq!(fs.get_last_path_element("plain"), "plain");
}

#[test]
fn direct_children() {
    assert!(is_direct_child("/a/b", "/a"));
    assert!(!is_direct_child("/a/b/c", "/a"));
    assert!(!is_direct_child("/ab", "/a"));
    assert!(is_direct_child("/a", "/"));
    assert!(!is_direct_child("a", "/"));
}

#[test]
fn users_of_paths() {
    assert_eq!(path_user_of("/alice/docs/x"), "alice");
    assert_eq!(path_user_of("/alice"), "");
    assert_eq!(path_user_of("/bob/"), "bob");
}

#[test]
fn mount_keys() {
    assert_eq!(mount_user_key("/home/bob's drive"), Some("bob".to_string()));
    assert_eq!(mount_user_key("bob's drive's drive"), Some("bob".to_string()));
    assert_eq!(mount_user_key("/a's drive/b's drive/c"), Some("b".to_string()));
    assert_eq!(mount_user_key("/nobody"), None);
}

#[test]
fn masks_and_patterns() {
    assert_eq!(SharesFS::mode_unmask_setattr(0o444), 0o644);
    assert_eq!(SharesFS::mode_unmask_setattr(0o1777), 0o777);
    assert!(glob_matches("/a/*", "/a/bc"));
    assert!(glob_matches("/?", "/x"));
    assert!(!glob_matches("/?", "/xy"));
    assert!(path_contains("/r/objects/pack/p", "/objects/pack/"));
    assert!(!path_contains("/r/objects/p", "/objects/pack/"));
}
