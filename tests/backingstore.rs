use graymamba::nfs::Timestamp;
use graymamba::sharesfs::SharesFS;
use graymamba::sorted_set::SortedSet;

const STAMP: &str = "Oct 01 12:00:00.000000000 2023";

const TEST_COMMUNITY: &str = "orangery";
const TEST_NAMESPACE_ID: &str = "citrus";

fn now() -> Timestamp {
    Timestamp { secs: 1696161600, nsecs: 5 }
}

#[test]
fn test_init_user_directory_structure() {
    let mut store = SharesFS::new("", "");
    store.set_namespace_id_and_community(TEST_NAMESPACE_ID, TEST_COMMUNITY);
    let (ns, community) = store.get_namespace_id_and_community();
    assert_eq!(ns, "citrus");
    assert_eq!(community, "{orangery}:");

    // root directory
    let root = store.init_user_directory("/", now()).expect("root init failed");
    assert_eq!(root, 0);
    let root_metadata = store.getattr(root).expect("failed to get root metadata");
    assert_eq!(root_metadata.fileid, 0, "root missing fileid");
    assert_eq!(root_metadata.ftype, 0, "root missing ftype");

    // nodes structure
    let nodes = store.depth_index.zrange_withscores(0, -1);
    assert!(!nodes.is_empty(), "nodes should not be empty");
    assert_eq!(nodes[0].1 as f64, 1.0, "root score should be 1.0");

    // subdirectory
    let sub = store.init_user_directory("/test", now()).expect("subdir init failed");
    let sub_metadata = store.getattr(sub).expect("failed to get subdir metadata");
    assert_eq!(sub_metadata.fileid, sub, "subdir missing fileid");

    // path_to_id and back through id_to_path
    let id = store.get_id_from_path("/test").expect("path_to_id should exist");
    assert_eq!(id, sub);
    let path = store.get_path_from_id(id).expect("failed to get id_to_path");
    assert_eq!(path, "/test", "path mismatch in id_to_path");

    // the counter has moved
    assert!(store.next_fileid >= 1, "next_fileid should exist");
}

#[test]
fn test_directory_idempotency() {
    let mut store = SharesFS::new(TEST_NAMESPACE_ID, TEST_COMMUNITY);
    let first_id = store.init_user_directory("/test2", now()).expect("first init failed");
    let first_meta = store.getattr(first_id).expect("failed to get first fileid");
    let second_id = store.init_user_directory("/test2", now()).expect("second init failed");
    let second_meta = store.getattr(second_id).expect("failed to get second fileid");
    assert_eq!(first_id, second_id, "fileid changed on second init");
    assert_eq!(first_meta.fileid, second_meta.fileid);
    assert_eq!(store.next_fileid, 1);
}

#[test]
fn test_sorted_set_operations() {
    let mut store = SortedSet::new();
    let key_items = [("item1", 1u64), ("item2", 2u64)];
    for (member, score) in key_items.iter() {
        store.zadd(member.to_string(), *score);
    }
    let items = store.zrange_withscores(0, -1);
    assert_eq!(items.len(), 2, "wrong number of items");
    assert_eq!(items[0].0, "item1", "wrong item order");
    assert_eq!(items[0].1 as f64, 1.0, "wrong score");
    assert_eq!(items[1].0, "item2");
    assert_eq!(items[1].1 as f64, 2.0);
}

#[test]
fn sorted_set_moves_member_on_new_score() {
    let mut set = SortedSet::new();
    set.zadd("a".to_string(), 3);
    set.zadd("b".to_string(), 1);
    set.zadd("c".to_string(), 2);
    set.zadd("b".to_string(), 5);
    let items = set.zrange_withscores(0, -1);
    let names: Vec<&str> = items.iter().map(|(m, _)| m.as_str()).collect();
    assert_eq!(names, vec!["c", "a", "b"]);
    assert_eq!(set.zscore("b"), Some(5));
    assert_eq!(set.zscore("zz"), None);
    assert_eq!(set.zrangebyscore(2, 3), vec!["c".to_string(), "a".to_string()]);
    assert!(set.zrem("a"));
    assert!(!set.zrem("a"));
    assert_eq!(set.zrange_withscores(-1, -1), vec![("b".to_string(), 5)]);
    assert_eq!(set.zrange_withscores(5, 9), vec![]);
}

#[test]
fn depth_index_holds_every_node_with_its_score() {
    let mut fs = SharesFS::new(TEST_NAMESPACE_ID, TEST_COMMUNITY);
    fs.init_user_directory("/", now()).unwrap();
    let (a, _) = fs.mkdir(0, "a", now(), STAMP).unwrap();
    let (b, _) = fs.mkdir(a, "b", now(), STAMP).unwrap();
    fs.create(b, "c", graymamba::nfs::sattr3 { mode: None, size: None, atime: graymamba::nfs::set_time::DONT_CHANGE, mtime: graymamba::nfs::set_time::DONT_CHANGE }, now(), STAMP).unwrap();
    assert_eq!(fs.depth_index.zscore("/"), Some(1));
    assert_eq!(fs.depth_index.zscore("/a"), Some(2));
    assert_eq!(fs.depth_index.zscore("/a/b"), Some(3));
    assert_eq!(fs.depth_index.zscore("/a/b/c"), Some(4));
}

#[test]
fn path_and_id_maps_stay_inverse() {
    let mut fs = SharesFS::new(TEST_NAMESPACE_ID, TEST_COMMUNITY);
    fs.init_user_directory("/", now()).unwrap();
    let (d, _) = fs.mkdir(0, "d", now(), STAMP).unwrap();
    let f = fs.create_exclusive(d, "f", now(), STAMP).unwrap();
    fs.rename(d, "f", 0, "g", STAMP).unwrap();
    fs.remove(0, "d", STAMP).unwrap();
    for id in [0u64, f] {
        let p = fs.get_path_from_id(id).unwrap();
        assert_eq!(fs.get_id_from_path(&p).unwrap(), id);
    }
    assert!(fs.get_path_from_id(d).is_err());
    assert!(fs.get_id_from_path("/d").is_err());
}

#[test]
fn fileids_only_grow() {
    let mut fs = SharesFS::new(TEST_NAMESPACE_ID, TEST_COMMUNITY);
    fs.init_user_directory("/", now()).unwrap();
    let a = fs.create_exclusive(0, "a", now(), STAMP).unwrap();
    fs.remove(0, "a", STAMP).unwrap();
    let b = fs.create_exclusive(0, "b", now(), STAMP).unwrap();
    let c = fs.create_exclusive(0, "a", now(), STAMP).unwrap();
    assert!(a < b && b < c);
    assert_eq!((a, b, c), (1, 2, 3));
}
