use graymamba::nfs::{nfsstat3, sattr3, set_time, Timestamp};
use graymamba::sharesfs::SharesFS;

const STAMP: &str = "Oct 01 12:00:00.000000000 2023";

fn now() -> Timestamp {
    Timestamp { secs: 1700000000, nsecs: 42 }
}

fn no_attrs() -> sattr3 {
    sattr3 { mode: None, size: None, atime: set_time::DONT_CHANGE, mtime: set_time::DONT_CHANGE }
}

fn fresh() -> SharesFS {
    let mut fs = SharesFS::new("citrus", "orangery");
    fs.init_user_directory("/", now()).unwrap();
    fs
}

#[test]
fn write_then_read_after_flush() {
    let mut fs = fresh();
    let (u, _) = fs.mkdir(0, "u", now(), STAMP).unwrap();
    let (id, _) = fs.create(u, "a", no_attrs(), now(), STAMP).unwrap();
    let m1 = fs.write(id, 0, b"hello", now(), 1000, STAMP).unwrap();
    assert_eq!(m1.size, 5);
    let m2 = fs.write(id, 5, b" world", now(), 1001, STAMP).unwrap();
    assert_eq!(m2.size, 11);
    assert_eq!(m2.modification_time_secs, 1700000000);
    fs.commit_write(id, STAMP).unwrap();
    assert!(!fs.active_writes.contains_key(&id));
    let (data, eof) = fs.read(id, 0, 11, 2000, STAMP).unwrap();
    assert_eq!(data, b"hello world".to_vec());
    assert!(eof);
    assert_eq!(fs.getattr(id).unwrap().size, 11);
}

#[test]
fn read_commits_a_pending_buffer() {
    let mut fs = fresh();
    let (id, _) = fs.create(0, "f", no_attrs(), now(), STAMP).unwrap();
    fs.write(id, 0, b"abcdef", now(), 10, STAMP).unwrap();
    let (data, eof) = fs.read(id, 2, 3, 11, STAMP).unwrap();
    assert_eq!(data, b"cde".to_vec());
    assert!(!eof);
    let (tail, eof) = fs.read(id, 4, 100, 12, STAMP).unwrap();
    assert_eq!(tail, b"ef".to_vec());
    assert!(eof);
    let (none, eof) = fs.read(id, 9, 4, 13, STAMP).unwrap();
    assert!(none.is_empty());
    assert!(eof);
    let last = fs.audit_events.last().unwrap();
    assert_eq!(last.event_type, "REASSEMBLED");
    assert_eq!(last.file_path, "/f");
}

#[test]
fn overwrite_in_place_and_extend() {
    let mut fs = fresh();
    let (id, _) = fs.create(0, "g", no_attrs(), now(), STAMP).unwrap();
    fs.write(id, 0, b"xxxx", now(), 1, STAMP).unwrap();
    fs.commit_write(id, STAMP).unwrap();
    // the stored content is loaded into the new buffer at offset 0
    fs.write(id, 4, b"yy", now(), 2, STAMP).unwrap();
    fs.commit_write(id, STAMP).unwrap();
    assert_eq!(fs.read(id, 0, 10, 3, STAMP).unwrap().0, b"xxxxyy".to_vec());
    assert_eq!(fs.audit_events.iter().filter(|e| e.event_type == "DISASSEMBLED").count(), 2);
}

#[test]
fn pack_files_are_read_from_their_buffer() {
    let mut fs = fresh();
    let (repo, _) = fs.mkdir(0, "repo", now(), STAMP).unwrap();
    let (objects, _) = fs.mkdir(repo, "objects", now(), STAMP).unwrap();
    let (pack, _) = fs.mkdir(objects, "pack", now(), STAMP).unwrap();
    let (id, _) = fs.create(pack, "p1", no_attrs(), now(), STAMP).unwrap();
    fs.write(id, 0, b"0123456789", now(), 5, STAMP).unwrap();
    let (data, eof) = fs.read(id, 3, 4, 6, STAMP).unwrap();
    assert_eq!(data, b"3456".to_vec());
    assert!(!eof);
    assert!(fs.active_writes.contains_key(&id));
    let (data, eof) = fs.read(id, 8, 10, 7, STAMP).unwrap();
    assert_eq!(data, b"89".to_vec());
    assert!(eof);
}

#[test]
fn flush_if_idle_commits_old_buffers() {
    let mut fs = fresh();
    let (id, _) = fs.create(0, "h", no_attrs(), now(), STAMP).unwrap();
    fs.write(id, 0, b"zz", now(), 100, STAMP).unwrap();
    assert!(!fs.flush_if_idle(id, 150, 100, STAMP));
    assert!(fs.flush_if_idle(id, 200, 100, STAMP));
    assert!(!fs.active_writes.contains_key(&id));
    assert!(!fs.flush_if_idle(id, 300, 100, STAMP));
}

#[test]
fn rename_moves_a_subtree() {
    let mut fs = fresh();
    let (a, _) = fs.mkdir(0, "a", now(), STAMP).unwrap();
    let (b, _) = fs.mkdir(a, "b", now(), STAMP).unwrap();
    let (c, _) = fs.create(b, "c", no_attrs(), now(), STAMP).unwrap();
    fs.rename(0, "a", 0, "x", STAMP).unwrap();
    assert_eq!(fs.lookup(0, "a"), Err(nfsstat3::NFS3ERR_NOENT));
    assert_eq!(fs.lookup(0, "x"), Ok(a));
    assert_eq!(fs.get_path_from_id(c).unwrap(), "/x/b/c");
    assert_eq!(fs.get_path_from_id(b).unwrap(), "/x/b");
    assert_eq!(graymamba::paths::depth_score("/x/b/c"), 4);
    assert_eq!(fs.depth_index.zscore("/x/b/c"), Some(4));
    assert_eq!(fs.lookup(b, "c"), Ok(c));
}

#[test]
fn rename_errors() {
    let mut fs = fresh();
    let (a, _) = fs.mkdir(0, "a", now(), STAMP).unwrap();
    fs.mkdir(a, "inner", now(), STAMP).unwrap();
    let (t, _) = fs.mkdir(0, "t", now(), STAMP).unwrap();
    fs.create(t, "keep", no_attrs(), now(), STAMP).unwrap();
    assert_eq!(fs.rename(0, "missing", 0, "y", STAMP), Err(nfsstat3::NFS3ERR_NOENT));
    assert_eq!(fs.rename(0, "a", a, "sub", STAMP), Err(nfsstat3::NFS3ERR_INVAL));
    assert_eq!(fs.rename(0, "a", 0, "t", STAMP), Err(nfsstat3::NFS3ERR_EXIST));
    assert_eq!(fs.rename(0, "", 0, "t", STAMP), Err(nfsstat3::NFS3ERR_INVAL));
    assert_eq!(fs.rename(99, "a", 0, "t", STAMP), Err(nfsstat3::NFS3ERR_STALE));
    // a file target is replaced
    let f = fs.create_exclusive(0, "f", now(), STAMP).unwrap();
    let g = fs.create_exclusive(0, "g", now(), STAMP).unwrap();
    fs.rename(0, "f", 0, "g", STAMP).unwrap();
    assert_eq!(fs.lookup(0, "g"), Ok(f));
    assert!(fs.get_path_from_id(g).is_err());
}

#[test]
fn create_errors_and_attributes() {
    let mut fs = fresh();
    let attrs = sattr3 { mode: Some(0o444), size: None, atime: set_time::DONT_CHANGE, mtime: set_time::DONT_CHANGE };
    let (id, attr) = fs.create(0, "f", attrs, now(), STAMP).unwrap();
    assert_eq!(attr.permissions, 0o644);
    assert_eq!(attr.ftype, 1);
    assert_eq!(attr.birth_time_secs, 1700000000);
    assert_eq!(attr.fileid, id);
    assert_eq!(fs.create(0, "f", attrs, now(), STAMP), Err(nfsstat3::NFS3ERR_EXIST));
    assert_eq!(fs.create(0, "", attrs, now(), STAMP), Err(nfsstat3::NFS3ERR_INVAL));
    assert_eq!(fs.create(77, "f", attrs, now(), STAMP), Err(nfsstat3::NFS3ERR_NOENT));
    assert_eq!(fs.create_exclusive(0, "f", now(), STAMP), Err(nfsstat3::NFS3ERR_EXIST));
    assert_eq!(fs.mkdir(0, "f", now(), STAMP), Err(nfsstat3::NFS3ERR_EXIST));
    assert_eq!(fs.mkdir(55, "d", now(), STAMP), Err(nfsstat3::NFS3ERR_STALE));
    assert_eq!(fs.get_ftype("/f"), Ok(1));
    assert_eq!(fs.get_ftype("/nope"), Err(nfsstat3::NFS3ERR_NOENT));
    assert_eq!(fs.getattr(1234), Err(nfsstat3::NFS3ERR_STALE));
}

#[test]
fn setattr_applies_each_field() {
    let mut fs = fresh();
    let (id, _) = fs.create(0, "f", no_attrs(), now(), STAMP).unwrap();
    let client = Timestamp { secs: 11, nsecs: 12 };
    let attrs = sattr3 {
        mode: Some(0o1777),
        size: Some(99),
        atime: set_time::SET_TO_CLIENT_TIME(client),
        mtime: set_time::SET_TO_SERVER_TIME,
    };
    let later = Timestamp { secs: 1800000000, nsecs: 7 };
    let m = fs.setattr(id, attrs, later, STAMP).unwrap();
    assert_eq!(m.permissions, 0o777);
    assert_eq!(m.size, 99);
    assert_eq!((m.access_time_secs, m.access_time_nsecs), (11, 12));
    assert_eq!((m.modification_time_secs, m.modification_time_nsecs), (1800000000, 7));
    assert_eq!(m.change_time_secs, 1700000000);
    assert_eq!(fs.getattr(id).unwrap(), m);
    assert_eq!(fs.setattr(999, attrs, later, STAMP), Err(nfsstat3::NFS3ERR_STALE));
}

#[test]
fn symlinks_keep_their_target() {
    let mut fs = fresh();
    let (id, attr) = fs.symlink(0, "ln", "/some/target", no_attrs(), now(), STAMP).unwrap();
    assert_eq!(attr.ftype, 2);
    assert_eq!(attr.size, 12);
    assert_eq!(attr.permissions, 0o777);
    assert_eq!(fs.readlink(id).unwrap(), "/some/target");
    assert_eq!(fs.symlink(0, "ln", "/x", no_attrs(), now(), STAMP), Err(nfsstat3::NFS3ERR_EXIST));
    assert_eq!(fs.symlink(0, "", "/x", no_attrs(), now(), STAMP), Err(nfsstat3::NFS3ERR_INVAL));
    assert_eq!(fs.symlink(0, "l2", "", no_attrs(), now(), STAMP), Err(nfsstat3::NFS3ERR_INVAL));
    let f = fs.create_exclusive(0, "plain", now(), STAMP).unwrap();
    assert_eq!(fs.readlink(f), Err(nfsstat3::NFS3ERR_INVAL));
    assert_eq!(fs.readlink(4242), Err(nfsstat3::NFS3ERR_STALE));
}

#[test]
fn remove_needs_an_empty_directory() {
    let mut fs = fresh();
    let (d, _) = fs.mkdir(0, "d", now(), STAMP).unwrap();
    let f = fs.create_exclusive(d, "f", now(), STAMP).unwrap();
    assert_eq!(fs.remove(0, "d", STAMP), Err(nfsstat3::NFS3ERR_NOTEMPTY));
    assert_eq!(fs.remove(0, "nothing", STAMP), Err(nfsstat3::NFS3ERR_NOENT));
    assert_eq!(fs.remove(0, "", STAMP), Err(nfsstat3::NFS3ERR_INVAL));
    fs.write(f, 0, b"data", now(), 1, STAMP).unwrap();
    fs.remove(d, "f", STAMP).unwrap();
    assert!(!fs.active_writes.contains_key(&f));
    fs.remove(0, "d", STAMP).unwrap();
    assert_eq!(fs.lookup(0, "d"), Err(nfsstat3::NFS3ERR_NOENT));
    let last = fs.audit_events.last().unwrap();
    assert_eq!(last.event_type, "DELETED");
    assert_eq!(last.file_path, "/d");
    assert_eq!(last.event_key, "{orangery}:");
}

#[test]
fn readdir_pages_by_id() {
    let mut fs = fresh();
    let (d, _) = fs.mkdir(0, "d", now(), STAMP).unwrap();
    let a = fs.create_exclusive(d, "a", now(), STAMP).unwrap();
    let b = fs.create_exclusive(d, "b", now(), STAMP).unwrap();
    let c = fs.create_exclusive(d, "c", now(), STAMP).unwrap();
    fs.mkdir(0, "other", now(), STAMP).unwrap();
    let page = fs.readdir(d, 0, 2, STAMP).unwrap();
    let ids: Vec<u64> = page.entries.iter().map(|e| e.fileid).collect();
    assert_eq!(ids, vec![a, b]);
    assert_eq!(page.entries[0].name, "a");
    assert!(!page.end);
    let rest = fs.readdir(d, b, 2, STAMP).unwrap();
    let ids: Vec<u64> = rest.entries.iter().map(|e| e.fileid).collect();
    assert_eq!(ids, vec![c]);
    assert!(rest.end);
    let seq = fs.readdir_sequential(d, a, 5).unwrap();
    assert_eq!(seq.entries.len(), 2);
    assert!(seq.end);
    let root = fs.readdir(0, 0, 10, STAMP).unwrap();
    let names: Vec<String> = root.entries.iter().map(|e| e.name.clone()).collect();
    assert_eq!(names, vec!["d".to_string(), "other".to_string()]);
    assert_eq!(fs.get_direct_children("/d").unwrap(), vec![a, b, c]);
    assert_eq!(fs.readdir(999, 0, 1, STAMP).err(), Some(nfsstat3::NFS3ERR_STALE));
    assert_eq!(fs.audit_events.last().unwrap().event_type, "DIRECTORY_READ");
}

#[test]
fn lookup_resolves_names() {
    let mut fs = fresh();
    let (d, _) = fs.mkdir(0, "d", now(), STAMP).unwrap();
    let f = fs.create_exclusive(d, "f", now(), STAMP).unwrap();
    assert_eq!(fs.lookup(d, "f"), Ok(f));
    assert_eq!(fs.lookup(0, "d"), Ok(d));
    assert_eq!(fs.lookup(d, "g"), Err(nfsstat3::NFS3ERR_NOENT));
    assert_eq!(fs.lookup(500, "g"), Err(nfsstat3::NFS3ERR_STALE));
    assert_eq!(fs.get_member_keys("/d/*"), Ok(true));
    assert_eq!(fs.get_member_keys("/e*"), Ok(false));
}

#[test]
fn test_entries_join_the_index() {
    let mut fs = fresh();
    fs.create_test_entry(0, "/t", 40, now()).unwrap();
    assert_eq!(fs.get_id_from_path("/t"), Ok(40));
    assert_eq!(fs.next_fileid, 40);
    assert_eq!(fs.create_test_entry(0, "/t", 41, now()), Err(nfsstat3::NFS3ERR_EXIST));
    assert_eq!(fs.create_test_entry(0, "/u", 0, now()), Err(nfsstat3::NFS3ERR_EXIST));
    assert_eq!(fs.create_test_entry(0, "/v", 41, now()).is_ok(), true);
    let next = fs.create_exclusive(0, "w", now(), STAMP).unwrap();
    assert_eq!(next, 42);
}

#[test]
fn each_mutation_queues_one_event() {
    let mut fs = fresh();
    let n0 = fs.audit_events.len();
    let (d, _) = fs.mkdir(0, "d", now(), STAMP).unwrap();
    let f = fs.create_exclusive(d, "f", now(), STAMP).unwrap();
    let (g, _) = fs.create(d, "g", no_attrs(), now(), STAMP).unwrap();
    fs.symlink(d, "l", "/t", no_attrs(), now(), STAMP).unwrap();
    fs.setattr(g, no_attrs(), now(), STAMP).unwrap();
    fs.write(f, 0, b"x", now(), 1, STAMP).unwrap();
    fs.rename(d, "g", d, "h", STAMP).unwrap();
    assert_eq!(fs.audit_events.len(), n0 + 7);
    for e in &fs.audit_events[n0..] {
        assert_eq!(e.event_type, "MODIFIED");
        assert_eq!(e.event_key, "{orangery}:");
        assert_eq!(e.creation_time, STAMP);
    }
    assert_eq!(fs.audit_events.last().unwrap().file_path, "/d/h");
    // a failed call queues nothing
    assert!(fs.mkdir(0, "d", now(), STAMP).is_err());
    assert_eq!(fs.audit_events.len(), n0 + 7);
}

#[test]
fn pack_files_read_back_what_was_written() {
    let mut fs = fresh();
    let (u, _) = fs.mkdir(0, "u", now(), STAMP).unwrap();
    let (objects, _) = fs.mkdir(u, "objects", now(), STAMP).unwrap();
    let (pack, _) = fs.mkdir(objects, "pack", now(), STAMP).unwrap();
    let (id, _) = fs.create(pack, "p", no_attrs(), now(), STAMP).unwrap();
    fs.write(id, 5, b"abc", now(), 1, STAMP).unwrap();
    let n = fs.audit_events.len();
    let (data, eof) = fs.read(id, 5, 3, 2, STAMP).unwrap();
    assert_eq!(data, b"abc".to_vec());
    assert!(eof);
    let (head, eof) = fs.read(id, 0, 5, 3, STAMP).unwrap();
    assert_eq!(head, vec![0u8; 5]);
    assert!(!eof);
    assert_eq!(fs.audit_events.len(), n + 2);
    assert_eq!(fs.audit_events.last().unwrap().event_type, "REASSEMBLED");
    assert_eq!(fs.audit_events.last().unwrap().event_key, "u");
}

#[test]
fn names_with_slashes_are_refused() {
    let mut fs = fresh();
    fs.mkdir(0, "a", now(), STAMP).unwrap();
    assert_eq!(fs.mkdir(0, "a/b", now(), STAMP), Err(nfsstat3::NFS3ERR_INVAL));
    assert_eq!(fs.create_exclusive(0, "x/y", now(), STAMP), Err(nfsstat3::NFS3ERR_INVAL));
    assert_eq!(fs.rename(0, "a", 0, "c/d", STAMP), Err(nfsstat3::NFS3ERR_INVAL));
    assert_eq!(fs.remove(0, "a/", STAMP), Err(nfsstat3::NFS3ERR_INVAL));
}

#[test]
fn a_read_past_the_end_is_still_audited() {
    let mut fs = fresh();
    let (id, _) = fs.create(0, "f", no_attrs(), now(), STAMP).unwrap();
    let n = fs.audit_events.len();
    assert_eq!(fs.read(id, 10, 4, 1, STAMP).unwrap(), (vec![], true));
    assert_eq!(fs.audit_events.len(), n + 1);
}
