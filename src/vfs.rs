//! The NFS verbs over the namespace index: lookup, creation of files,
//! directories and symbolic links, attributes, and links' targets.
use vstd::prelude::*;

use crate::nfs::{
    fileid3,
    make_metadata,
    new_metadata,
    nfsstat3,
    sattr3,
    set_time,
    FileMetadata,
    Timestamp,
    DEFAULT_PERMISSIONS,
    FTYPE_DIR,
    FTYPE_FILE,
    FTYPE_SYMLINK,
};
use crate::paths::{
    is_valid_name,
    valid_name,
    child_path,
    is_root_path,
    join_path,
    last_path_element,
    last_segment,
    root_path,
    unmask_mode,
    unmasked_mode,
};
use crate::audit::{queued, EventType};
use crate::sharesfs::{Node, SharesFS};

verus! {

broadcast use vstd::std_specs::hash::group_hash_axioms;

/// The directory that `dirid` names: id 0 is the root, any other id names
/// the live node that holds it.
pub open spec fn dir_path(fs: SharesFS, dirid: u64) -> Option<Seq<char>> {
    if dirid == 0 {
        Some(root_path())
    } else if fs.has_id(dirid) {
        Some(fs.path_of(dirid))
    } else {
        None
    }
}

/// What `lookup(dirid, name)` returns in `fs`.
pub open spec fn lookup_result(fs: SharesFS, dirid: u64, name: Seq<char>) -> Result<u64, nfsstat3> {
    match dir_path(fs, dirid) {
        None => Err(nfsstat3::NFS3ERR_STALE),
        Some(parent) => {
            let child = join_path(parent, name);
            if fs.ids().contains_key(child) {
                Ok(fs.ids()[child])
            } else {
                Err(nfsstat3::NFS3ERR_NOENT)
            }
        },
    }
}

/// `new` is `old` with one more node, `p`, of id `id`; nothing else moved.
pub open spec fn grew_by(old: SharesFS, new: SharesFS, p: Seq<char>, id: u64) -> bool {
    &&& new.wf()
    &&& !old.has_path(p)
    &&& new.ids() == old.ids().insert(p, id)
    &&& new.nodes@.remove(p) == old.nodes@
    &&& new.nodes@.contains_key(p)
    &&& new.id_to_path@.remove(id) == old.id_to_path@
    &&& !old.id_to_path@.contains_key(id)
    &&& new.has_id(id) && new.path_of(id) == p
    &&& new.depths() == old.depths().insert(p, crate::paths::path_depth(p) as u64)
    &&& id == (if p == root_path() {
        0
    } else {
        (old.next_fileid + 1) as u64
    })
    &&& p != root_path() ==> old.next_fileid < u64::MAX
    &&& new.next_fileid == (if p == root_path() {
        old.next_fileid
    } else {
        (old.next_fileid + 1) as u64
    })
    &&& new.nodes@[p].data is None
    &&& new.users == old.users
    &&& new.active_writes == old.active_writes
    &&& new.community == old.community
    &&& new.namespace_id == old.namespace_id
}

/// Why adding the node `p` to `old` fails, if it does.
pub open spec fn add_failure(old: SharesFS, p: Seq<char>) -> Option<nfsstat3> {
    if old.has_path(p) {
        Some(nfsstat3::NFS3ERR_EXIST)
    } else if p.len() >= usize::MAX - 1 {
        Some(nfsstat3::NFS3ERR_NAMETOOLONG)
    } else if p != root_path() && old.next_fileid == u64::MAX {
        Some(nfsstat3::NFS3ERR_IO)
    } else {
        None
    }
}

/// What `init_user_directory(p)` leaves and returns: an existing node is
/// left as it is and its id returned; otherwise the directory is added.
pub open spec fn initialized(old: SharesFS, p: Seq<char>, new: SharesFS, r: Result<u64, nfsstat3>) -> bool {
    &&& old.has_path(p) ==> new == old && r == Ok::<u64, nfsstat3>(old.ids()[p])
    &&& !old.has_path(p) ==> match r {
        Ok(id) => {
            &&& grew_by(old, new, p, id)
            &&& new.audit_events == old.audit_events
            &&& new.nodes@[p].meta.ftype == FTYPE_DIR
        },
        Err(e) => add_failure(old, p) == Some(e) && new == old,
    }
}

/// Permissions for a requested mode, rwx for all where none is requested.
pub open spec fn requested_permissions(mode: Option<u32>) -> u32 {
    match mode {
        Some(m) => unmasked_mode(m),
        None => DEFAULT_PERMISSIONS,
    }
}

/// Metadata after `attr` is applied at `now`.
pub open spec fn applied_attrs(m: FileMetadata, attr: sattr3, now: Timestamp) -> FileMetadata {
    let m1 = match attr.atime {
        set_time::SET_TO_SERVER_TIME => FileMetadata {
            access_time_secs: now.secs,
            access_time_nsecs: now.nsecs,
            ..m
        },
        set_time::SET_TO_CLIENT_TIME(t) => FileMetadata {
            access_time_secs: t.secs,
            access_time_nsecs: t.nsecs,
            ..m
        },
        set_time::DONT_CHANGE => m,
    };
    let m2 = match attr.mtime {
        set_time::SET_TO_SERVER_TIME => FileMetadata {
            modification_time_secs: now.secs,
            modification_time_nsecs: now.nsecs,
            ..m1
        },
        set_time::SET_TO_CLIENT_TIME(t) => FileMetadata {
            modification_time_secs: t.secs,
            modification_time_nsecs: t.nsecs,
            ..m1
        },
        set_time::DONT_CHANGE => m1,
    };
    let m3 = match attr.mode {
        Some(mode) => FileMetadata { permissions: unmasked_mode(mode), ..m2 },
        None => m2,
    };
    match attr.size {
        Some(size) => FileMetadata { size, ..m3 },
        None => m3,
    }
}

impl SharesFS {
    /// Permission bits stored for a requested mode: bit 0x80 set, nine bits kept.
    pub fn mode_unmask_setattr(mode: u32) -> (r: u32)
        ensures
            r == unmasked_mode(mode),
            r <= 0x1FF,
    {
        unmask_mode(mode)
    }

    /// The text after the last slash of `input`: the name of the entry it names.
    pub fn get_last_path_element(&self, input: &str) -> (r: String)
        ensures
            r@ == last_segment(input@),
    {
        last_path_element(input)
    }

    /// The path of the directory `dirid`: the root for id 0.
    pub fn resolve_dir(&self, dirid: fileid3) -> (r: Result<String, nfsstat3>)
        requires
            self.wf(),
        ensures
            match r {
                Ok(p) => dir_path(*self, dirid) == Some(p@),
                Err(e) => dir_path(*self, dirid).is_none() && e == nfsstat3::NFS3ERR_STALE,
            },
    {
        if dirid == 0 {
            let r = String::from_str("/");
            proof {
                reveal_strlit("/");
            }
            assert(r@ =~= root_path());
            Ok(r)
        } else {
            self.get_path_from_id(dirid)
        }
    }

    /// The id of the entry `filename` in the directory `dirid`.
    pub fn lookup(&self, dirid: fileid3, filename: &str) -> (r: Result<fileid3, nfsstat3>)
        requires
            self.wf(),
        ensures
            r == lookup_result(*self, dirid, filename@),
    {
        let parent = self.resolve_dir(dirid)?;
        let child = child_path(parent.as_str(), filename);
        self.get_id_from_path(child.as_str())
    }

    /// Adds the node `path` with the given fields; its id is 0 for the root,
    /// the next one of the counter for any other path.
    fn add_node(
        &mut self,
        ftype: u8,
        path: String,
        permissions: u32,
        size: u64,
        symlink_target: Option<String>,
        now: Timestamp,
    ) -> (r: Result<fileid3, nfsstat3>)
        requires
            old(self).wf(),
        ensures
            match r {
                Ok(id) => {
                    &&& add_failure(*old(self), path@).is_none()
                    &&& grew_by(*old(self), *final(self), path@, id)
                    &&& final(self).nodes@[path@].meta == new_metadata(
                        ftype,
                        permissions,
                        size,
                        id,
                        now,
                    )
                    &&& final(self).nodes@[path@].symlink_target == symlink_target
                    &&& final(self).audit_events == old(self).audit_events
                    &&& final(self).nodes@[path@].data.is_none()
                },
                Err(e) => {
                    &&& add_failure(*old(self), path@) == Some(e)
                    &&& final(self).wf()
                    &&& *final(self) == *old(self)
                },
            },
    {
        if self.nodes.contains(path.as_str()) {
            return Err(nfsstat3::NFS3ERR_EXIST);
        }
        let plen = path.as_str().unicode_len();
        if plen >= usize::MAX - 1 {
            return Err(nfsstat3::NFS3ERR_NAMETOOLONG);
        }
        let id = if is_root_path(path.as_str()) {
            0
        } else {
            self.allocate_fileid()?
        };
        let meta = make_metadata(ftype, permissions, size, id, now);
        let node = Node { meta, symlink_target, data: None };
        proof {
            if id != 0 {
                assert(!self.id_to_path@.contains_key(id));
            } else {
                assert forall|i: u64| #[trigger] self.id_to_path@.contains_key(i) implies i
                    != 0 by {
                    assert(self.path_to_id@.contains_key(self.id_to_path@[i]@));
                }
            }
        }
        self.insert_node(path, node);
        proof {
            assert(self.nodes@.remove(path@) =~= old(self).nodes@);
            assert(self.id_to_path@.remove(id) =~= old(self).id_to_path@);
        }
        Ok(id)
    }

    /// Adds a file node at `path` with the given id, made at `now`; the
    /// counter moves up to that id where it is behind.
    pub fn create_test_entry(&mut self, _parent_id: fileid3, path: &str, id: fileid3, now: Timestamp) -> (r: Result<
        (),
        nfsstat3,
    >)
        requires
            old(self).wf(),
        ensures
            final(self).wf(),
            match r {
                Ok(_) => {
                    &&& !old(self).has_path(path@) && !old(self).has_id(id)
                    &&& final(self).ids() == old(self).ids().insert(path@, id)
                    &&& final(self).has_id(id) && final(self).path_of(id) == path@
                    &&& final(self).depths() == old(self).depths().insert(path@, crate::paths::path_depth(path@) as u64)
                    &&& final(self).next_fileid == (if id > old(self).next_fileid { id } else { old(self).next_fileid })
                },
                Err(e) => *final(self) == *old(self) && (if old(self).has_path(path@) || old(self).has_id(id) {
                    e == nfsstat3::NFS3ERR_EXIST
                } else if (id == 0) != (path@ == root_path()) {
                    e == nfsstat3::NFS3ERR_INVAL
                } else {
                    e == nfsstat3::NFS3ERR_NAMETOOLONG && path@.len() >= usize::MAX - 1
                }),
            },
    {
        if self.nodes.contains(path) || self.id_to_path.contains_key(&id) {
            return Err(nfsstat3::NFS3ERR_EXIST);
        }
        if (id == 0) != is_root_path(path) {
            return Err(nfsstat3::NFS3ERR_INVAL);
        }
        if path.unicode_len() >= usize::MAX - 1 {
            return Err(nfsstat3::NFS3ERR_NAMETOOLONG);
        }
        if id > self.next_fileid {
            self.next_fileid = id;
            assert forall|q: Seq<char>| #[trigger] self.path_to_id@.contains_key(q) implies self.path_to_id@[q] <= self.next_fileid by {
                assert(old(self).path_to_id@.contains_key(q));
            }
        }
        let meta = make_metadata(FTYPE_FILE, DEFAULT_PERMISSIONS, 0, id, now);
        self.insert_node(path.to_owned(), Node { meta, symlink_target: None, data: None });
        Ok(())
    }

    /// Creates the node `path` of type `ftype` with permissions rwx for all.
    pub fn create_node(&mut self, ftype: u8, path: &str, now: Timestamp) -> (r: Result<
        fileid3,
        nfsstat3,
    >)
        requires
            old(self).wf(),
        ensures
            match r {
                Ok(id) => {
                    &&& add_failure(*old(self), path@).is_none()
                    &&& grew_by(*old(self), *final(self), path@, id)
                    &&& final(self).nodes@[path@].meta == new_metadata(
                        ftype,
                        DEFAULT_PERMISSIONS,
                        0,
                        id,
                        now,
                    )
                    &&& final(self).nodes@[path@].symlink_target is None
                    &&& final(self).audit_events == old(self).audit_events
                },
                Err(e) => add_failure(*old(self), path@) == Some(e) && *final(self) == *old(self),
            },
    {
        self.add_node(ftype, path.to_owned(), DEFAULT_PERMISSIONS, 0, None, now)
    }

    /// Creates the file node `path` of type `ftype` with the mode `setattr` asks for.
    pub fn create_file_node(&mut self, ftype: u8, path: &str, setattr: sattr3, now: Timestamp) -> (r:
        Result<fileid3, nfsstat3>)
        requires
            old(self).wf(),
        ensures
            match r {
                Ok(id) => {
                    &&& add_failure(*old(self), path@).is_none()
                    &&& grew_by(*old(self), *final(self), path@, id)
                    &&& final(self).nodes@[path@].meta == new_metadata(
                        ftype,
                        requested_permissions(setattr.mode),
                        0,
                        id,
                        now,
                    )
                    &&& final(self).nodes@[path@].symlink_target is None
                    &&& final(self).audit_events == old(self).audit_events
                },
                Err(e) => add_failure(*old(self), path@) == Some(e) && *final(self) == *old(self),
            },
    {
        let permissions = match setattr.mode {
            Some(mode) => SharesFS::mode_unmask_setattr(mode),
            None => DEFAULT_PERMISSIONS,
        };
        self.add_node(ftype, path.to_owned(), permissions, 0, None, now)
    }

    /// Makes sure the directory `path` exists; its id either way. A second
    /// call on the same path changes nothing and returns the same id.
    pub fn init_user_directory(&mut self, path: &str, now: Timestamp) -> (r: Result<
        fileid3,
        nfsstat3,
    >)
        requires
            old(self).wf(),
        ensures
            final(self).wf(),
            initialized(*old(self), path@, *final(self), r),
    {
        if let Some(id) = self.path_to_id.get(path) {
            return Ok(*id);
        }
        self.create_node(FTYPE_DIR, path, now)
    }

    /// Creates the file `filename` in the directory `dirid` with the mode
    /// `setattr` asks for; its id and attributes.
    pub fn create(
        &mut self,
        dirid: fileid3,
        filename: &str,
        setattr: sattr3,
        now: Timestamp,
        stamp: &str,
    ) -> (r:
        Result<(fileid3, FileMetadata), nfsstat3>)
        requires
            old(self).wf(),
        ensures
            final(self).wf(),
            match r {
                Ok((id, attr)) => {
                    &&& valid_name(filename@)
                    &&& dir_path(*old(self), dirid) is Some
                    &&& grew_by(
                        *old(self),
                        *final(self),
                        join_path(dir_path(*old(self), dirid)->0, filename@),
                        id,
                    )
                    &&& attr == new_metadata(
                        FTYPE_FILE,
                        requested_permissions(setattr.mode),
                        0,
                        id,
                        now,
                    )
                    &&& final(self).nodes@[join_path(
                        dir_path(*old(self), dirid)->0,
                        filename@,
                    )].meta == attr
                    &&& final(self).nodes@[join_path(
                        dir_path(*old(self), dirid)->0,
                        filename@,
                    )].symlink_target is None
                    &&& queued(
                        old(self).audit_events@,
                        final(self).audit_events@,
                        EventType::Modified,
                        join_path(dir_path(*old(self), dirid)->0, filename@),
                        old(self).community@,
                        stamp@,
                    )
                },
                Err(e) => *final(self) == *old(self) && (if !valid_name(filename@) {
                    e == nfsstat3::NFS3ERR_INVAL
                } else if dir_path(*old(self), dirid) is None {
                    e == nfsstat3::NFS3ERR_NOENT
                } else {
                    add_failure(*old(self), join_path(dir_path(*old(self), dirid)->0, filename@))
                        == Some(e)
                }),
            },
    {
        if !is_valid_name(filename) {
            return Err(nfsstat3::NFS3ERR_INVAL);
        }
        let parent = match self.resolve_dir(dirid) {
            Ok(p) => p,
            Err(_) => {
                return Err(nfsstat3::NFS3ERR_NOENT);
            },
        };
        let path = child_path(parent.as_str(), filename);
        let permissions = match setattr.mode {
            Some(mode) => SharesFS::mode_unmask_setattr(mode),
            None => DEFAULT_PERMISSIONS,
        };
        let shown = path.clone();
        let id = self.add_node(FTYPE_FILE, path, permissions, 0, None, now)?;
        let attr = make_metadata(FTYPE_FILE, permissions, 0, id, now);
        let key = self.community.clone();
        self.record_event(EventType::Modified, shown.as_str(), key.as_str(), stamp);
        Ok((id, attr))
    }

    /// Creates the file `filename` in the directory `dirid`, failing where
    /// it exists already; its id.
    pub fn create_exclusive(&mut self, dirid: fileid3, filename: &str, now: Timestamp, stamp: &str) -> (r:
        Result<fileid3, nfsstat3>)
        requires
            old(self).wf(),
        ensures
            final(self).wf(),
            match r {
                Ok(id) => {
                    &&& valid_name(filename@)
                    &&& dir_path(*old(self), dirid) is Some
                    &&& grew_by(
                        *old(self),
                        *final(self),
                        join_path(dir_path(*old(self), dirid)->0, filename@),
                        id,
                    )
                    &&& final(self).nodes@[join_path(
                        dir_path(*old(self), dirid)->0,
                        filename@,
                    )].meta == new_metadata(FTYPE_FILE, DEFAULT_PERMISSIONS, 0, id, now)
                    &&& final(self).nodes@[join_path(
                        dir_path(*old(self), dirid)->0,
                        filename@,
                    )].symlink_target is None
                    &&& queued(
                        old(self).audit_events@,
                        final(self).audit_events@,
                        EventType::Modified,
                        join_path(dir_path(*old(self), dirid)->0, filename@),
                        old(self).community@,
                        stamp@,
                    )
                },
                Err(e) => *final(self) == *old(self) && (if !valid_name(filename@) {
                    e == nfsstat3::NFS3ERR_INVAL
                } else if dir_path(*old(self), dirid) is None {
                    e == nfsstat3::NFS3ERR_STALE
                } else {
                    add_failure(*old(self), join_path(dir_path(*old(self), dirid)->0, filename@))
                        == Some(e)
                }),
            },
    {
        if !is_valid_name(filename) {
            return Err(nfsstat3::NFS3ERR_INVAL);
        }
        let parent = self.resolve_dir(dirid)?;
        let path = child_path(parent.as_str(), filename);
        let shown = path.clone();
        let id = self.add_node(FTYPE_FILE, path, DEFAULT_PERMISSIONS, 0, None, now)?;
        let key = self.community.clone();
        self.record_event(EventType::Modified, shown.as_str(), key.as_str(), stamp);
        Ok(id)
    }

    /// Creates the directory `dirname` in the directory `dirid`; its id and attributes.
    pub fn mkdir(&mut self, dirid: fileid3, dirname: &str, now: Timestamp, stamp: &str) -> (r: Result<
        (fileid3, FileMetadata),
        nfsstat3,
    >)
        requires
            old(self).wf(),
        ensures
            final(self).wf(),
            match r {
                Ok((id, attr)) => {
                    &&& valid_name(dirname@)
                    &&& dir_path(*old(self), dirid) is Some
                    &&& grew_by(
                        *old(self),
                        *final(self),
                        join_path(dir_path(*old(self), dirid)->0, dirname@),
                        id,
                    )
                    &&& attr == new_metadata(FTYPE_DIR, DEFAULT_PERMISSIONS, 0, id, now)
                    &&& final(self).nodes@[join_path(
                        dir_path(*old(self), dirid)->0,
                        dirname@,
                    )].meta == attr
                    &&& final(self).nodes@[join_path(
                        dir_path(*old(self), dirid)->0,
                        dirname@,
                    )].symlink_target is None
                    &&& queued(
                        old(self).audit_events@,
                        final(self).audit_events@,
                        EventType::Modified,
                        join_path(dir_path(*old(self), dirid)->0, dirname@),
                        old(self).community@,
                        stamp@,
                    )
                },
                Err(e) => *final(self) == *old(self) && (if !valid_name(dirname@) {
                    e == nfsstat3::NFS3ERR_INVAL
                } else if dir_path(*old(self), dirid) is None {
                    e == nfsstat3::NFS3ERR_STALE
                } else {
                    add_failure(*old(self), join_path(dir_path(*old(self), dirid)->0, dirname@))
                        == Some(e)
                }),
            },
    {
        if !is_valid_name(dirname) {
            return Err(nfsstat3::NFS3ERR_INVAL);
        }
        let parent = self.resolve_dir(dirid)?;
        let path = child_path(parent.as_str(), dirname);
        let shown = path.clone();
        let id = self.add_node(FTYPE_DIR, path, DEFAULT_PERMISSIONS, 0, None, now)?;
        let key = self.community.clone();
        self.record_event(EventType::Modified, shown.as_str(), key.as_str(), stamp);
        Ok((id, make_metadata(FTYPE_DIR, DEFAULT_PERMISSIONS, 0, id, now)))
    }

    /// Creates the symbolic link `linkname` to `target` in the directory
    /// `dirid`; its id and attributes. The link's size is the byte length of
    /// its target.
    pub fn symlink(
        &mut self,
        dirid: fileid3,
        linkname: &str,
        target: &str,
        attr: sattr3,
        now: Timestamp,
        stamp: &str,
    ) -> (r: Result<(fileid3, FileMetadata), nfsstat3>)
        requires
            old(self).wf(),
        ensures
            final(self).wf(),
            match r {
                Ok((id, a)) => {
                    &&& valid_name(linkname@) && target@.len() > 0
                    &&& dir_path(*old(self), dirid) is Some
                    &&& grew_by(
                        *old(self),
                        *final(self),
                        join_path(dir_path(*old(self), dirid)->0, linkname@),
                        id,
                    )
                    &&& a == new_metadata(
                        FTYPE_SYMLINK,
                        requested_permissions(attr.mode),
                        target.len() as u64,
                        id,
                        now,
                    )
                    &&& final(self).nodes@[join_path(
                        dir_path(*old(self), dirid)->0,
                        linkname@,
                    )].meta == a
                    &&& final(self).nodes@[join_path(
                        dir_path(*old(self), dirid)->0,
                        linkname@,
                    )].symlink_target matches Some(t) && t@ == target@
                    &&& queued(
                        old(self).audit_events@,
                        final(self).audit_events@,
                        EventType::Modified,
                        join_path(dir_path(*old(self), dirid)->0, linkname@),
                        old(self).community@,
                        stamp@,
                    )
                },
                Err(e) => *final(self) == *old(self) && (if !valid_name(linkname@) || target@.len()
                    == 0 {
                    e == nfsstat3::NFS3ERR_INVAL
                } else if dir_path(*old(self), dirid) is None {
                    e == nfsstat3::NFS3ERR_STALE
                } else {
                    add_failure(*old(self), join_path(dir_path(*old(self), dirid)->0, linkname@))
                        == Some(e)
                }),
            },
    {
        if !is_valid_name(linkname) || target.unicode_len() == 0 {
            return Err(nfsstat3::NFS3ERR_INVAL);
        }
        let parent = self.resolve_dir(dirid)?;
        let path = child_path(parent.as_str(), linkname);
        let permissions = match attr.mode {
            Some(mode) => SharesFS::mode_unmask_setattr(mode),
            None => DEFAULT_PERMISSIONS,
        };
        let size = target.len() as u64;
        let shown = path.clone();
        let id = self.add_node(
            FTYPE_SYMLINK,
            path,
            permissions,
            size,
            Some(target.to_owned()),
            now,
        )?;
        let key = self.community.clone();
        self.record_event(EventType::Modified, shown.as_str(), key.as_str(), stamp);
        Ok((id, make_metadata(FTYPE_SYMLINK, permissions, size, id, now)))
    }

    /// The target of the symbolic link `id`.
    pub fn readlink(&self, id: fileid3) -> (r: Result<String, nfsstat3>)
        requires
            self.wf(),
        ensures
            match r {
                Ok(t) => {
                    &&& self.has_id(id)
                    &&& self.nodes@[self.path_of(id)].symlink_target matches Some(s) && s@ == t@
                    &&& t@.len() > 0
                },
                Err(e) => if !self.has_id(id) {
                    e == nfsstat3::NFS3ERR_STALE
                } else {
                    e == nfsstat3::NFS3ERR_INVAL && !(self.nodes@[self.path_of(
                        id,
                    )].symlink_target matches Some(s) && s@.len() > 0)
                },
            },
    {
        let path = self.get_path_from_id(id)?;
        match self.nodes.get(path.as_str()) {
            Some(node) => match &node.symlink_target {
                Some(t) => {
                    if t.as_str().unicode_len() == 0 {
                        Err(nfsstat3::NFS3ERR_INVAL)
                    } else {
                        Ok(t.clone())
                    }
                },
                None => Err(nfsstat3::NFS3ERR_INVAL),
            },
            None => Err(nfsstat3::NFS3ERR_INVAL),
        }
    }

    /// The metadata of the node `id`.
    pub fn get_metadata_from_id(&self, id: fileid3) -> (r: Result<FileMetadata, nfsstat3>)
        requires
            self.wf(),
        ensures
            match r {
                Ok(m) => self.has_id(id) && m == self.nodes@[self.path_of(id)].meta,
                Err(e) => !self.has_id(id) && e == nfsstat3::NFS3ERR_STALE,
            },
    {
        let path = self.get_path_from_id(id)?;
        match self.nodes.get(path.as_str()) {
            Some(node) => Ok(node.meta),
            None => Err(nfsstat3::NFS3ERR_NOENT),
        }
    }

    /// The attributes of the node `id`.
    pub fn getattr(&self, id: fileid3) -> (r: Result<FileMetadata, nfsstat3>)
        requires
            self.wf(),
        ensures
            match r {
                Ok(m) => self.has_id(id) && m == self.nodes@[self.path_of(id)].meta,
                Err(e) => !self.has_id(id) && e == nfsstat3::NFS3ERR_STALE,
            },
    {
        self.get_metadata_from_id(id)
    }

    /// The type of the node at `path`.
    pub fn get_ftype(&self, path: &str) -> (r: Result<u8, nfsstat3>)
        requires
            self.wf(),
        ensures
            match r {
                Ok(t) => self.has_path(path@) && t == self.nodes@[path@].meta.ftype,
                Err(e) => !self.has_path(path@) && e == nfsstat3::NFS3ERR_NOENT,
            },
    {
        match self.nodes.get(path) {
            Some(node) => Ok(node.meta.ftype),
            None => Err(nfsstat3::NFS3ERR_NOENT),
        }
    }

    /// Applies `setattr` to the node `id` at `now`; its new attributes.
    pub fn setattr(&mut self, id: fileid3, setattr: sattr3, now: Timestamp, stamp: &str) -> (r: Result<
        FileMetadata,
        nfsstat3,
    >)
        requires
            old(self).wf(),
        ensures
            final(self).wf(),
            final(self).ids() == old(self).ids(),
            final(self).id_to_path@ == old(self).id_to_path@,
            final(self).depths() == old(self).depths(),
            final(self).next_fileid == old(self).next_fileid,
            match r {
                Ok(m) => {
                    &&& old(self).has_id(id)
                    &&& m == applied_attrs(old(self).nodes@[old(self).path_of(id)].meta, setattr, now)
                    &&& final(self).nodes@ == old(self).nodes@.insert(
                        old(self).path_of(id),
                        Node { meta: m, ..old(self).nodes@[old(self).path_of(id)] },
                    )
                    &&& queued(
                        old(self).audit_events@,
                        final(self).audit_events@,
                        EventType::Modified,
                        old(self).path_of(id),
                        old(self).community@,
                        stamp@,
                    )
                },
                Err(e) => !old(self).has_id(id) && e == nfsstat3::NFS3ERR_STALE && *final(self)
                    == *old(self),
            },
    {
        let path = self.get_path_from_id(id)?;
        let node_meta = match self.nodes.get(path.as_str()) {
            Some(n) => n.meta,
            None => {
                proof {
                    assert(false);
                }
                return Err(nfsstat3::NFS3ERR_STALE);
            },
        };
        let mut m = node_meta;
        match setattr.atime {
            set_time::SET_TO_SERVER_TIME => {
                m.access_time_secs = now.secs;
                m.access_time_nsecs = now.nsecs;
            },
            set_time::SET_TO_CLIENT_TIME(t) => {
                m.access_time_secs = t.secs;
                m.access_time_nsecs = t.nsecs;
            },
            set_time::DONT_CHANGE => {},
        }
        match setattr.mtime {
            set_time::SET_TO_SERVER_TIME => {
                m.modification_time_secs = now.secs;
                m.modification_time_nsecs = now.nsecs;
            },
            set_time::SET_TO_CLIENT_TIME(t) => {
                m.modification_time_secs = t.secs;
                m.modification_time_nsecs = t.nsecs;
            },
            set_time::DONT_CHANGE => {},
        }
        if let Some(mode) = setattr.mode {
            m.permissions = SharesFS::mode_unmask_setattr(mode);
        }
        if let Some(size) = setattr.size {
            m.size = size;
        }
        self.set_meta(path.as_str(), m);
        let key = self.community.clone();
        self.record_event(EventType::Modified, path.as_str(), key.as_str(), stamp);
        Ok(m)
    }
}

} // verus!
