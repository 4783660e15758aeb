//! The namespace index and the filesystem built on it. Each namespace keeps
//! four stores: the node rows by path, the path-to-id map, the id-to-path map
//! and the depth index; a counter hands out file ids.
use std::collections::HashMap;
use vstd::prelude::*;

use crate::audit::{make_event, queued, AuditEvent, EventType};
use crate::channel_buffer::ActiveWrite;
use crate::nfs::{fileid3, nfsstat3, FileMetadata, KeyType};
use crate::paths::{depth_score, path_depth, root_path};
use crate::sorted_set::SortedSet;
use crate::str_table::StrTable;

verus! {

broadcast use vstd::std_specs::hash::group_hash_axioms;

/// A node row: its metadata, the target of a symbolic link, and the encoded
/// contents of a file.
pub struct Node {
    pub meta: FileMetadata,
    pub symlink_target: Option<String>,
    pub data: Option<String>,
}

pub struct SharesFS {
    pub namespace_id: String,
    pub community: String,
    pub nodes: StrTable<Node>,
    pub path_to_id: StrTable<fileid3>,
    pub id_to_path: HashMap<fileid3, String>,
    pub depth_index: SortedSet,
    /// The last file id handed out.
    pub next_fileid: u64,
    /// Audit events not yet handed to the audit pipeline, oldest first.
    pub audit_events: Vec<AuditEvent>,
    /// The class of each known user key.
    pub users: StrTable<KeyType>,
    /// The write coalescer: a buffer for each file being written.
    pub active_writes: HashMap<fileid3, ActiveWrite>,
}

impl SharesFS {
    /// Path of every live node to its id.
    pub open spec fn ids(&self) -> Map<Seq<char>, u64> {
        self.path_to_id@
    }

    /// Whether `id` names a live node.
    pub open spec fn has_id(&self, id: u64) -> bool {
        self.id_to_path@.contains_key(id)
    }

    /// Path of the live node `id`.
    pub open spec fn path_of(&self, id: u64) -> Seq<char> {
        self.id_to_path@[id]@
    }

    /// Score of every path in the depth index.
    pub open spec fn depths(&self) -> Map<Seq<char>, u64> {
        self.depth_index.scores()
    }

    pub open spec fn node(&self, p: Seq<char>) -> Node {
        self.nodes@[p]
    }

    pub open spec fn has_path(&self, p: Seq<char>) -> bool {
        self.nodes@.contains_key(p)
    }

    pub open spec fn wf(&self) -> bool {
        &&& self.nodes.wf()
        &&& self.path_to_id.wf()
        &&& self.depth_index.wf()
        &&& self.users.wf()
        &&& forall|p: Seq<char>| #[trigger]
            self.nodes@.contains_key(p) <==> self.path_to_id@.contains_key(p)
        &&& forall|p: Seq<char>| #[trigger]
            self.depth_index.scores().contains_key(p) <==> self.nodes@.contains_key(p)
        &&& forall|p: Seq<char>| #[trigger]
            self.path_to_id@.contains_key(p) ==> {
                &&& self.id_to_path@.contains_key(self.path_to_id@[p])
                &&& self.id_to_path@[self.path_to_id@[p]]@ == p
                &&& self.path_to_id@[p] <= self.next_fileid
                &&& self.nodes@[p].meta.fileid == self.path_to_id@[p]
                &&& self.depth_index.scores()[p] == path_depth(p)
                &&& p.len() < usize::MAX - 1
                &&& (self.path_to_id@[p] == 0 <==> p == root_path())
            }
        &&& forall|id: u64| #[trigger]
            self.active_writes@.contains_key(id) ==> self.active_writes@[id].channel.wf()
                && self.id_to_path@.contains_key(id)
        &&& forall|id: u64| #[trigger]
            self.id_to_path@.contains_key(id) ==> {
                &&& self.path_to_id@.contains_key(self.id_to_path@[id]@)
                &&& self.path_to_id@[self.id_to_path@[id]@] == id
            }
    }

    /// An empty namespace `namespace` of the community `community`.
    pub fn new(namespace: &str, community: &str) -> (r: SharesFS)
        ensures
            r.wf(),
            r.namespace_id@ == namespace@,
            r.community@ == community_tag(community@),
            r.ids().is_empty(),
            r.id_to_path@.is_empty(),
            r.nodes@.is_empty(),
            r.next_fileid == 0,
            r.audit_events@.len() == 0,
    {
        SharesFS {
            namespace_id: namespace.to_owned(),
            community: make_community_tag(community),
            nodes: StrTable::new(),
            path_to_id: StrTable::new(),
            id_to_path: HashMap::new(),
            depth_index: SortedSet::new(),
            next_fileid: 0,
            audit_events: Vec::new(),
            users: StrTable::new(),
            active_writes: HashMap::new(),
        }
    }

    /// Moves this filesystem to the namespace `namespace` of `community`.
    pub fn set_namespace_id_and_community(&mut self, namespace: &str, community: &str)
        requires
            old(self).wf(),
        ensures
            final(self).wf(),
            final(self).namespace_id@ == namespace@,
            final(self).community@ == community_tag(community@),
            final(self).nodes == old(self).nodes,
            final(self).path_to_id == old(self).path_to_id,
            final(self).id_to_path == old(self).id_to_path,
            final(self).depth_index == old(self).depth_index,
            final(self).next_fileid == old(self).next_fileid,
            final(self).active_writes == old(self).active_writes,
    {
        self.namespace_id = namespace.to_owned();
        self.community = make_community_tag(community);
    }

    /// The namespace id and the community tag.
    pub fn get_namespace_id_and_community(&self) -> (r: (String, String))
        ensures
            r.0@ == self.namespace_id@,
            r.1@ == self.community@,
    {
        (self.namespace_id.clone(), self.community.clone())
    }

    /// The path of the node `id`.
    pub fn get_path_from_id(&self, id: fileid3) -> (r: Result<String, nfsstat3>)
        requires
            self.wf(),
        ensures
            match r {
                Ok(p) => self.has_id(id) && p@ == self.path_of(id),
                Err(e) => !self.has_id(id) && e == nfsstat3::NFS3ERR_STALE,
            },
    {
        match self.id_to_path.get(&id) {
            Some(p) => Ok(p.clone()),
            None => Err(nfsstat3::NFS3ERR_STALE),
        }
    }

    /// The id of the node at `path`.
    pub fn get_id_from_path(&self, path: &str) -> (r: Result<fileid3, nfsstat3>)
        requires
            self.wf(),
        ensures
            match r {
                Ok(id) => self.ids().contains_key(path@) && id == self.ids()[path@],
                Err(e) => !self.ids().contains_key(path@) && e == nfsstat3::NFS3ERR_NOENT,
            },
    {
        match self.path_to_id.get(path) {
            Some(id) => Ok(*id),
            None => Err(nfsstat3::NFS3ERR_NOENT),
        }
    }

    /// Hands out the next file id.
    pub(crate) fn allocate_fileid(&mut self) -> (r: Result<fileid3, nfsstat3>)
        requires
            old(self).wf(),
        ensures
            final(self).wf(),
            final(self).nodes == old(self).nodes,
            final(self).path_to_id == old(self).path_to_id,
            final(self).id_to_path == old(self).id_to_path,
            final(self).depth_index == old(self).depth_index,
            final(self).audit_events == old(self).audit_events,
            final(self).namespace_id == old(self).namespace_id,
            final(self).community == old(self).community,
            final(self).users == old(self).users,
            final(self).active_writes == old(self).active_writes,
            match r {
                Ok(id) => {
                    &&& old(self).next_fileid < u64::MAX
                    &&& id == old(self).next_fileid + 1
                    &&& final(self).next_fileid == id
                },
                Err(e) => old(self).next_fileid == u64::MAX && e == nfsstat3::NFS3ERR_IO
                    && final(self).next_fileid == old(self).next_fileid,
            },
    {
        if self.next_fileid == u64::MAX {
            return Err(nfsstat3::NFS3ERR_IO);
        }
        self.next_fileid = self.next_fileid + 1;
        Ok(self.next_fileid)
    }

    /// Adds the node `path` with `node`; the four stores gain its rows.
    pub(crate) fn insert_node(&mut self, path: String, node: Node)
        requires
            old(self).wf(),
            !old(self).has_path(path@),
            !old(self).id_to_path@.contains_key(node.meta.fileid),
            node.meta.fileid <= old(self).next_fileid,
            node.meta.fileid == 0 <==> path@ == root_path(),
            path@.len() < usize::MAX - 1,
        ensures
            final(self).wf(),
            final(self).nodes@ == old(self).nodes@.insert(path@, node),
            final(self).ids() == old(self).ids().insert(path@, node.meta.fileid),
            final(self).id_to_path@ == old(self).id_to_path@.insert(node.meta.fileid, path),
            final(self).depths() == old(self).depths().insert(path@, path_depth(path@) as u64),
            final(self).next_fileid == old(self).next_fileid,
            final(self).audit_events == old(self).audit_events,
            final(self).namespace_id == old(self).namespace_id,
            final(self).community == old(self).community,
            final(self).users == old(self).users,
            final(self).active_writes == old(self).active_writes,
    {
        let id = node.meta.fileid;
        let score = depth_score(path.as_str());
        self.depth_index.zadd(path.clone(), score);
        self.path_to_id.insert(path.clone(), id);
        self.id_to_path.insert(id, path.clone());
        self.nodes.insert(path, node);
        proof {
            let p = path@;
            assert forall|q: Seq<char>| #[trigger] self.path_to_id@.contains_key(q) implies {
                &&& self.id_to_path@.contains_key(self.path_to_id@[q])
                &&& self.id_to_path@[self.path_to_id@[q]]@ == q
                &&& self.path_to_id@[q] <= self.next_fileid
                &&& self.nodes@[q].meta.fileid == self.path_to_id@[q]
                &&& self.depth_index.scores()[q] == path_depth(q)
                &&& q.len() < usize::MAX - 1
                &&& (self.path_to_id@[q] == 0 <==> q == root_path())
            } by {
                if q != p {
                    assert(old(self).path_to_id@.contains_key(q));
                }
            }
            assert forall|i: u64| #[trigger] self.id_to_path@.contains_key(i) implies {
                &&& self.path_to_id@.contains_key(self.id_to_path@[i]@)
                &&& self.path_to_id@[self.id_to_path@[i]@] == i
            } by {
                if i != id {
                    assert(old(self).id_to_path@.contains_key(i));
                    assert(old(self).id_to_path@[i]@ != p);
                }
            }
        }
    }
}

impl SharesFS {
    /// Replaces the row of the live node `path` by `node`, which keeps its id.
    pub(crate) fn put_node(&mut self, path: String, node: Node)
        requires
            old(self).wf(),
            old(self).has_path(path@),
            node.meta.fileid == old(self).nodes@[path@].meta.fileid,
        ensures
            final(self).wf(),
            final(self).nodes@ == old(self).nodes@.insert(path@, node),
            final(self).path_to_id == old(self).path_to_id,
            final(self).id_to_path == old(self).id_to_path,
            final(self).depth_index == old(self).depth_index,
            final(self).next_fileid == old(self).next_fileid,
            final(self).audit_events == old(self).audit_events,
            final(self).users == old(self).users,
            final(self).active_writes == old(self).active_writes,
            final(self).namespace_id == old(self).namespace_id,
            final(self).community == old(self).community,
    {
        let ghost before = *old(self);
        let ghost n = node;
        let ghost p = path@;
        self.nodes.insert(path, node);
        proof {
            lemma_row_replaced(before, *self, p, n);
        }
    }

    /// Takes the buffer of `id` out of the coalescer's table.
    pub(crate) fn take_buffer(&mut self, id: fileid3) -> (r: Option<ActiveWrite>)
        requires
            old(self).wf(),
        ensures
            final(self).wf(),
            final(self).active_writes@ == old(self).active_writes@.remove(id),
            r.is_some() == old(self).active_writes@.contains_key(id),
            r matches Some(a) ==> a == old(self).active_writes@[id] && a.channel.wf(),
            final(self).nodes == old(self).nodes,
            final(self).path_to_id == old(self).path_to_id,
            final(self).id_to_path == old(self).id_to_path,
            final(self).depth_index == old(self).depth_index,
            final(self).next_fileid == old(self).next_fileid,
            final(self).audit_events == old(self).audit_events,
            final(self).users == old(self).users,
            final(self).namespace_id == old(self).namespace_id,
            final(self).community == old(self).community,
    {
        self.active_writes.remove(&id)
    }

    /// Puts `write` into the coalescer's table as the buffer of the live node `id`.
    pub(crate) fn put_buffer(&mut self, id: fileid3, write: ActiveWrite)
        requires
            old(self).wf(),
            old(self).has_id(id),
            write.channel.wf(),
        ensures
            final(self).wf(),
            final(self).active_writes@ == old(self).active_writes@.insert(id, write),
            final(self).nodes == old(self).nodes,
            final(self).path_to_id == old(self).path_to_id,
            final(self).id_to_path == old(self).id_to_path,
            final(self).depth_index == old(self).depth_index,
            final(self).next_fileid == old(self).next_fileid,
            final(self).audit_events == old(self).audit_events,
            final(self).users == old(self).users,
            final(self).namespace_id == old(self).namespace_id,
            final(self).community == old(self).community,
    {
        self.active_writes.insert(id, write);
    }
}

impl SharesFS {
    /// Takes the live node `path` out of the four stores.
    pub(crate) fn remove_node(&mut self, path: &str) -> (r: fileid3)
        requires
            old(self).wf(),
            old(self).has_path(path@),
            !old(self).active_writes@.contains_key(old(self).ids()[path@]),
        ensures
            final(self).wf(),
            r == old(self).ids()[path@],
            final(self).nodes@ == old(self).nodes@.remove(path@),
            final(self).ids() == old(self).ids().remove(path@),
            final(self).id_to_path@ == old(self).id_to_path@.remove(r),
            final(self).depths() == old(self).depths().remove(path@),
            final(self).next_fileid == old(self).next_fileid,
            final(self).audit_events == old(self).audit_events,
            final(self).users == old(self).users,
            final(self).active_writes == old(self).active_writes,
            final(self).namespace_id == old(self).namespace_id,
            final(self).community == old(self).community,
    {
        let ghost p = path@;
        let id = match self.path_to_id.remove(path) {
            Some(id) => id,
            None => {
                proof {
                    assert(false);
                }
                0
            },
        };
        self.nodes.remove(path);
        self.depth_index.zrem(path);
        self.id_to_path.remove(&id);
        proof {
            assert forall|q: Seq<char>| #[trigger] self.path_to_id@.contains_key(q) implies {
                &&& self.id_to_path@.contains_key(self.path_to_id@[q])
                &&& self.id_to_path@[self.path_to_id@[q]]@ == q
                &&& self.path_to_id@[q] <= self.next_fileid
                &&& self.nodes@[q].meta.fileid == self.path_to_id@[q]
                &&& self.depth_index.scores()[q] == path_depth(q)
                &&& q.len() < usize::MAX - 1
                &&& (self.path_to_id@[q] == 0 <==> q == root_path())
            } by {
                assert(old(self).path_to_id@.contains_key(q));
                assert(old(self).path_to_id@[q] != id);
            }
            assert forall|i: u64| #[trigger] self.id_to_path@.contains_key(i) implies {
                &&& self.path_to_id@.contains_key(self.id_to_path@[i]@)
                &&& self.path_to_id@[self.id_to_path@[i]@] == i
            } by {
                assert(old(self).id_to_path@.contains_key(i));
            }
            assert forall|i: u64| #[trigger] self.active_writes@.contains_key(i) implies self.active_writes@[i].channel.wf()
                && self.id_to_path@.contains_key(i) by {
                assert(old(self).active_writes@.contains_key(i));
            }
        }
        id
    }
}

impl SharesFS {
    /// Moves the live node `from` to the free path `to`; it keeps its id and
    /// row, and takes the depth score of its new path.
    pub(crate) fn move_node(&mut self, from: &str, to: String) -> (r: fileid3)
        requires
            old(self).wf(),
            old(self).has_path(from@),
            !old(self).has_path(to@),
            from@ != root_path(),
            to@ != root_path(),
            to@.len() < usize::MAX - 1,
        ensures
            final(self).wf(),
            r == old(self).ids()[from@],
            final(self).nodes@ == old(self).nodes@.remove(from@).insert(to@, old(self).nodes@[from@]),
            final(self).ids() == old(self).ids().remove(from@).insert(to@, r),
            final(self).id_to_path@.dom() == old(self).id_to_path@.dom(),
            final(self).path_of(r) == to@,
            forall|i: u64| i != r && old(self).has_id(i) ==> #[trigger] final(self).id_to_path@[i] == old(self).id_to_path@[i],
            final(self).depths() == old(self).depths().remove(from@).insert(to@, path_depth(to@) as u64),
            final(self).next_fileid == old(self).next_fileid,
            final(self).audit_events == old(self).audit_events,
            final(self).users == old(self).users,
            final(self).active_writes == old(self).active_writes,
            final(self).namespace_id == old(self).namespace_id,
            final(self).community == old(self).community,
    {
        let ghost before = *old(self);
        let id = match self.path_to_id.remove(from) {
            Some(id) => id,
            None => {
                proof {
                    assert(false);
                }
                0
            },
        };
        let node = match self.nodes.remove(from) {
            Some(n) => n,
            None => {
                proof {
                    assert(false);
                }
                return id;
            },
        };
        self.depth_index.zrem(from);
        let score = depth_score(to.as_str());
        self.depth_index.zadd(to.clone(), score);
        self.path_to_id.insert(to.clone(), id);
        self.id_to_path.insert(id, to.clone());
        self.nodes.insert(to, node);
        proof {
            assert(self.nodes@ =~= before.nodes@.remove(from@).insert(to@, before.nodes@[from@]));
            assert(self.id_to_path@.dom() =~= before.id_to_path@.dom());
            assert forall|q: Seq<char>| #[trigger] self.path_to_id@.contains_key(q) implies {
                &&& self.id_to_path@.contains_key(self.path_to_id@[q])
                &&& self.id_to_path@[self.path_to_id@[q]]@ == q
                &&& self.path_to_id@[q] <= self.next_fileid
                &&& self.nodes@[q].meta.fileid == self.path_to_id@[q]
                &&& self.depth_index.scores()[q] == path_depth(q)
                &&& q.len() < usize::MAX - 1
                &&& (self.path_to_id@[q] == 0 <==> q == root_path())
            } by {
                if q != to@ {
                    assert(before.path_to_id@.contains_key(q));
                    assert(before.path_to_id@[q] != id);
                }
            }
            assert forall|i: u64| #[trigger] self.id_to_path@.contains_key(i) implies {
                &&& self.path_to_id@.contains_key(self.id_to_path@[i]@)
                &&& self.path_to_id@[self.id_to_path@[i]@] == i
            } by {
                assert(before.id_to_path@.contains_key(i));
                if i != id {
                    assert(before.id_to_path@[i]@ != from@);
                    assert(before.id_to_path@[i]@ != to@);
                }
            }
            assert forall|i: u64| #[trigger] self.active_writes@.contains_key(i) implies self.active_writes@[i].channel.wf()
                && self.id_to_path@.contains_key(i) by {
                assert(before.active_writes@.contains_key(i));
                assert(before.id_to_path@.contains_key(i));
            }
        }
        id
    }
}

impl SharesFS {
    /// Queues an event of kind `t` on `path`, charged to `key`, made at `stamp`.
    pub(crate) fn record_event(&mut self, t: EventType, path: &str, key: &str, stamp: &str)
        requires
            old(self).wf(),
        ensures
            final(self).wf(),
            queued(old(self).audit_events@, final(self).audit_events@, t, path@, key@, stamp@),
            final(self).nodes == old(self).nodes,
            final(self).path_to_id == old(self).path_to_id,
            final(self).id_to_path == old(self).id_to_path,
            final(self).depth_index == old(self).depth_index,
            final(self).next_fileid == old(self).next_fileid,
            final(self).users == old(self).users,
            final(self).active_writes == old(self).active_writes,
            final(self).namespace_id == old(self).namespace_id,
            final(self).community == old(self).community,
    {
        let event = make_event(t, path, key, stamp);
        self.audit_events.push(event);
        assert(self.audit_events@.subrange(0, old(self).audit_events@.len() as int)
            =~= old(self).audit_events@);
    }
}

/// Replacing the row of a live node by one that keeps its id leaves the
/// namespace well formed.
pub(crate) proof fn lemma_row_replaced(before: SharesFS, after: SharesFS, p: Seq<char>, n: Node)
    requires
        before.wf(),
        before.has_path(p),
        n.meta.fileid == before.nodes@[p].meta.fileid,
        after.nodes.wf(),
        after.nodes@ == before.nodes@.insert(p, n),
        after.path_to_id == before.path_to_id,
        after.id_to_path == before.id_to_path,
        after.depth_index == before.depth_index,
        after.next_fileid == before.next_fileid,
        after.users == before.users,
        after.active_writes == before.active_writes,
    ensures
        after.wf(),
{
    assert forall|q: Seq<char>| #[trigger] after.path_to_id@.contains_key(q) implies {
        &&& after.id_to_path@.contains_key(after.path_to_id@[q])
        &&& after.id_to_path@[after.path_to_id@[q]]@ == q
        &&& after.path_to_id@[q] <= after.next_fileid
        &&& after.nodes@[q].meta.fileid == after.path_to_id@[q]
        &&& after.depth_index.scores()[q] == path_depth(q)
        &&& q.len() < usize::MAX - 1
        &&& (after.path_to_id@[q] == 0 <==> q == root_path())
    } by {
        assert(before.path_to_id@.contains_key(q));
    }
}

/// The key prefix of a community: its name in braces, then a colon.
pub open spec fn community_tag(c: Seq<char>) -> Seq<char> {
    seq!['{'] + c + seq!['}', ':']
}

pub fn make_community_tag(c: &str) -> (r: String)
    ensures
        r@ == community_tag(c@),
{
    let open = String::from_str("{");
    let r = open.concat(c).concat("}:");
    proof {
        reveal_strlit("{");
        reveal_strlit("}:");
    }
    assert(r@ =~= community_tag(c@));
    r
}

} // verus!
