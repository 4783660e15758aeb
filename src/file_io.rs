//! Reading and writing file contents: the write coalescer's buffers, their
//! commit through the data codec, and reads from the store or the buffer.
use vstd::prelude::*;

use crate::audit::{queued, EventType};
use crate::channel_buffer::{flatten, ActiveWrite, ChannelBuffer};
use crate::codec::{base64_of, decode, encode, MAX_FILE_SIZE};
use crate::nfs::{fileid3, nfsstat3, FileMetadata, Timestamp};
use crate::paths::{occurs_in, path_contains, path_user, path_user_of};
use crate::sharesfs::{Node, SharesFS};

verus! {

broadcast use vstd::std_specs::hash::group_hash_axioms;

/// The path segment that marks a pack file, read from its buffer.
pub open spec fn pack_marker() -> Seq<char> {
    seq!['/', 'o', 'b', 'j', 'e', 'c', 't', 's', '/', 'p', 'a', 'c', 'k', '/']
}

/// Whether `c` is the content that the row `node` stores.
pub open spec fn stores(node: Node, c: Seq<u8>) -> bool {
    match node.data {
        None => c.len() == 0,
        Some(s) => base64_of(c) == s@,
    }
}

/// What a read of `count` bytes at `offset` returns from the content `c`:
/// the bytes, and whether they reach its end.
pub open spec fn read_slice(c: Seq<u8>, offset: u64, count: u32) -> (Seq<u8>, bool) {
    if offset >= c.len() {
        (Seq::empty(), true)
    } else {
        let end = if offset + count < c.len() {
            offset + count
        } else {
            c.len() as int
        };
        (c.subrange(offset as int, end), end >= c.len())
    }
}

/// The chunks of the buffer that a write of `data` at `offset` leaves for
/// `id`, where `base` stands for what the buffer held before.
pub open spec fn after_write(base: Map<u64, Seq<u8>>, offset: u64, data: Seq<u8>) -> Map<
    u64,
    Seq<u8>,
> {
    base.insert(offset, data)
}

/// What committing the buffer of `id` leaves: the buffer's contents,
/// encoded, are the node's stored data, the node's size is the buffer's total
/// size, the buffer has left the table, one `DISASSEMBLED` event is queued,
/// and nothing else changed.
pub open spec fn committed(old: SharesFS, new: SharesFS, id: u64, stamp: Seq<char>) -> bool {
    let p = old.path_of(id);
    let buf = old.active_writes@[id].channel;
    &&& new.ids() == old.ids()
    &&& new.id_to_path@ == old.id_to_path@
    &&& new.depths() == old.depths()
    &&& new.next_fileid == old.next_fileid
    &&& new.users == old.users
    &&& new.community == old.community
    &&& new.active_writes@ == old.active_writes@.remove(id)
    &&& new.nodes@ == old.nodes@.insert(
        p,
        Node {
            meta: FileMetadata { size: buf.total_size, ..old.nodes@[p].meta },
            data: new.nodes@[p].data,
            ..old.nodes@[p]
        },
    )
    &&& new.nodes@[p].data matches Some(s) && s@ == base64_of(flatten(buf.view()))
    &&& queued(
        old.audit_events@,
        new.audit_events@,
        EventType::Disassembled,
        p,
        path_user(p),
        stamp,
    )
}

/// The size a buffer of size `before` has after `data` is written at `off`.
pub open spec fn grown_size(before: int, off: u64, data: Seq<u8>) -> u64 {
    if off + data.len() > before {
        (off + data.len()) as u64
    } else {
        before as u64
    }
}

/// The events a read of `p` leaves: one `DISASSEMBLED` where a buffer was
/// committed first, then one `REASSEMBLED`.
pub open spec fn read_events(
    old: Seq<crate::audit::AuditEvent>,
    new: Seq<crate::audit::AuditEvent>,
    p: Seq<char>,
    stamp: Seq<char>,
    committed_first: bool,
) -> bool {
    &&& new.len() == old.len() + (if committed_first {
        1int
    } else {
        0int
    }) + 1
    &&& new.last().event_type@ == crate::audit::event_type_name(EventType::Reassembled)
    &&& new.last().file_path@ == p
    &&& new.last().event_key@ == path_user(p)
    &&& new.last().creation_time@ == stamp
}

impl SharesFS {
    /// The content stored at `path`, empty where there is none or it does
    /// not decode.
    pub fn get_data(&self, path: &str) -> (r: Vec<u8>)
        requires
            self.wf(),
        ensures
            !self.has_path(path@) ==> r@.len() == 0,
            forall|c: Seq<u8>|
                self.has_path(path@) && #[trigger] stores(self.nodes@[path@], c) ==> r@ == c,
    {
        match self.nodes.get(path) {
            Some(node) => match &node.data {
                Some(s) => match decode(s.as_str()) {
                    Ok(v) => v,
                    Err(_) => Vec::new(),
                },
                None => Vec::new(),
            },
            None => Vec::new(),
        }
    }

    /// The content stored at the live node `path`; `NFS3ERR_IO` where its
    /// stored data does not decode.
    fn stored_content(&self, path: &str) -> (r: Result<Vec<u8>, nfsstat3>)
        requires
            self.wf(),
            self.has_path(path@),
        ensures
            match r {
                Ok(v) => forall|c: Seq<u8>| #[trigger] stores(self.nodes@[path@], c) ==> v@ == c,
                Err(e) => e == nfsstat3::NFS3ERR_IO && forall|c: Seq<u8>|
                    !#[trigger] stores(self.nodes@[path@], c),
            },
    {
        match self.nodes.get(path) {
            Some(node) => match &node.data {
                Some(s) => decode(s.as_str()),
                None => Ok(Vec::new()),
            },
            None => {
                proof {
                    assert(false);
                }
                Err(nfsstat3::NFS3ERR_IO)
            },
        }
    }

    /// Fills an empty `channel` with the stored content of `id` at offset 0.
    pub fn load_existing_content(&self, id: fileid3, channel: &mut ChannelBuffer, now_ms: u64) -> (r:
        Result<(), nfsstat3>)
        requires
            self.wf(),
            old(channel).wf(),
        ensures
            final(channel).wf(),
            final(channel).is_complete == old(channel).is_complete,
            old(channel).view().len() > 0 ==> r is Ok && *final(channel) == *old(channel),
            old(channel).view().len() == 0 ==> match r {
                Ok(_) => {
                    &&& self.has_id(id)
                    &&& forall|c: Seq<u8>| #[trigger]
                        stores(self.nodes@[self.path_of(id)], c) ==> {
                            &&& c.len() <= MAX_FILE_SIZE
                            &&& final(channel).chunks() == old(channel).chunks().insert(0, c)
                            &&& final(channel).total_size == (if c.len() > old(channel).total_size {
                                c.len() as u64
                            } else {
                                old(channel).total_size
                            })
                        }
                },
                Err(e) => *final(channel) == *old(channel) && (if !self.has_id(id) {
                    e == nfsstat3::NFS3ERR_STALE
                } else if e == nfsstat3::NFS3ERR_IO {
                    forall|c: Seq<u8>| !#[trigger] stores(self.nodes@[self.path_of(id)], c)
                } else {
                    &&& e == nfsstat3::NFS3ERR_FBIG
                    &&& forall|c: Seq<u8>| #[trigger]
                        stores(self.nodes@[self.path_of(id)], c) ==> c.len() > MAX_FILE_SIZE
                }),
            },
    {
        if !channel.is_empty() {
            return Ok(());
        }
        let path = self.get_path_from_id(id)?;
        let contents = self.stored_content(path.as_str())?;
        if contents.len() as u64 > MAX_FILE_SIZE {
            return Err(nfsstat3::NFS3ERR_FBIG);
        }
        channel.write(0, contents.as_slice(), now_ms);
        Ok(())
    }

    /// Sets the metadata of the live node `path` to `meta`, which keeps its id.
    pub(crate) fn set_meta(&mut self, path: &str, meta: FileMetadata)
        requires
            old(self).wf(),
            old(self).has_path(path@),
            meta.fileid == old(self).nodes@[path@].meta.fileid,
        ensures
            final(self).wf(),
            final(self).nodes@ == old(self).nodes@.insert(
                path@,
                Node { meta, ..old(self).nodes@[path@] },
            ),
            final(self).path_to_id == old(self).path_to_id,
            final(self).id_to_path == old(self).id_to_path,
            final(self).depth_index == old(self).depth_index,
            final(self).next_fileid == old(self).next_fileid,
            final(self).audit_events == old(self).audit_events,
            final(self).users == old(self).users,
            final(self).active_writes == old(self).active_writes,
            final(self).namespace_id == old(self).namespace_id,
            final(self).community == old(self).community,
    {
        let ghost before = *old(self);
        let node = match self.nodes.remove(path) {
            Some(n) => n,
            None => {
                proof {
                    assert(false);
                }
                return ;
            },
        };
        let updated = Node { meta, symlink_target: node.symlink_target, data: node.data };
        self.nodes.insert(path.to_owned(), updated);
        proof {
            assert(self.nodes@ =~= before.nodes@.insert(path@, updated));
            crate::sharesfs::lemma_row_replaced(before, *self, path@, updated);
        }
    }

    /// Writes `data` at `offset` of the file `id` into its buffer, creating
    /// the buffer from the stored content on first use; the node's
    /// modification and change times become `now` and its size the buffer's.
    pub fn write(
        &mut self,
        id: fileid3,
        offset: u64,
        data: &[u8],
        now: Timestamp,
        now_ms: u64,
        stamp: &str,
    ) -> (r:
        Result<FileMetadata, nfsstat3>)
        requires
            old(self).wf(),
        ensures
            final(self).wf(),
            final(self).ids() == old(self).ids(),
            final(self).id_to_path@ == old(self).id_to_path@,
            final(self).next_fileid == old(self).next_fileid,
            match r {
                Ok(m) => {
                    let p = old(self).path_of(id);
                    let buf = final(self).active_writes@[id].channel;
                    &&& old(self).has_id(id)
                    &&& offset + data@.len() <= MAX_FILE_SIZE
                    &&& final(self).active_writes@.contains_key(id)
                    &&& old(self).active_writes@.contains_key(id) ==> {
                        &&& buf.chunks() == after_write(
                            old(self).active_writes@[id].channel.chunks(),
                            offset,
                            data@,
                        )
                        &&& buf.total_size == grown_size(
                            old(self).active_writes@[id].channel.total_size as int,
                            offset,
                            data@,
                        )
                    }
                    &&& !old(self).active_writes@.contains_key(id) ==> forall|c: Seq<u8>| #[trigger]
                        stores(old(self).nodes@[p], c) ==> {
                            &&& buf.chunks() == after_write(
                                Map::empty().insert(0, c),
                                offset,
                                data@,
                            )
                            &&& buf.total_size == grown_size(c.len() as int, offset, data@)
                        }
                    &&& m == FileMetadata {
                        modification_time_secs: now.secs,
                        modification_time_nsecs: now.nsecs,
                        change_time_secs: now.secs,
                        change_time_nsecs: now.nsecs,
                        size: buf.total_size,
                        ..old(self).nodes@[p].meta
                    }
                    &&& final(self).nodes@ == old(self).nodes@.insert(
                        p,
                        Node { meta: m, ..old(self).nodes@[p] },
                    )
                    &&& final(self).active_writes@.remove(id) == old(self).active_writes@.remove(id)
                    &&& queued(
                        old(self).audit_events@,
                        final(self).audit_events@,
                        EventType::Modified,
                        p,
                        old(self).community@,
                        stamp@,
                    )
                },
                Err(e) => *final(self) == *old(self) && (if !old(self).has_id(id) {
                    e == nfsstat3::NFS3ERR_STALE
                } else if e == nfsstat3::NFS3ERR_IO {
                    &&& !old(self).active_writes@.contains_key(id)
                    &&& forall|c: Seq<u8>| !#[trigger] stores(
                        old(self).nodes@[old(self).path_of(id)],
                        c,
                    )
                } else {
                    &&& e == nfsstat3::NFS3ERR_FBIG
                    &&& (offset + data@.len() > MAX_FILE_SIZE || (!old(
                        self,
                    ).active_writes@.contains_key(id) && forall|c: Seq<u8>| #[trigger]
                        stores(old(self).nodes@[old(self).path_of(id)], c) ==> c.len()
                            > MAX_FILE_SIZE))
                }),
            },
            old(self).has_id(id) && offset + data@.len() <= MAX_FILE_SIZE && (old(
                self,
            ).active_writes@.contains_key(id) || exists|c: Seq<u8>| #[trigger]
                stores(old(self).nodes@[old(self).path_of(id)], c) && c.len() <= MAX_FILE_SIZE)
                ==> r is Ok,
    {
        let path = self.get_path_from_id(id)?;
        if data.len() as u64 > MAX_FILE_SIZE || offset > MAX_FILE_SIZE - data.len() as u64 {
            return Err(nfsstat3::NFS3ERR_FBIG);
        }
        let mut aw = if self.active_writes.contains_key(&id) {
            match self.take_buffer(id) {
                Some(a) => a,
                None => {
                    proof {
                        assert(false);
                    }
                    return Err(nfsstat3::NFS3ERR_STALE);
                },
            }
        } else {
            let mut channel = ChannelBuffer::new(now_ms);
            self.load_existing_content(id, &mut channel, now_ms)?;
            ActiveWrite::new(channel, now_ms)
        };
        let ghost pre = aw.channel;
        aw.channel.write(offset, data, now_ms);
        aw.last_activity = now_ms;
        let size = aw.channel.total_size;
        proof {
            let node = old(self).nodes@[old(self).path_of(id)];
            if !old(self).active_writes@.contains_key(id) {
                assert forall|c: Seq<u8>| #[trigger] stores(node, c) implies {
                    &&& aw.channel.chunks() == after_write(Map::empty().insert(0, c), offset, data@)
                    &&& aw.channel.total_size == grown_size(c.len() as int, offset, data@)
                } by {
                    assert(pre.total_size == c.len());
                    assert(pre.chunks() == Map::<u64, Seq<u8>>::empty().insert(0, c));
                }
            }
        }
        self.put_buffer(id, aw);
        let old_meta = match self.nodes.get(path.as_str()) {
            Some(node) => node.meta,
            None => {
                proof {
                    assert(false);
                }
                return Err(nfsstat3::NFS3ERR_STALE);
            },
        };
        let mut meta = old_meta;
        meta.modification_time_secs = now.secs;
        meta.modification_time_nsecs = now.nsecs;
        meta.change_time_secs = now.secs;
        meta.change_time_nsecs = now.nsecs;
        meta.size = size;
        self.set_meta(path.as_str(), meta);
        assert(self.active_writes@.remove(id) =~= old(self).active_writes@.remove(id));
        let key = self.community.clone();
        self.record_event(EventType::Modified, path.as_str(), key.as_str(), stamp);
        Ok(meta)
    }

    /// Commits the buffer of `id`, if any: its contents, encoded, replace the
    /// node's stored data, the node's size becomes the buffer's total size,
    /// the buffer leaves the table and a `DISASSEMBLED` event is queued.
    pub fn commit_write(&mut self, id: fileid3, stamp: &str) -> (r: Result<(), nfsstat3>)
        requires
            old(self).wf(),
        ensures
            final(self).wf(),
            r is Ok,
            final(self).ids() == old(self).ids(),
            final(self).id_to_path@ == old(self).id_to_path@,
            final(self).next_fileid == old(self).next_fileid,
            !final(self).active_writes@.contains_key(id),
            final(self).active_writes@ == old(self).active_writes@.remove(id),
            !old(self).active_writes@.contains_key(id) ==> *final(self) == *old(self),
            old(self).active_writes@.contains_key(id) ==> committed(*old(self), *final(self), id, stamp@),
    {
        if !self.active_writes.contains_key(&id) {
            return Ok(());
        }
        let aw = match self.take_buffer(id) {
            Some(a) => a,
            None => {
                proof {
                    assert(false);
                }
                return Ok(());
            },
        };
        let path = match self.get_path_from_id(id) {
            Ok(p) => p,
            Err(_) => {
                proof {
                    assert(false);
                }
                return Ok(());
            },
        };
        let bytes = aw.channel.read_all();
        let stored = encode(bytes.as_slice());
        let ghost before = *self;
        let node = match self.nodes.remove(path.as_str()) {
            Some(n) => n,
            None => {
                proof {
                    assert(false);
                }
                return Ok(());
            },
        };
        let mut meta = node.meta;
        meta.size = aw.channel.total_size;
        let updated = Node { meta, symlink_target: node.symlink_target, data: Some(stored) };
        self.nodes.insert(path.clone(), updated);
        proof {
            assert(self.nodes@ =~= before.nodes@.insert(path@, updated));
            crate::sharesfs::lemma_row_replaced(before, *self, path@, updated);
        }
        let key = path_user_of(path.as_str());
        self.record_event(EventType::Disassembled, path.as_str(), key.as_str(), stamp);
        Ok(())
    }

    /// Commits the buffer of `id` where it has been idle for `idle_ms` or its
    /// writer marked it complete; whether it did.
    pub fn flush_if_idle(&mut self, id: fileid3, now_ms: u64, idle_ms: u64, stamp: &str) -> (r: bool)
        requires
            old(self).wf(),
        ensures
            final(self).wf(),
            r == (old(self).active_writes@.contains_key(id) && (old(
                self,
            ).active_writes@[id].channel.is_complete || old(
                self,
            ).active_writes@[id].channel.time_since(now_ms) >= idle_ms)),
            !r ==> *final(self) == *old(self),
            r ==> committed(*old(self), *final(self), id, stamp@),
    {
        let due = match self.active_writes.get(&id) {
            Some(aw) => aw.channel.is_write_complete() || aw.channel.time_since_last_write(now_ms)
                >= idle_ms,
            None => false,
        };
        if due {
            let _ = self.commit_write(id, stamp);
        }
        due
    }

    /// Reads `count` bytes at `offset` of the file `id`, with whether the
    /// read reaches the end of the file, and queues a `REASSEMBLED` event. A
    /// pack file is read from its buffer's contents (the buffer is made from
    /// the stored content where there is none); any other file is read from
    /// the store after its buffer, if any, is committed.
    pub fn read(&mut self, id: fileid3, offset: u64, count: u32, now_ms: u64, stamp: &str) -> (r: Result<
        (Vec<u8>, bool),
        nfsstat3,
    >)
        requires
            old(self).wf(),
        ensures
            final(self).wf(),
            final(self).ids() == old(self).ids(),
            final(self).id_to_path@ == old(self).id_to_path@,
            final(self).next_fileid == old(self).next_fileid,
            !old(self).has_id(id) ==> r == Err::<(Vec<u8>, bool), nfsstat3>(
                nfsstat3::NFS3ERR_STALE,
            ) && *final(self) == *old(self),
            old(self).has_id(id) && !occurs_in(old(self).path_of(id), pack_marker()) ==> {
                let p = old(self).path_of(id);
                &&& old(self).active_writes@.contains_key(id) ==> {
                    let c = flatten(old(self).active_writes@[id].channel.view());
                    &&& r is Ok
                    &&& r->Ok_0.0@ == read_slice(c, offset, count).0
                    &&& r->Ok_0.1 == read_slice(c, offset, count).1
                    &&& read_events(old(self).audit_events@, final(self).audit_events@, p, stamp@, true)
                }
                &&& !old(self).active_writes@.contains_key(id) ==> match r {
                    Ok((v, eof)) => {
                        &&& forall|c: Seq<u8>| #[trigger]
                            stores(old(self).nodes@[p], c) ==> v@ == read_slice(c, offset, count).0
                                && eof == read_slice(c, offset, count).1
                        &&& read_events(old(self).audit_events@, final(self).audit_events@, p, stamp@, false)
                    },
                    Err(e) => {
                        &&& e == nfsstat3::NFS3ERR_IO
                        &&& forall|c: Seq<u8>| !#[trigger] stores(old(self).nodes@[p], c)
                        &&& *final(self) == *old(self)
                    },
                }
                &&& !final(self).active_writes@.contains_key(id)
            },
            old(self).has_id(id) && occurs_in(old(self).path_of(id), pack_marker()) ==> {
                let p = old(self).path_of(id);
                &&& old(self).active_writes@.contains_key(id) ==> r is Ok
                &&& match r {
                    Ok((v, eof)) => {
                        let buf = final(self).active_writes@[id].channel;
                        &&& final(self).active_writes@.contains_key(id)
                        &&& old(self).active_writes@.contains_key(id) ==> buf == old(
                            self,
                        ).active_writes@[id].channel
                        &&& !old(self).active_writes@.contains_key(id) ==> forall|c: Seq<u8>|
                            #[trigger] stores(old(self).nodes@[p], c) ==> buf.chunks() == Map::<
                                u64,
                                Seq<u8>,
                            >::empty().insert(0, c)
                        &&& v@ == read_slice(flatten(buf.view()), offset, count).0
                        &&& eof == read_slice(flatten(buf.view()), offset, count).1
                        &&& read_events(old(self).audit_events@, final(self).audit_events@, p, stamp@, false)
                    },
                    Err(e) => {
                        &&& !old(self).active_writes@.contains_key(id)
                        &&& *final(self) == *old(self)
                        &&& e == nfsstat3::NFS3ERR_IO ==> forall|c: Seq<u8>|
                            !#[trigger] stores(old(self).nodes@[p], c)
                        &&& e != nfsstat3::NFS3ERR_IO ==> e == nfsstat3::NFS3ERR_FBIG && forall|
                            c: Seq<u8>,
                        | #[trigger] stores(old(self).nodes@[p], c) ==> c.len() > MAX_FILE_SIZE
                    },
                }
            },
    {
        let path = self.get_path_from_id(id)?;
        proof {
            reveal_strlit("/objects/pack/");
        }
        let marker = "/objects/pack/";
        assert(marker@ =~= pack_marker());
        let result = if path_contains(path.as_str(), marker) {
            let aw = if self.active_writes.contains_key(&id) {
                match self.take_buffer(id) {
                    Some(a) => a,
                    None => {
                        proof {
                            assert(false);
                        }
                        return Err(nfsstat3::NFS3ERR_STALE);
                    },
                }
            } else {
                let mut channel = ChannelBuffer::new(now_ms);
                self.load_existing_content(id, &mut channel, now_ms)?;
                ActiveWrite::new(channel, now_ms)
            };
            let contents = aw.channel.read_all();
            let result = slice_of(&contents, offset, count);
            self.put_buffer(id, aw);
            result
        } else {
            self.commit_write(id, stamp)?;
            proof {
                if old(self).active_writes@.contains_key(id) {
                    let c = flatten(old(self).active_writes@[id].channel.view());
                    assert(stores(self.nodes@[path@], c));
                }
            }
            let current = self.stored_content(path.as_str())?;
            slice_of(&current, offset, count)
        };
        let key = path_user_of(path.as_str());
        self.record_event(EventType::Reassembled, path.as_str(), key.as_str(), stamp);
        Ok(result)
    }
}

/// The bytes of `c` that a read of `count` bytes at `offset` returns, and
/// whether they reach its end.
fn slice_of(c: &Vec<u8>, offset: u64, count: u32) -> (r: (Vec<u8>, bool))
    ensures
        r.0@ == read_slice(c@, offset, count).0,
        r.1 == read_slice(c@, offset, count).1,
{
    let len = c.len() as u64;
    if offset >= len {
        return (Vec::new(), true);
    }
    let end: u64 = if count as u64 > len - offset {
        len
    } else {
        offset + count as u64
    };
    let mut out: Vec<u8> = Vec::new();
    let mut i: usize = offset as usize;
    while i < end as usize
        invariant
            offset <= i <= end <= len == c@.len(),
            out@ == c@.subrange(offset as int, i as int),
        decreases end - i,
    {
        out.push(c[i]);
        i += 1;
        assert(out@ =~= c@.subrange(offset as int, i as int));
    }
    (out, end >= len)
}

impl ChannelBuffer {
    /// Milliseconds from the last write to `now`, 0 where `now` is earlier.
    pub open spec fn time_since(&self, now: u64) -> u64 {
        if now >= self.last_write {
            (now - self.last_write) as u64
        } else {
            0
        }
    }
}

} // verus!
