//! Directory enumeration over the depth index, listings, and removal.
use std::collections::BTreeSet;
use vstd::prelude::*;
use vstd::std_specs::cmp::OrdSpec;
use vstd::std_specs::iter::IteratorSpec;

use crate::audit::{queued, EventType};
use crate::nfs::{fileid3, nfsstat3, DirEntry, ReadDirResult, FTYPE_DIR};
use crate::paths::{
    is_valid_name,
    valid_name,
    depth_score,
    direct_child,
    last_path_element,
    is_direct_child,
    is_root_path,
    join_path,
    last_segment,
    path_depth,
    root_path,
    child_path,
    glob_match,
    glob_matches,
};
use crate::sharesfs::SharesFS;
use crate::sorted_set::members_scored;
use crate::vfs::dir_path;

verus! {

broadcast use vstd::std_specs::hash::group_hash_axioms;

/// The depth score of the entries directly inside `dir`.
pub open spec fn child_score(dir: Seq<char>) -> u64 {
    if dir == root_path() {
        2
    } else {
        (path_depth(dir) + 1) as u64
    }
}

/// The members of `s` that name entries directly inside `dir`, in order.
pub open spec fn direct_children(s: Seq<Seq<char>>, dir: Seq<char>) -> Seq<Seq<char>>
    decreases s.len(),
{
    if s.len() == 0 {
        Seq::empty()
    } else {
        let rest = direct_children(s.drop_last(), dir);
        if direct_child(s.last(), dir) {
            rest.push(s.last())
        } else {
            rest
        }
    }
}

/// The paths directly inside `dir`, in the order of the depth index.
pub open spec fn children_of(fs: SharesFS, dir: Seq<char>) -> Seq<Seq<char>> {
    direct_children(
        members_scored(fs.depth_index.view(), child_score(dir), child_score(dir)),
        dir,
    )
}

proof fn lemma_members_scored_from(s: Seq<(Seq<char>, u64)>, min: u64, max: u64, k: int)
    requires
        0 <= k < members_scored(s, min, max).len(),
    ensures
        exists|i: int| 0 <= i < s.len() && s[i].0 == members_scored(s, min, max)[k],
    decreases s.len(),
{
    let rest = members_scored(s.drop_last(), min, max);
    if k < rest.len() {
        lemma_members_scored_from(s.drop_last(), min, max, k);
        let i = choose|i: int| 0 <= i < s.drop_last().len() && s.drop_last()[i].0 == rest[k];
        assert(s[i].0 == members_scored(s, min, max)[k]);
    } else {
        assert(s[s.len() - 1].0 == members_scored(s, min, max)[k]);
    }
}

proof fn lemma_depth_members_live(fs: SharesFS, min: u64, max: u64, k: int)
    requires
        fs.wf(),
        0 <= k < members_scored(fs.depth_index.view(), min, max).len(),
    ensures
        fs.ids().contains_key(members_scored(fs.depth_index.view(), min, max)[k]),
{
    lemma_members_scored_from(fs.depth_index.view(), min, max, k);
    let i = choose|i: int|
        0 <= i < fs.depth_index.view().len() && fs.depth_index.view()[i].0 == members_scored(
            fs.depth_index.view(),
            min,
            max,
        )[k];
    assert(fs.depth_index.view()[i] == crate::sorted_set::member_view(fs.depth_index.entries@[i]));
    assert(fs.depth_index.model@.contains_key(fs.depth_index.entries@[i].0@));
    assert(fs.depth_index.scores().contains_key(fs.depth_index.entries@[i].0@));
    assert(fs.nodes@.contains_key(fs.depth_index.entries@[i].0@));
}

impl SharesFS {
    /// The paths in the depth index one level below `subpath`.
    fn get_nodes_in_subpath(&self, subpath: &str) -> (r: Vec<String>)
        requires
            self.wf(),
            subpath@.len() < usize::MAX - 1,
        ensures
            r@.map_values(|s: String| s@) == members_scored(
                self.depth_index.view(),
                child_score(subpath@),
                child_score(subpath@),
            ),
    {
        if is_root_path(subpath) {
            self.depth_index.zrangebyscore(2, 2)
        } else {
            let score = depth_score(subpath);
            proof {
                crate::paths::lemma_slash_count_len(subpath@);
            }
            self.depth_index.zrangebyscore(score + 1, score + 1)
        }
    }

    /// The ids of the entries directly inside the directory at `path`, in
    /// the order of the depth index.
    pub fn get_direct_children(&self, path: &str) -> (r: Result<Vec<fileid3>, nfsstat3>)
        requires
            self.wf(),
            path@.len() < usize::MAX - 1,
        ensures
            r matches Ok(v) && v@ == children_of(*self, path@).map_values(
                |p: Seq<char>| self.ids()[p],
            ),
            forall|k: int|
                0 <= k < children_of(*self, path@).len() ==> self.ids().contains_key(
                    #[trigger] children_of(*self, path@)[k],
                ),
    {
        let nodes = self.get_nodes_in_subpath(path);
        let ghost members = members_scored(
            self.depth_index.view(),
            child_score(path@),
            child_score(path@),
        );
        let mut out: Vec<fileid3> = Vec::new();
        let mut i: usize = 0;
        while i < nodes.len()
            invariant
                self.wf(),
                i <= nodes@.len(),
                nodes@.map_values(|s: String| s@) == members,
                members == members_scored(
                    self.depth_index.view(),
                    child_score(path@),
                    child_score(path@),
                ),
                out@ == direct_children(members.subrange(0, i as int), path@).map_values(
                    |p: Seq<char>| self.ids()[p],
                ),
                forall|k: int|
                    0 <= k < direct_children(members.subrange(0, i as int), path@).len()
                        ==> self.ids().contains_key(
                        #[trigger] direct_children(members.subrange(0, i as int), path@)[k],
                    ),
            decreases nodes@.len() - i,
        {
            proof {
                assert(members.subrange(0, i + 1).drop_last() =~= members.subrange(0, i as int));
                assert(members[i as int] == nodes@[i as int]@);
                lemma_depth_members_live(*self, child_score(path@), child_score(path@), i as int);
            }
            if is_direct_child(nodes[i].as_str(), path) {
                let id = match self.get_id_from_path(nodes[i].as_str()) {
                    Ok(id) => id,
                    Err(_) => {
                        proof {
                            assert(false);
                        }
                        return Err(nfsstat3::NFS3ERR_IO);
                    },
                };
                out.push(id);
                proof {
                    let d = direct_children(members.subrange(0, i + 1), path@);
                    assert(d == direct_children(members.subrange(0, i as int), path@).push(
                        members[i as int],
                    ));
                    assert(out@ =~= d.map_values(|p: Seq<char>| self.ids()[p]));
                }
            } else {
                proof {
                    assert(direct_children(members.subrange(0, i + 1), path@)
                        == direct_children(members.subrange(0, i as int), path@));
                }
            }
            i += 1;
        }
        assert(members.subrange(0, nodes@.len() as int) =~= members);
        Ok(out)
    }
}

/// Whether `e` is the listing entry of the live node `id`.
pub open spec fn entry_of(fs: SharesFS, e: DirEntry, id: u64) -> bool {
    &&& e.fileid == id
    &&& fs.has_id(id)
    &&& e.name@ == last_segment(fs.path_of(id))
    &&& e.attr == fs.nodes@[fs.path_of(id)].meta
}

impl SharesFS {
    /// Whether some path in the depth index matches the glob `pattern`.
    pub fn get_member_keys(&self, pattern: &str) -> (r: Result<bool, nfsstat3>)
        requires
            self.wf(),
        ensures
            r == Ok::<bool, nfsstat3>(
                exists|i: int|
                    0 <= i < self.depth_index.view().len() && glob_match(
                        pattern@,
                        #[trigger] self.depth_index.view()[i].0,
                    ),
            ),
    {
        let mut i: usize = 0;
        while i < self.depth_index.entries.len()
            invariant
                i <= self.depth_index.entries@.len(),
                forall|k: int| 0 <= k < i ==> !glob_match(pattern@, #[trigger] self.depth_index.view()[k].0),
            decreases self.depth_index.entries@.len() - i,
        {
            assert(self.depth_index.view()[i as int].0 == self.depth_index.entries@[i as int].0@);
            if glob_matches(pattern, self.depth_index.entries[i].0.as_str()) {
                return Ok(true);
            }
            i += 1;
        }
        Ok(false)
    }
}

/// Whether `v` is strictly increasing.
pub open spec fn increasing(v: Seq<u64>) -> bool {
    forall|i: int, j: int| 0 <= i < j < v.len() ==> v[i] < v[j]
}

/// Whether `page` holds every id of `all` above `after` (all of them when
/// `after` is 0).
pub open spec fn page_complete(all: Seq<u64>, after: u64, page: Seq<u64>) -> bool {
    forall|id: u64| all.contains(id) && (after == 0 || id > after) ==> page.contains(id)
}

/// Whether `page` is the first `max` ids of `all` above `after` (all of them
/// when `after` is 0), in increasing order.
pub open spec fn listing_page(all: Seq<u64>, after: u64, max: nat, page: Seq<u64>) -> bool {
    let wanted = |id: u64| all.contains(id) && (after == 0 || id > after);
    &&& increasing(page)
    &&& page.len() <= max
    &&& forall|k: int| 0 <= k < page.len() ==> wanted(#[trigger] page[k])
    &&& forall|id: u64|
        wanted(id) && !page.contains(id) ==> page.len() == max && (forall|k: int|
            0 <= k < page.len() ==> #[trigger] page[k] < id)
}

/// The ids of `ids` in increasing order, each once.
fn sorted_unique(ids: &Vec<u64>) -> (r: Vec<u64>)
    ensures
        increasing(r@),
        forall|id: u64| r@.contains(id) <==> ids@.contains(id),
{
    broadcast use vstd::std_specs::btree::group_btree_axioms, vstd::laws_cmp::group_laws_cmp;

    assert(vstd::laws_cmp::obeys_cmp::<u64>());
    assert(vstd::std_specs::btree::key_obeys_cmp_spec::<u64>());
    let mut set: BTreeSet<u64> = BTreeSet::new();
    let mut i: usize = 0;
    while i < ids.len()
        invariant
            i <= ids@.len(),
            vstd::laws_cmp::obeys_cmp::<u64>(),
            forall|id: u64| set@.contains(id) <==> ids@.subrange(0, i as int).contains(id),
        decreases ids@.len() - i,
    {
        set.insert(ids[i]);
        proof {
            assert forall|id: u64| set@.contains(id) <==> ids@.subrange(0, i + 1).contains(id) by {
                if id == ids@[i as int] {
                    assert(ids@.subrange(0, i + 1)[i as int] == id);
                }
                if ids@.subrange(0, i + 1).contains(id) {
                    let k = choose|k: int| 0 <= k < i + 1 && #[trigger] ids@.subrange(0, i + 1)[k] == id;
                    if k < i {
                        assert(ids@.subrange(0, i as int)[k] == id);
                    }
                }
                if ids@.subrange(0, i as int).contains(id) {
                    let k = choose|k: int| 0 <= k < i && #[trigger] ids@.subrange(0, i as int)[k] == id;
                    assert(ids@.subrange(0, i + 1)[k] == id);
                }
            }
        }
        i += 1;
    }
    assert(ids@.subrange(0, ids@.len() as int) =~= ids@);
    let ghost keys = vstd::std_specs::btree::spec_btree_keys_iter(&set).remaining();
    assert(keys.unref().to_set() == set@);
    assert(vstd::std_specs::btree::increasing_seq(keys));
    let mut r: Vec<u64> = Vec::new();
    for x in it: set.iter()
        invariant
            r@.len() == it.index(),
            it.seq() == keys,
            forall|k: int| 0 <= k < r@.len() ==> r@[k] == *it.seq()[k],
    {
        r.push(*x);
    }
    proof {
        assert(r@.len() == keys.len());
        assert(vstd::laws_cmp::obeys_cmp::<&u64>());
        vstd::std_specs::btree::axiom_increasing_seq_meaning::<&u64>(keys);
        assert forall|a: int, b: int| 0 <= a < b < r@.len() implies r@[a] < r@[b] by {
            assert(<&u64 as OrdSpec>::cmp_spec(&keys[a], &keys[b]) is Less);
        }
        assert forall|id: u64| r@.contains(id) <==> ids@.contains(id) by {
            if r@.contains(id) {
                let k = choose|k: int| 0 <= k < r@.len() && r@[k] == id;
                assert(keys.unref()[k] == *keys[k]);
                assert(keys.unref().contains(*keys[k]));
                assert(set@.contains(id));
            }
            if ids@.contains(id) {
                assert(set@.contains(id));
                assert(keys.unref().to_set().contains(id));
                assert(keys.unref().contains(id));
                let k = choose|k: int| 0 <= k < keys.len() && keys.unref()[k] == id;
                assert(r@[k] == id);
            }
        }
    }
    r
}

/// The ids of `s` above `after` (all of them when `after` is 0), in order.
pub open spec fn above(s: Seq<u64>, after: u64) -> Seq<u64>
    decreases s.len(),
{
    if s.len() == 0 {
        Seq::empty()
    } else {
        let rest = above(s.drop_last(), after);
        if after == 0 || s.last() > after {
            rest.push(s.last())
        } else {
            rest
        }
    }
}

proof fn lemma_above(s: Seq<u64>, after: u64)
    requires
        increasing(s),
    ensures
        increasing(above(s, after)),
        forall|id: u64| above(s, after).contains(id) <==> s.contains(id) && (after == 0 || id > after),
        forall|k: int|
            0 <= k < above(s, after).len() ==> s.contains(#[trigger] above(s, after)[k]) && (after
                == 0 || above(s, after)[k] > after),
    decreases s.len(),
{
    if s.len() > 0 {
        let t = s.drop_last();
        lemma_above(t, after);
        let f0 = above(t, after);
        assert forall|k: int| 0 <= k < f0.len() implies f0[k] < s.last() by {
            assert(t.contains(f0[k]));
            let j = choose|j: int| 0 <= j < t.len() && t[j] == f0[k];
            assert(t[j] == s[j]);
            assert(s[j] < s[s.len() - 1]);
        }
        assert forall|k: int| 0 <= k < above(s, after).len() implies s.contains(
            #[trigger] above(s, after)[k],
        ) && (after == 0 || above(s, after)[k] > after) by {
            if k < f0.len() {
                assert(above(s, after)[k] == f0[k]);
                assert(t.contains(f0[k]));
                let j = choose|j: int| 0 <= j < t.len() && t[j] == f0[k];
                assert(t[j] == s[j]);
            } else {
                assert(above(s, after)[k] == s[s.len() - 1]);
            }
        }
        assert forall|id: u64| above(s, after).contains(id) <==> s.contains(id) && (after == 0 || id
            > after) by {
            if s.contains(id) && (after == 0 || id > after) {
                let j = choose|j: int| 0 <= j < s.len() && s[j] == id;
                if j < s.len() - 1 {
                    assert(t[j] == id);
                    assert(t.contains(id));
                    let k = choose|k: int| 0 <= k < f0.len() && f0[k] == id;
                    assert(above(s, after)[k] == id);
                } else {
                    assert(above(s, after).last() == id);
                }
            }
            if above(s, after).contains(id) {
                let k = choose|k: int| 0 <= k < above(s, after).len() && above(s, after)[k] == id;
                if k < f0.len() {
                    assert(f0[k] == id);
                    assert(f0.contains(id));
                    let j = choose|j: int| 0 <= j < t.len() && t[j] == id;
                    assert(s[j] == id);
                } else {
                    assert(s[s.len() - 1] == id);
                }
            }
        }
    }
}

/// The first `max` ids of the increasing `sorted` above `after` (all of
/// them when `after` is 0), with how many there are above `after` in all.
fn page_of(sorted: &Vec<u64>, after: u64, max: usize) -> (r: (Vec<u64>, usize))
    requires
        increasing(sorted@),
    ensures
        listing_page(sorted@, after, max as nat, r.0@),
        r.1 == above(sorted@, after).len(),
        (r.0@.len() == r.1) == page_complete(sorted@, after, r.0@),
{
    let mut page: Vec<u64> = Vec::new();
    let mut remaining: usize = 0;
    let mut i: usize = 0;
    while i < sorted.len()
        invariant
            i <= sorted@.len(),
            increasing(sorted@),
            remaining <= i,
            remaining == above(sorted@.subrange(0, i as int), after).len(),
            page@ == above(sorted@.subrange(0, i as int), after).take(
                if remaining < max {
                    remaining as int
                } else {
                    max as int
                },
            ),
            page@.len() <= max,
        decreases sorted@.len() - i,
    {
        proof {
            assert(sorted@.subrange(0, i + 1).drop_last() =~= sorted@.subrange(0, i as int));
        }
        let x = sorted[i];
        if after == 0 || x > after {
            if page.len() < max {
                page.push(x);
                proof {
                    let f = above(sorted@.subrange(0, i + 1), after);
                    assert(page@ =~= f.take(remaining + 1));
                }
            } else {
                proof {
                    let f = above(sorted@.subrange(0, i + 1), after);
                    assert(page@ =~= f.take(max as int));
                }
            }
            remaining += 1;
        }
        i += 1;
    }
    proof {
        assert(sorted@.subrange(0, sorted@.len() as int) =~= sorted@);
        let f = above(sorted@, after);
        lemma_above(sorted@, after);
        assert forall|k: int| 0 <= k < page@.len() implies sorted@.contains(#[trigger] page@[k])
            && (after == 0 || page@[k] > after) by {
            assert(page@[k] == f[k]);
        }
        assert forall|id: u64|
            sorted@.contains(id) && (after == 0 || id > after) && !page@.contains(
                id,
            ) implies page@.len() == max && (forall|k: int|
            0 <= k < page@.len() ==> #[trigger] page@[k] < id) by {
            assert(f.contains(id));
            let j = choose|j: int| 0 <= j < f.len() && f[j] == id;
            if j < page@.len() {
                assert(page@[j] == id);
            }
            assert forall|k: int| 0 <= k < page@.len() implies #[trigger] page@[k] < id by {
                assert(page@[k] == f[k]);
            }
        }
        assert forall|a: int, b: int| 0 <= a < b < page@.len() implies page@[a] < page@[b] by {
            assert(page@[a] == f[a] && page@[b] == f[b]);
        }
        if page@.len() == remaining {
            assert(page@ =~= f);
        } else {
            let x = f[page@.len() as int];
            assert(f.contains(x));
            if page@.contains(x) {
                let k = choose|k: int| 0 <= k < page@.len() && page@[k] == x;
                assert(page@[k] == f[k]);
            }
            assert(!page_complete(sorted@, after, page@));
        }
    }
    (page, remaining)
}

impl SharesFS {
    /// Builds the listing entries of the live ids in `page`.
    fn entries_of(&self, page: &Vec<u64>) -> (r: Vec<DirEntry>)
        requires
            self.wf(),
            forall|k: int| 0 <= k < page@.len() ==> self.has_id(#[trigger] page@[k]),
        ensures
            r@.len() == page@.len(),
            forall|k: int| 0 <= k < r@.len() ==> entry_of(*self, #[trigger] r@[k], page@[k]),
    {
        let mut out: Vec<DirEntry> = Vec::new();
        let mut i: usize = 0;
        while i < page.len()
            invariant
                self.wf(),
                forall|k: int| 0 <= k < page@.len() ==> self.has_id(#[trigger] page@[k]),
                i <= page@.len(),
                out@.len() == i,
                forall|k: int| 0 <= k < out@.len() ==> entry_of(*self, #[trigger] out@[k], page@[k]),
            decreases page@.len() - i,
        {
            let id = page[i];
            assert(self.has_id(page@[i as int]));
            let path = match self.get_path_from_id(id) {
                Ok(p) => p,
                Err(_) => {
                    proof {
                        assert(false);
                    }
                    return out;
                },
            };
            let attr = match self.get_metadata_from_id(id) {
                Ok(m) => m,
                Err(_) => {
                    proof {
                        assert(false);
                    }
                    return out;
                },
            };
            let name = last_path_element(path.as_str());
            let entry = DirEntry { fileid: id, name, attr };
            assert(entry_of(*self, entry, page@[i as int]));
            out.push(entry);
            i += 1;
        }
        out
    }

    /// Lists the directory `dirid`: the first `max_entries` entries whose ids
    /// exceed `start_after` (all when it is 0), in increasing id order; `end`
    /// when fewer than `max_entries` came. Queues a `DIRECTORY_READ` event.
    pub fn readdir(
        &mut self,
        dirid: fileid3,
        start_after: fileid3,
        max_entries: usize,
        stamp: &str,
    ) -> (r: Result<
        ReadDirResult,
        nfsstat3,
    >)
        requires
            old(self).wf(),
        ensures
            final(self).wf(),
            final(self).ids() == old(self).ids(),
            final(self).nodes == old(self).nodes,
            final(self).id_to_path == old(self).id_to_path,
            match r {
                Ok(res) => {
                    let dir = dir_path(*old(self), dirid)->0;
                    let all = children_of(*old(self), dir).map_values(|p: Seq<char>| old(self).ids()[p]);
                    &&& dir_path(*old(self), dirid) is Some
                    &&& listing_page(all, start_after, max_entries as nat, res.entries@.map_values(|e: DirEntry| e.fileid))
                    &&& forall|k: int| 0 <= k < res.entries@.len() ==> {
                        &&& #[trigger] res.entries@[k].name@ == last_segment(old(self).path_of(res.entries@[k].fileid))
                        &&& res.entries@[k].attr == old(self).nodes@[old(self).path_of(res.entries@[k].fileid)].meta
                    }
                    &&& res.end == (res.entries@.len() < max_entries)
                    &&& queued(
                        old(self).audit_events@,
                        final(self).audit_events@,
                        EventType::DirectoryRead,
                        dir,
                        old(self).community@,
                        stamp@,
                    )
                },
                Err(e) => dir_path(*old(self), dirid) is None && e == nfsstat3::NFS3ERR_STALE && *final(self) == *old(self),
            },
    {
        let (entries, _remaining, path) = self.list_children(dirid, start_after, max_entries)?;
        let cnt = entries.len();
        let key = self.community.clone();
        self.record_event(EventType::DirectoryRead, path.as_str(), key.as_str(), stamp);
        Ok(ReadDirResult { entries, end: cnt < max_entries })
    }

    /// Lists the directory `dirid` as `readdir` does; `end` when the page
    /// holds every entry above `start_after`.
    pub fn readdir_sequential(&self, dirid: fileid3, start_after: fileid3, max_entries: usize) -> (r: Result<
        ReadDirResult,
        nfsstat3,
    >)
        requires
            self.wf(),
        ensures
            match r {
                Ok(res) => {
                    let dir = dir_path(*self, dirid)->0;
                    let all = children_of(*self, dir).map_values(|p: Seq<char>| self.ids()[p]);
                    &&& dir_path(*self, dirid) is Some
                    &&& listing_page(all, start_after, max_entries as nat, res.entries@.map_values(|e: DirEntry| e.fileid))
                    &&& forall|k: int| 0 <= k < res.entries@.len() ==> {
                        &&& #[trigger] res.entries@[k].name@ == last_segment(self.path_of(res.entries@[k].fileid))
                        &&& res.entries@[k].attr == self.nodes@[self.path_of(res.entries@[k].fileid)].meta
                    }
                    &&& res.end == page_complete(all, start_after, res.entries@.map_values(|e: DirEntry| e.fileid))
                },
                Err(e) => dir_path(*self, dirid) is None && e == nfsstat3::NFS3ERR_STALE,
            },
    {
        let (entries, remaining, _path) = self.list_children(dirid, start_after, max_entries)?;
        let end = entries.len() == remaining;
        Ok(ReadDirResult { entries, end })
    }

    /// The page of entries of `dirid` above `start_after`, how many entries
    /// lie above it in all, and the directory's path.
    fn list_children(&self, dirid: fileid3, start_after: fileid3, max_entries: usize) -> (r: Result<
        (Vec<DirEntry>, usize, String),
        nfsstat3,
    >)
        requires
            self.wf(),
        ensures
            match r {
                Ok((entries, remaining, path)) => {
                    let dir = dir_path(*self, dirid)->0;
                    let all = children_of(*self, dir).map_values(|p: Seq<char>| self.ids()[p]);
                    &&& dir_path(*self, dirid) is Some
                    &&& path@ == dir
                    &&& (entries@.len() == remaining) == page_complete(all, start_after, entries@.map_values(|e: DirEntry| e.fileid))
                    &&& listing_page(all, start_after, max_entries as nat, entries@.map_values(|e: DirEntry| e.fileid))
                    &&& forall|k: int| 0 <= k < entries@.len() ==> {
                        &&& #[trigger] entries@[k].name@ == last_segment(self.path_of(entries@[k].fileid))
                        &&& entries@[k].attr == self.nodes@[self.path_of(entries@[k].fileid)].meta
                    }
                },
                Err(e) => dir_path(*self, dirid) is None && e == nfsstat3::NFS3ERR_STALE,
            },
    {
        let path = self.resolve_dir(dirid)?;
        let plen = path.as_str().unicode_len();
        if plen >= usize::MAX - 1 {
            // a path this long holds no entries: every live path is shorter
            proof {
                assert(false) by {
                    if dirid != 0 {
                        assert(self.path_to_id@.contains_key(self.id_to_path@[dirid]@));
                    }
                }
            }
            return Err(nfsstat3::NFS3ERR_STALE);
        }
        let children = match self.get_direct_children(path.as_str()) {
            Ok(c) => c,
            Err(_) => {
                proof {
                    assert(false);
                }
                return Err(nfsstat3::NFS3ERR_STALE);
            },
        };
        let sorted = sorted_unique(&children);
        let (page, remaining) = page_of(&sorted, start_after, max_entries);
        let ghost all = children_of(*self, path@).map_values(|p: Seq<char>| self.ids()[p]);
        proof {
            assert forall|id: u64| all.contains(id) <==> sorted@.contains(id) by {}
            assert forall|k: int| 0 <= k < page@.len() implies self.has_id(#[trigger] page@[k]) by {
                assert(sorted@.contains(page@[k]));
                assert(children@.contains(page@[k]));
                let j = choose|j: int| 0 <= j < children@.len() && children@[j] == page@[k];
                let cp = children_of(*self, path@)[j];
                assert(self.ids().contains_key(cp));
            }
        }
        let entries = self.entries_of(&page);
        proof {
            assert(entries@.map_values(|e: DirEntry| e.fileid) =~= page@);
            assert(page_complete(all, start_after, page@) == page_complete(sorted@, start_after, page@));
        }
        Ok((entries, remaining, path))
    }

    /// Removes the entry `filename` of the directory `dirid`; a directory
    /// must be empty. Drops the file's write buffer and queues a `DELETED` event.
    pub fn remove(&mut self, dirid: fileid3, filename: &str, stamp: &str) -> (r: Result<(), nfsstat3>)
        requires
            old(self).wf(),
        ensures
            final(self).wf(),
            final(self).next_fileid == old(self).next_fileid,
            match r {
                Ok(_) => {
                    let p = join_path(dir_path(*old(self), dirid)->0, filename@);
                    let id = old(self).ids()[p];
                    &&& valid_name(filename@)
                    &&& dir_path(*old(self), dirid) is Some
                    &&& old(self).has_path(p)
                    &&& (old(self).nodes@[p].meta.ftype == FTYPE_DIR ==> children_of(*old(self), p).len() == 0)
                    &&& final(self).nodes@ == old(self).nodes@.remove(p)
                    &&& final(self).ids() == old(self).ids().remove(p)
                    &&& final(self).id_to_path@ == old(self).id_to_path@.remove(id)
                    &&& final(self).depths() == old(self).depths().remove(p)
                    &&& final(self).active_writes@ == old(self).active_writes@.remove(id)
                    &&& queued(
                        old(self).audit_events@,
                        final(self).audit_events@,
                        EventType::Deleted,
                        p,
                        old(self).community@,
                        stamp@,
                    )
                },
                Err(e) => *final(self) == *old(self) && (if !valid_name(filename@) {
                    e == nfsstat3::NFS3ERR_INVAL
                } else if dir_path(*old(self), dirid) is None {
                    e == nfsstat3::NFS3ERR_STALE
                } else if !old(self).has_path(join_path(dir_path(*old(self), dirid)->0, filename@)) {
                    e == nfsstat3::NFS3ERR_NOENT
                } else {
                    let p = join_path(dir_path(*old(self), dirid)->0, filename@);
                    &&& old(self).nodes@[p].meta.ftype == FTYPE_DIR
                    &&& children_of(*old(self), p).len() > 0
                    &&& e == nfsstat3::NFS3ERR_NOTEMPTY
                }),
            },
    {
        if !is_valid_name(filename) {
            return Err(nfsstat3::NFS3ERR_INVAL);
        }
        let parent = self.resolve_dir(dirid)?;
        let path = child_path(parent.as_str(), filename);
        let ftype = match self.get_ftype(path.as_str()) {
            Ok(t) => t,
            Err(_) => {
                return Err(nfsstat3::NFS3ERR_NOENT);
            },
        };
        if ftype == FTYPE_DIR {
            let children = match self.get_direct_children(path.as_str()) {
                Ok(c) => c,
                Err(_) => {
                    proof {
                        assert(false);
                    }
                    return Err(nfsstat3::NFS3ERR_IO);
                },
            };
            if children.len() > 0 {
                return Err(nfsstat3::NFS3ERR_NOTEMPTY);
            }
        }
        let id = match self.get_id_from_path(path.as_str()) {
            Ok(id) => id,
            Err(_) => {
                proof {
                    assert(false);
                }
                return Err(nfsstat3::NFS3ERR_NOENT);
            },
        };
        if self.active_writes.contains_key(&id) {
            self.take_buffer(id);
        } else {
            assert(self.active_writes@.remove(id) =~= self.active_writes@);
        }
        self.remove_node(path.as_str());
        let key = self.community.clone();
        self.record_event(EventType::Deleted, path.as_str(), key.as_str(), stamp);
        Ok(())
    }
}

} // verus!
