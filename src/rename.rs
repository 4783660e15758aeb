//! Renaming: a node moves with its whole subtree, every node keeping its id.
use vstd::prelude::*;

use crate::directories::children_of;
use crate::nfs::{fileid3, nfsstat3, FTYPE_DIR};
use crate::paths::{
    is_valid_name,
    valid_name,
    child_path,
    join_path,
    root_path,
};
use crate::audit::{queued, EventType};
use crate::paths::path_depth;
use crate::sharesfs::SharesFS;
use crate::vfs::dir_path;

verus! {

broadcast use vstd::std_specs::hash::group_hash_axioms;

/// Whether `q` lies strictly below `a`.
pub open spec fn strictly_under(q: Seq<char>, a: Seq<char>) -> bool {
    q.len() > a.len() && q.subrange(0, a.len() + 1int) == a + seq!['/']
}

/// Whether `q` is `a` or lies below it.
pub open spec fn under(q: Seq<char>, a: Seq<char>) -> bool {
    q == a || strictly_under(q, a)
}

/// Where a rename of `from` to `to` takes the path `q` below `from`.
pub open spec fn moved_to(q: Seq<char>, from: Seq<char>, to: Seq<char>) -> Seq<char> {
    to + q.subrange(from.len() as int, q.len() as int)
}

/// Whether `q` lies strictly below `a`.
fn is_strictly_under(q: &str, a: &str) -> (r: bool)
    ensures
        r == strictly_under(q@, a@),
{
    let n = q.unicode_len();
    let m = a.unicode_len();
    if n <= m {
        return false;
    }
    let mut i: usize = 0;
    while i < m
        invariant
            n == q@.len(),
            m == a@.len(),
            m < n,
            i <= m,
            forall|k: int| 0 <= k < i ==> q@[k] == a@[k],
        decreases m - i,
    {
        if q.get_char(i) != a.get_char(i) {
            assert(q@.subrange(0, m + 1)[i as int] != (a@ + seq!['/'])[i as int]);
            return false;
        }
        i += 1;
    }
    if q.get_char(m) != '/' {
        assert(q@.subrange(0, m + 1)[m as int] != (a@ + seq!['/'])[m as int]);
        return false;
    }
    assert(q@.subrange(0, m + 1) =~= a@ + seq!['/']);
    true
}

/// The path `q` below `from` takes under `to`.
fn retarget(q: &str, from_len: usize, to: &str) -> (r: String)
    requires
        from_len <= q@.len(),
    ensures
        r@ == to@ + q@.subrange(from_len as int, q@.len() as int),
{
    let n = q.unicode_len();
    let rest = q.substring_char(from_len, n);
    to.to_owned().concat(rest)
}

proof fn lemma_moved_distinct(q1: Seq<char>, q2: Seq<char>, from: Seq<char>, to: Seq<char>)
    requires
        under(q1, from),
        under(q2, from),
        q1 != q2,
    ensures
        moved_to(q1, from, to) != moved_to(q2, from, to),
{
    let s1 = q1.subrange(from.len() as int, q1.len() as int);
    let s2 = q2.subrange(from.len() as int, q2.len() as int);
    assert(q1 =~= q1.subrange(0, from.len() as int) + s1);
    assert(q2 =~= q2.subrange(0, from.len() as int) + s2);
    assert(q1.subrange(0, from.len() as int) =~= from) by {
        if q1 != from {
            assert(q1.subrange(0, from.len() as int) =~= q1.subrange(0, from.len() + 1int).subrange(
                0,
                from.len() as int,
            ));
        }
    }
    assert(q2.subrange(0, from.len() as int) =~= from) by {
        if q2 != from {
            assert(q2.subrange(0, from.len() as int) =~= q2.subrange(0, from.len() + 1int).subrange(
                0,
                from.len() as int,
            ));
        }
    }
    if moved_to(q1, from, to) == moved_to(q2, from, to) {
        assert(s1 =~= moved_to(q1, from, to).subrange(to.len() as int, moved_to(q1, from, to).len() as int));
        assert(s2 =~= moved_to(q2, from, to).subrange(to.len() as int, moved_to(q2, from, to).len() as int));
    }
}

proof fn lemma_moved_under(q: Seq<char>, from: Seq<char>, to: Seq<char>)
    requires
        under(q, from),
    ensures
        under(moved_to(q, from, to), to),
        q != from ==> strictly_under(moved_to(q, from, to), to),
        q == from ==> moved_to(q, from, to) == to,
{
    let t = moved_to(q, from, to);
    if q == from {
        assert(t =~= to);
    } else {
        assert(q.subrange(from.len() as int, from.len() + 1int) =~= q.subrange(0, from.len() + 1int).subrange(
            from.len() as int,
            from.len() + 1int,
        ));
        assert((from + seq!['/'])[from.len() as int] == '/');
        assert(t.subrange(0, to.len() + 1int) =~= to + seq!['/']);
    }
}

proof fn lemma_under_disjoint(q: Seq<char>, from: Seq<char>, to: Seq<char>)
    requires
        under(q, from),
        under(q, to),
        from != to,
    ensures
        strictly_under(to, from) || strictly_under(from, to),
{
    if q == from {
        assert(strictly_under(from, to));
    } else if q == to {
        assert(strictly_under(to, from));
    } else if from.len() < to.len() {
        assert(to.subrange(0, from.len() + 1int) =~= q.subrange(0, to.len() + 1int).subrange(0, from.len() + 1int));
        assert(q.subrange(0, from.len() + 1int) =~= q.subrange(0, to.len() + 1int).subrange(0, from.len() + 1int));
    } else if to.len() < from.len() {
        assert(from.subrange(0, to.len() + 1int) =~= q.subrange(0, from.len() + 1int).subrange(0, to.len() + 1int));
        assert(q.subrange(0, to.len() + 1int) =~= q.subrange(0, from.len() + 1int).subrange(0, to.len() + 1int));
    } else {
        assert(from =~= q.subrange(0, from.len() + 1int).subrange(0, from.len() as int));
        assert(to =~= q.subrange(0, to.len() + 1int).subrange(0, to.len() as int));
    }
}

/// What a successful rename of `from` to `to` leaves: `to` holds the id
/// `from` had, `from` is gone, and nothing outside both subtrees moved.
pub open spec fn renamed(old: SharesFS, new: SharesFS, from: Seq<char>, to: Seq<char>) -> bool {
    &&& new.wf()
    &&& new.ids().contains_key(to)
    &&& new.ids()[to] == old.ids()[from]
    &&& !new.ids().contains_key(from)
    &&& forall|q: Seq<char>|
        old.has_path(q) && #[trigger] strictly_under(q, from) ==> {
            &&& new.ids().contains_key(moved_to(q, from, to))
            &&& new.ids()[moved_to(q, from, to)] == old.ids()[q]
            &&& new.depths()[moved_to(q, from, to)] == path_depth(moved_to(q, from, to))
            &&& !new.ids().contains_key(q)
        }
    &&& forall|q: Seq<char>|
        !under(q, from) && !under(q, to) ==> (#[trigger] new.ids().contains_key(q)
            == old.ids().contains_key(q)) && (old.ids().contains_key(q) ==> new.ids()[q]
            == old.ids()[q])
    &&& forall|id: u64|
        old.has_id(id) && !under(old.path_of(id), from) && !under(old.path_of(id), to)
            ==> #[trigger] new.has_id(id) && new.path_of(id) == old.path_of(id)
    &&& new.next_fileid == old.next_fileid
}

/// What a successful `rename(from_dirid, from_name, to_dirid, to_name)` did.
pub open spec fn rename_done(
    old: SharesFS,
    new: SharesFS,
    from_dirid: u64,
    from_name: Seq<char>,
    to_dirid: u64,
    to_name: Seq<char>,
    stamp: Seq<char>,
) -> bool {
    let from = join_path(dir_path(old, from_dirid)->0, from_name);
    let to = join_path(dir_path(old, to_dirid)->0, to_name);
    &&& valid_name(from_name) && valid_name(to_name)
    &&& dir_path(old, from_dirid) is Some
    &&& dir_path(old, to_dirid) is Some
    &&& old.has_path(from)
    &&& queued(old.audit_events@, new.audit_events@, EventType::Modified, to, old.community@, stamp)
    &&& from == to ==> new == SharesFS { audit_events: new.audit_events, ..old }
    &&& from != to ==> !strictly_under(to, from) && !strictly_under(from, to) && renamed(
        old,
        new,
        from,
        to,
    )
}

impl SharesFS {
    /// `from` followed by every node strictly below it, each once.
    fn subtree_of(&self, from: &str) -> (r: Vec<String>)
        requires
            self.wf(),
            self.has_path(from@),
        ensures
            r@.len() >= 1,
            r@[0]@ == from@,
            forall|j: int| 1 <= j < r@.len() ==> strictly_under(#[trigger] r@[j]@, from@),
            forall|j: int| 0 <= j < r@.len() ==> self.has_path(#[trigger] r@[j]@),
            forall|a: int, b: int| 0 <= a < b < r@.len() ==> r@[a]@ != r@[b]@,
            forall|q: Seq<char>|
                self.has_path(q) && #[trigger] strictly_under(q, from@) ==> exists|j: int|
                    1 <= j < r@.len() && r@[j]@ == q,
    {
        let mut moving: Vec<String> = Vec::new();
        moving.push(from.to_owned());
        let mut i: usize = 0;
        while i < self.nodes.entries.len()
            invariant
                self.wf(),
                self.has_path(from@),
                i <= self.nodes.entries@.len(),
                moving@.len() >= 1,
                moving@[0]@ == from@,
                forall|j: int| 1 <= j < moving@.len() ==> strictly_under(#[trigger] moving@[j]@, from@),
                forall|j: int| 0 <= j < moving@.len() ==> self.has_path(#[trigger] moving@[j]@),
                forall|a: int, b: int| 0 <= a < b < moving@.len() ==> moving@[a]@ != moving@[b]@,
                forall|j: int|
                    1 <= j < moving@.len() ==> exists|k: int|
                        0 <= k < i && self.nodes.entries@[k].0@ == #[trigger] moving@[j]@,
                forall|k: int|
                    0 <= k < i && strictly_under(#[trigger] self.nodes.entries@[k].0@, from@)
                        ==> exists|j: int| 1 <= j < moving@.len() && moving@[j]@ == self.nodes.entries@[k].0@,
            decreases self.nodes.entries@.len() - i,
        {
            if is_strictly_under(self.nodes.entries[i].0.as_str(), from) {
                let ghost before = moving@;
                let ghost e = self.nodes.entries@[i as int].0@;
                proof {
                    assert(self.nodes.model@.contains_key(e));
                    assert(e != from@);
                    assert forall|j: int| 0 <= j < before.len() implies before[j]@ != e by {
                        if j >= 1 {
                            let k = choose|k: int|
                                0 <= k < i && self.nodes.entries@[k].0@ == #[trigger] before[j]@;
                        }
                    }
                }
                moving.push(self.nodes.entries[i].0.clone());
                proof {
                    assert forall|j: int| 1 <= j < moving@.len() implies exists|k: int|
                        0 <= k < i + 1 && self.nodes.entries@[k].0@ == #[trigger] moving@[j]@ by {
                        if j == moving@.len() - 1 {
                            assert(self.nodes.entries@[i as int].0@ == moving@[j]@);
                        } else {
                            assert(moving@[j] == before[j]);
                            let k = choose|k: int|
                                0 <= k < i && self.nodes.entries@[k].0@ == #[trigger] before[j]@;
                        }
                    }
                    assert forall|k: int|
                        0 <= k < i + 1 && strictly_under(#[trigger] self.nodes.entries@[k].0@, from@)
                            implies exists|j: int| 1 <= j < moving@.len() && moving@[j]@ == self.nodes.entries@[k].0@ by {
                        if k == i {
                            assert(moving@[moving@.len() - 1]@ == self.nodes.entries@[k].0@);
                        } else {
                            let j = choose|j: int| 1 <= j < before.len() && before[j]@ == self.nodes.entries@[k].0@;
                            assert(moving@[j] == before[j]);
                        }
                    }
                }
            }
            i += 1;
        }
        proof {
            assert forall|q: Seq<char>|
                self.has_path(q) && #[trigger] strictly_under(q, from@) implies exists|j: int|
                    1 <= j < moving@.len() && moving@[j]@ == q by {
                let k = choose|k: int| 0 <= k < self.nodes.entries@.len() && self.nodes.entries@[k].0@ == q;
                assert(strictly_under(self.nodes.entries@[k].0@, from@));
            }
        }
        moving
    }

    /// Where each node of `moving` goes; a place that another node holds
    /// (but for the first, `to` itself) or a path too long fails.
    fn places_for(&self, moving: &Vec<String>, from: &str, to: &str) -> (r: Result<Vec<String>, nfsstat3>)
        requires
            self.wf(),
            moving@.len() >= 1,
            moving@[0]@ == from@,
            forall|j: int| 1 <= j < moving@.len() ==> strictly_under(#[trigger] moving@[j]@, from@),
        ensures
            match r {
                Ok(targets) => {
                    &&& targets@.len() == moving@.len()
                    &&& forall|a: int| 0 <= a < targets@.len() ==> (#[trigger] targets@[a])@ == moved_to(moving@[a]@, from@, to@)
                    &&& forall|a: int| 0 <= a < targets@.len() ==> (#[trigger] targets@[a])@.len() < usize::MAX - 1
                    &&& forall|a: int| 1 <= a < targets@.len() ==> !self.has_path((#[trigger] targets@[a])@)
                },
                Err(e) => {
                    ||| e == nfsstat3::NFS3ERR_EXIST && exists|a: int|
                        1 <= a < moving@.len() && self.has_path(
                            moved_to(#[trigger] moving@[a]@, from@, to@),
                        )
                    ||| e == nfsstat3::NFS3ERR_NAMETOOLONG && exists|a: int|
                        0 <= a < moving@.len() && moved_to(#[trigger] moving@[a]@, from@, to@).len()
                            >= usize::MAX - 1
                },
            },
    {
        let from_len = from.unicode_len();
        let mut targets: Vec<String> = Vec::new();
        let mut j: usize = 0;
        while j < moving.len()
            invariant
                self.wf(),
                moving@.len() >= 1,
                moving@[0]@ == from@,
                forall|j: int| 1 <= j < moving@.len() ==> strictly_under(#[trigger] moving@[j]@, from@),
                j <= moving@.len(),
                targets@.len() == j,
                from_len == from@.len(),
                forall|a: int| 0 <= a < j ==> (#[trigger] targets@[a])@ == moved_to(moving@[a]@, from@, to@),
                forall|a: int| 0 <= a < j ==> (#[trigger] targets@[a])@.len() < usize::MAX - 1,
                forall|a: int| 1 <= a < j ==> !self.has_path((#[trigger] targets@[a])@),
            decreases moving@.len() - j,
        {
            assert(from_len <= moving@[j as int]@.len()) by {
                if j > 0 {
                    assert(strictly_under(moving@[j as int]@, from@));
                }
            }
            let t = retarget(moving[j].as_str(), from_len, to);
            let tlen = t.as_str().unicode_len();
            if tlen >= usize::MAX - 1 {
                return Err(nfsstat3::NFS3ERR_NAMETOOLONG);
            }
            if j > 0 && self.nodes.contains(t.as_str()) {
                return Err(nfsstat3::NFS3ERR_EXIST);
            }
            targets.push(t);
            j += 1;
        }
        Ok(targets)
    }
}

impl SharesFS {
    /// Renames the entry `from_filename` of `from_dirid` to `to_filename` of
    /// `to_dirid`, moving its subtree. A target that exists is replaced
    /// unless it is a directory with entries.
    pub fn rename(
        &mut self,
        from_dirid: fileid3,
        from_filename: &str,
        to_dirid: fileid3,
        to_filename: &str,
        stamp: &str,
    ) -> (r: Result<(), nfsstat3>)
        requires
            old(self).wf(),
        ensures
            final(self).wf(),
            match r {
                Ok(_) => rename_done(
                    *old(self),
                    *final(self),
                    from_dirid,
                    from_filename@,
                    to_dirid,
                    to_filename@,
                    stamp@,
                ),
                Err(e) => *final(self) == *old(self) && (if !valid_name(from_filename@)
                    || !valid_name(to_filename@) {
                    e == nfsstat3::NFS3ERR_INVAL
                } else if dir_path(*old(self), from_dirid) is None || dir_path(*old(self), to_dirid) is None {
                    e == nfsstat3::NFS3ERR_STALE
                } else {
                    let from = join_path(dir_path(*old(self), from_dirid)->0, from_filename@);
                    let to = join_path(dir_path(*old(self), to_dirid)->0, to_filename@);
                    if !old(self).has_path(from) {
                        e == nfsstat3::NFS3ERR_NOENT
                    } else if strictly_under(to, from) {
                        e == nfsstat3::NFS3ERR_INVAL
                    } else if e == nfsstat3::NFS3ERR_EXIST {
                        ||| strictly_under(from, to)
                        ||| old(self).has_path(to) && old(self).nodes@[to].meta.ftype == FTYPE_DIR
                            && children_of(*old(self), to).len() > 0
                        ||| exists|q: Seq<char>|
                            old(self).has_path(q) && strictly_under(q, from) && old(self).has_path(
                                #[trigger] moved_to(q, from, to),
                            )
                    } else {
                        &&& e == nfsstat3::NFS3ERR_NAMETOOLONG
                        &&& exists|q: Seq<char>|
                            old(self).has_path(q) && under(q, from) && #[trigger] moved_to(
                                q,
                                from,
                                to,
                            ).len() >= usize::MAX - 1
                    }
                }),
            },
    {
        if !is_valid_name(from_filename) || !is_valid_name(to_filename) {
            return Err(nfsstat3::NFS3ERR_INVAL);
        }
        let from_parent = self.resolve_dir(from_dirid)?;
        let to_parent = self.resolve_dir(to_dirid)?;
        let from = child_path(from_parent.as_str(), from_filename);
        let to = child_path(to_parent.as_str(), to_filename);
        proof {
            assert(from@ != root_path()) by {
                if from_parent@ == root_path() {
                    assert(from@.len() == 1 + from_filename@.len());
                } else {
                    assert(from@.len() == from_parent@.len() + 1 + from_filename@.len());
                }
            }
            assert(to@ != root_path()) by {
                if to_parent@ == root_path() {
                    assert(to@.len() == 1 + to_filename@.len());
                } else {
                    assert(to@.len() == to_parent@.len() + 1 + to_filename@.len());
                }
            }
        }
        if !self.nodes.contains(from.as_str()) {
            return Err(nfsstat3::NFS3ERR_NOENT);
        }
        if from == to {
            let key = self.community.clone();
            self.record_event(EventType::Modified, to.as_str(), key.as_str(), stamp);
            return Ok(());
        }
        if is_strictly_under(to.as_str(), from.as_str()) {
            return Err(nfsstat3::NFS3ERR_INVAL);
        }
        if is_strictly_under(from.as_str(), to.as_str()) {
            return Err(nfsstat3::NFS3ERR_EXIST);
        }
        let from_len = from.as_str().unicode_len();
        let moving = self.subtree_of(from.as_str());
        // the target must be free, or a file or an empty directory
        let replace = self.nodes.contains(to.as_str());
        if replace {
            let ftype = match self.get_ftype(to.as_str()) {
                Ok(t) => t,
                Err(_) => {
                    proof {
                        assert(false);
                    }
                    return Err(nfsstat3::NFS3ERR_EXIST);
                },
            };
            if ftype == FTYPE_DIR {
                proof {
                    assert(self.path_to_id@.contains_key(to@));
                }
                let children = match self.get_direct_children(to.as_str()) {
                    Ok(c) => c,
                    Err(_) => {
                        proof {
                            assert(false);
                        }
                        return Err(nfsstat3::NFS3ERR_EXIST);
                    },
                };
                if children.len() > 0 {
                    return Err(nfsstat3::NFS3ERR_EXIST);
                }
            }
        }
        let targets = match self.places_for(&moving, from.as_str(), to.as_str()) {
            Ok(t) => t,
            Err(e) => {
                proof {
                    if e == nfsstat3::NFS3ERR_EXIST {
                        let a = choose|a: int|
                            1 <= a < moving@.len() && self.has_path(
                                moved_to(#[trigger] moving@[a]@, from@, to@),
                            );
                        assert(strictly_under(moving@[a]@, from@));
                        assert(self.has_path(moving@[a]@));
                    } else {
                        let a = choose|a: int|
                            0 <= a < moving@.len() && moved_to(#[trigger] moving@[a]@, from@, to@).len()
                                >= usize::MAX - 1;
                        assert(self.has_path(moving@[a]@));
                        if a > 0 {
                            assert(strictly_under(moving@[a]@, from@));
                        }
                    }
                }
                return Err(e);
            },
        };
        proof {
            assert(from@.len() >= 2) by {
                if from_parent@ == root_path() {
                    assert(from@.len() == 1 + from_filename@.len());
                } else {
                    assert(from@.len() == from_parent@.len() + 1 + from_filename@.len());
                }
            }
            assert(to@.len() >= 2) by {
                if to_parent@ == root_path() {
                    assert(to@.len() == 1 + to_filename@.len());
                } else {
                    assert(to@.len() == to_parent@.len() + 1 + to_filename@.len());
                }
            }
        }
        if replace {
            let tid = match self.get_id_from_path(to.as_str()) {
                Ok(id) => id,
                Err(_) => {
                    proof {
                        assert(false);
                    }
                    return Err(nfsstat3::NFS3ERR_EXIST);
                },
            };
            if self.active_writes.contains_key(&tid) {
                self.take_buffer(tid);
            }
            self.remove_node(to.as_str());
        }
        let ghost mid = *self;
        proof {
            assert(mid.ids()[from@] == old(self).ids()[from@]);
            assert forall|q: Seq<char>| !#[trigger] under(q, from@) && !under(q, to@) implies (mid.ids().contains_key(q)
                == old(self).ids().contains_key(q)) && (old(self).ids().contains_key(q) ==> mid.ids()[q]
                == old(self).ids()[q]) by {}
            assert forall|id: u64| old(self).has_id(id) && !under(#[trigger] old(self).path_of(id), from@) && !under(old(self).path_of(id), to@)
                implies mid.has_id(id) && mid.path_of(id) == old(self).path_of(id) by {
                if replace {
                    assert(old(self).path_to_id@.contains_key(old(self).id_to_path@[id]@));
                }
            }
            assert forall|j: int| 1 <= j < targets@.len() implies !mid.has_path((#[trigger] targets@[j])@) by {
                lemma_moved_under(moving@[j]@, from@, to@);
            }
            assert forall|j: int| 0 <= j < moving@.len() implies mid.has_path((#[trigger] moving@[j])@) by {
                if j > 0 {
                    assert(moving@[j]@ != to@) by {
                        if moving@[j]@ == to@ {
                            lemma_under_disjoint(to@, from@, to@);
                        }
                    }
                }
            }
            lemma_moved_under(from@, from@, to@);
        }
        let mut k: usize = 0;
        while k < moving.len()
            invariant
                self.wf(),
                k <= moving@.len(),
                targets@.len() == moving@.len(),
                moving@.len() >= 1,
                moving@[0]@ == from@,
                from@.len() >= 2,
                to@.len() >= 2,
                from@ != to@,
                !strictly_under(to@, from@),
                !strictly_under(from@, to@),
                forall|j: int| 1 <= j < moving@.len() ==> strictly_under(#[trigger] moving@[j]@, from@),
                forall|a: int, b: int| 0 <= a < b < moving@.len() ==> moving@[a]@ != moving@[b]@,
                forall|a: int| 0 <= a < targets@.len() ==> (#[trigger] targets@[a])@ == moved_to(moving@[a]@, from@, to@),
                forall|a: int| 0 <= a < targets@.len() ==> (#[trigger] targets@[a])@.len() < usize::MAX - 1,
                forall|j: int| k <= j < moving@.len() ==> self.has_path((#[trigger] moving@[j])@),
                forall|j: int| k <= j < moving@.len() ==> self.ids()[(#[trigger] moving@[j])@] == mid.ids()[moving@[j]@],
                forall|j: int| k <= j < targets@.len() ==> !self.has_path((#[trigger] targets@[j])@),
                forall|j: int| 0 <= j < k ==> !self.ids().contains_key((#[trigger] moving@[j])@),
                forall|j: int| 0 <= j < k ==> self.ids().contains_key((#[trigger] targets@[j])@)
                    && self.ids()[targets@[j]@] == mid.ids()[moving@[j]@],
                forall|q: Seq<char>| !#[trigger] under(q, from@) && !under(q, to@) ==> (self.ids().contains_key(q)
                    == mid.ids().contains_key(q)) && (mid.ids().contains_key(q) ==> self.ids()[q] == mid.ids()[q]),
                forall|id: u64| mid.has_id(id) && !under(#[trigger] mid.path_of(id), from@) && !under(mid.path_of(id), to@)
                    ==> self.has_id(id) && self.path_of(id) == mid.path_of(id),
                self.next_fileid == mid.next_fileid,
                self.audit_events == mid.audit_events,
                self.community == mid.community,
            decreases moving@.len() - k,
        {
            let ghost before = *self;
            let ghost mk = moving@[k as int]@;
            let ghost tk = targets@[k as int]@;
            proof {
                lemma_moved_under(mk, from@, to@);
                assert(mk != to@) by {
                    if mk == to@ {
                        lemma_under_disjoint(mk, from@, to@);
                    }
                }
                assert(mk != root_path()) by {
                    if k > 0 {
                        assert(strictly_under(mk, from@));
                    }
                }
                assert(tk != root_path()) by {
                    assert(tk.len() >= to@.len());
                }
            }
            let t = targets[k].clone();
            let id = self.move_node(moving[k].as_str(), t);
            proof {
                assert forall|j: int| k < j < moving@.len() implies self.has_path((#[trigger] moving@[j])@)
                    && self.ids()[moving@[j]@] == mid.ids()[moving@[j]@] by {
                    if j > 0 {
                        assert(strictly_under(moving@[j]@, from@));
                    }
                    lemma_moved_under(moving@[j]@, from@, to@);
                    if moving@[j]@ == tk {
                        lemma_under_disjoint(tk, from@, to@);
                    }
                }
                assert forall|j: int| k < j < targets@.len() implies !self.has_path((#[trigger] targets@[j])@) by {
                    if j > 0 {
                        assert(strictly_under(moving@[j]@, from@));
                    }
                    lemma_moved_distinct(moving@[j]@, mk, from@, to@);
                }
                assert forall|j: int| 0 <= j < k + 1 implies !self.ids().contains_key((#[trigger] moving@[j])@) by {
                    if j > 0 {
                        assert(strictly_under(moving@[j]@, from@));
                    }
                    if moving@[j]@ == tk {
                        lemma_under_disjoint(tk, from@, to@);
                    }
                }
                assert forall|j: int| 0 <= j < k + 1 implies self.ids().contains_key((#[trigger] targets@[j])@)
                    && self.ids()[targets@[j]@] == mid.ids()[moving@[j]@] by {
                    if j < k {
                        if j > 0 {
                            assert(strictly_under(moving@[j]@, from@));
                        }
                        lemma_moved_under(moving@[j]@, from@, to@);
                        if targets@[j]@ == mk {
                            lemma_under_disjoint(mk, from@, to@);
                        }
                        lemma_moved_distinct(moving@[j]@, mk, from@, to@);
                    }
                }
                assert forall|q: Seq<char>| !#[trigger] under(q, from@) && !under(q, to@) implies (self.ids().contains_key(q)
                    == mid.ids().contains_key(q)) && (mid.ids().contains_key(q) ==> self.ids()[q] == mid.ids()[q]) by {
                    assert(q != mk);
                    assert(q != tk);
                    assert(before.ids().contains_key(q) == mid.ids().contains_key(q));
                }
                assert forall|i: u64| mid.has_id(i) && !under(#[trigger] mid.path_of(i), from@) && !under(mid.path_of(i), to@)
                    implies self.has_id(i) && self.path_of(i) == mid.path_of(i) by {
                    assert(before.has_id(i) && before.path_of(i) == mid.path_of(i));
                    assert(before.path_to_id@.contains_key(before.id_to_path@[i]@));
                    if i == id {
                        assert(before.id_to_path@[id]@ == mk);
                    }
                }
            }
            k += 1;
        }
        proof {
            assert(targets@[0]@ == to@);
            assert(self.ids()[to@] == mid.ids()[from@]);
            assert forall|q: Seq<char>| !under(q, from@) && !under(q, to@) implies (#[trigger] self.ids().contains_key(q)
                == old(self).ids().contains_key(q)) && (old(self).ids().contains_key(q) ==> self.ids()[q]
                == old(self).ids()[q]) by {
                assert(!under(q, from@));
                assert(mid.ids().contains_key(q) == old(self).ids().contains_key(q));
            }
            assert forall|id: u64| old(self).has_id(id) && !under(old(self).path_of(id), from@) && !under(old(self).path_of(id), to@)
                implies #[trigger] self.has_id(id) && self.path_of(id) == old(self).path_of(id) by {
                assert(!under(old(self).path_of(id), from@));
                assert(mid.has_id(id));
                assert(mid.path_of(id) == old(self).path_of(id));
                assert(!under(mid.path_of(id), from@));
                assert(!under(mid.path_of(id), to@));
                assert(self.has_id(id));
            }
            assert(self.ids().contains_key(to@));
            assert(self.ids()[to@] == old(self).ids()[from@]);
            assert(!self.ids().contains_key(from@));
            assert(self.next_fileid == old(self).next_fileid);
            assert forall|q: Seq<char>|
                old(self).has_path(q) && #[trigger] strictly_under(q, from@) implies {
                    &&& self.ids().contains_key(moved_to(q, from@, to@))
                    &&& self.ids()[moved_to(q, from@, to@)] == old(self).ids()[q]
                    &&& self.depths()[moved_to(q, from@, to@)] == path_depth(moved_to(q, from@, to@))
                    &&& !self.ids().contains_key(q)
                } by {
                let j = choose|j: int| 1 <= j < moving@.len() && moving@[j]@ == q;
                assert(targets@[j]@ == moved_to(q, from@, to@));
                assert(self.ids().contains_key(targets@[j]@));
                assert(!self.ids().contains_key(moving@[j]@));
                assert(q != to@);
                assert(mid.ids()[q] == old(self).ids()[q]);
            }
            assert(renamed(*old(self), *self, from@, to@));
        }
        let ghost done = *self;
        let key = self.community.clone();
        self.record_event(EventType::Modified, to.as_str(), key.as_str(), stamp);
        proof {
            assert(self.ids() == done.ids());
            assert(self.depths() == done.depths());
            assert(self.id_to_path == done.id_to_path);
            assert forall|id: u64| #[trigger] self.has_id(id) == done.has_id(id) && self.path_of(id) == done.path_of(id) by {}
            assert(renamed(*old(self), *self, from@, to@));
        }
        Ok(())
    }
}

} // verus!
