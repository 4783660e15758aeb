//! A sorted set of text members with integer scores, ordered by score; a
//! member added or moved goes after every member of equal score. The depth
//! index is one.
use vstd::prelude::*;

verus! {

pub open spec fn member_view(e: (String, u64)) -> (Seq<char>, u64) {
    (e.0@, e.1)
}

/// Members of `s` whose score lies in `[min, max]`, in the order of `s`.
pub open spec fn members_scored(s: Seq<(Seq<char>, u64)>, min: u64, max: u64) -> Seq<Seq<char>>
    decreases s.len(),
{
    if s.len() == 0 {
        Seq::empty()
    } else {
        let rest = members_scored(s.drop_last(), min, max);
        if min <= s.last().1 <= max {
            rest.push(s.last().0)
        } else {
            rest
        }
    }
}

/// The positions `[lo, hi)` that a range query `start..=stop` names over `len`
/// members, where a negative bound counts from the end.
pub open spec fn range_bounds(len: int, start: int, stop: int) -> (int, int) {
    let s = if start < 0 {
        len + start
    } else {
        start
    };
    let s = if s < 0 {
        0
    } else {
        s
    };
    let e = if stop < 0 {
        len + stop
    } else {
        stop
    };
    let e = if e >= len {
        len - 1
    } else {
        e
    };
    if s > e || s >= len {
        (0, 0)
    } else {
        (s, e + 1)
    }
}

pub struct SortedSet {
    pub entries: Vec<(String, u64)>,
    pub model: Ghost<Map<Seq<char>, u64>>,
}

impl SortedSet {
    /// The members with their scores, in order.
    pub open spec fn view(&self) -> Seq<(Seq<char>, u64)> {
        self.entries@.map_values(|e: (String, u64)| member_view(e))
    }

    /// The score of each member.
    pub open spec fn scores(&self) -> Map<Seq<char>, u64> {
        self.model@
    }

    pub open spec fn wf(&self) -> bool {
        &&& forall|i: int, j: int|
            0 <= i < j < self.entries@.len() ==> self.entries@[i].0@ != self.entries@[j].0@
        &&& forall|i: int, j: int|
            0 <= i < j < self.entries@.len() ==> self.entries@[i].1 <= self.entries@[j].1
        &&& forall|i: int|
            0 <= i < self.entries@.len() ==> #[trigger] self.model@.contains_key(
                self.entries@[i].0@,
            ) && self.model@[self.entries@[i].0@] == self.entries@[i].1
        &&& forall|k: Seq<char>| #[trigger]
            self.model@.contains_key(k) ==> exists|i: int|
                0 <= i < self.entries@.len() && self.entries@[i].0@ == k
    }

    pub fn new() -> (r: Self)
        ensures
            r.wf(),
            r.scores() == Map::<Seq<char>, u64>::empty(),
            r.view().len() == 0,
    {
        SortedSet { entries: Vec::new(), model: Ghost(Map::empty()) }
    }

    fn find(&self, member: &str) -> (r: Option<usize>)
        requires
            self.wf(),
        ensures
            r.is_some() == self.scores().contains_key(member@),
            r matches Some(i) ==> i < self.entries@.len() && self.entries@[i as int].0@
                == member@,
    {
        let wanted = member.to_owned();
        let mut i: usize = 0;
        while i < self.entries.len()
            invariant
                self.wf(),
                wanted@ == member@,
                i <= self.entries@.len(),
                forall|k: int| 0 <= k < i ==> self.entries@[k].0@ != member@,
            decreases self.entries@.len() - i,
        {
            if self.entries[i].0 == wanted {
                return Some(i);
            }
            i += 1;
        }
        None
    }

    /// The score of `member`, if it is in the set.
    pub fn zscore(&self, member: &str) -> (r: Option<u64>)
        requires
            self.wf(),
        ensures
            r == (if self.scores().contains_key(member@) {
                Some(self.scores()[member@])
            } else {
                None
            }),
    {
        match self.find(member) {
            Some(i) => Some(self.entries[i].1),
            None => None,
        }
    }

    /// Takes `member` out of the set; whether it was there.
    pub fn zrem(&mut self, member: &str) -> (r: bool)
        requires
            old(self).wf(),
        ensures
            final(self).wf(),
            final(self).scores() == old(self).scores().remove(member@),
            r == old(self).scores().contains_key(member@),
    {
        match self.find(member) {
            Some(i) => {
                let ghost k = member@;
                let ghost old_entries = self.entries@;
                let ghost old_model = self.model@;
                self.entries.remove(i);
                self.model = Ghost(self.model@.remove(k));
                assert forall|j: int| 0 <= j < self.entries@.len() implies #[trigger]
                    self.model@.contains_key(self.entries@[j].0@) && self.model@[self.entries@[
                    j].0@] == self.entries@[j].1 by {
                    if j < i {
                        assert(self.entries@[j] == old_entries[j]);
                        assert(old_model.contains_key(old_entries[j].0@));
                        assert(old_entries[j].0@ != k);
                    } else {
                        assert(self.entries@[j] == old_entries[j + 1]);
                        assert(old_model.contains_key(old_entries[j + 1].0@));
                        assert(old_entries[j + 1].0@ != k);
                    }
                }
                assert forall|kk: Seq<char>| #[trigger]
                    self.model@.contains_key(kk) implies exists|j: int|
                        0 <= j < self.entries@.len() && self.entries@[j].0@ == kk by {
                    let j = choose|j: int| 0 <= j < old_entries.len() && old_entries[j].0@ == kk;
                    if j < i {
                        assert(self.entries@[j] == old_entries[j]);
                    } else {
                        assert(self.entries@[j - 1] == old_entries[j]);
                    }
                }
                assert forall|a: int, b: int| 0 <= a < b < self.entries@.len() implies {
                    &&& self.entries@[a].0@ != self.entries@[b].0@
                    &&& self.entries@[a].1 <= self.entries@[b].1
                } by {
                    let a0 = if a < i {
                        a
                    } else {
                        a + 1
                    };
                    let b0 = if b < i {
                        b
                    } else {
                        b + 1
                    };
                    assert(self.entries@[a] == old_entries[a0]);
                    assert(self.entries@[b] == old_entries[b0]);
                }
                true
            },
            None => {
                assert(self.model@.remove(member@) =~= self.model@);
                false
            },
        }
    }

    /// Adds `member` with `score`, or moves it to `score` when it is there.
    pub fn zadd(&mut self, member: String, score: u64)
        requires
            old(self).wf(),
        ensures
            final(self).wf(),
            final(self).scores() == old(self).scores().insert(member@, score),
            exists|at: int|
                0 <= at < final(self).view().len() && final(self).view()[at] == (member@, score)
                    && (forall|j: int| 0 <= j < at ==> #[trigger] final(self).view()[j].1 <= score)
                    && (forall|j: int|
                    at < j < final(self).view().len() ==> #[trigger] final(self).view()[j].1
                        > score),
    {
        let ghost k = member@;
        self.zrem(member.as_str());
        let ghost mid = self.entries@;
        let ghost mid_model = self.model@;
        let mut p: usize = 0;
        while p < self.entries.len() && self.entries[p].1 <= score
            invariant
                self.wf(),
                self.entries@ == mid,
                self.model@ == mid_model,
                p <= mid.len(),
                forall|j: int| 0 <= j < p ==> mid[j].1 <= score,
            decreases mid.len() - p,
        {
            p += 1;
        }
        assert(!self.model@.contains_key(k));
        self.entries.insert(p, (member, score));
        self.model = Ghost(self.model@.insert(k, score));
        assert forall|j: int| 0 <= j < self.entries@.len() implies #[trigger]
            self.model@.contains_key(self.entries@[j].0@) && self.model@[self.entries@[j].0@]
            == self.entries@[j].1 by {
            if j < p {
                assert(self.entries@[j] == mid[j]);
                assert(mid_model.contains_key(mid[j].0@));
                assert(mid[j].0@ != k);
            } else if j > p {
                assert(self.entries@[j] == mid[j - 1]);
                assert(mid_model.contains_key(mid[j - 1].0@));
                assert(mid[j - 1].0@ != k);
            }
        }
        assert forall|kk: Seq<char>| #[trigger]
            self.model@.contains_key(kk) implies exists|j: int|
                0 <= j < self.entries@.len() && self.entries@[j].0@ == kk by {
            if kk == k {
                assert(self.entries@[p as int].0@ == kk);
            } else {
                let j = choose|j: int| 0 <= j < mid.len() && mid[j].0@ == kk;
                if j < p {
                    assert(self.entries@[j] == mid[j]);
                } else {
                    assert(self.entries@[j + 1] == mid[j]);
                }
            }
        }
        assert forall|a: int, b: int| 0 <= a < b < self.entries@.len() implies {
            &&& self.entries@[a].0@ != self.entries@[b].0@
            &&& self.entries@[a].1 <= self.entries@[b].1
        } by {
            if a < p {
                assert(self.entries@[a] == mid[a]);
                assert(mid[a].0@ != k);
            } else if a > p {
                assert(self.entries@[a] == mid[a - 1]);
            }
            if b < p {
                assert(self.entries@[b] == mid[b]);
            } else if b > p {
                assert(self.entries@[b] == mid[b - 1]);
                assert(mid[b - 1].0@ != k);
                if p < mid.len() {
                    assert(mid[p as int].1 > score);
                }
            }
        }
        assert(self.view()[p as int] == (k, score));
        assert forall|j: int| 0 <= j < p implies #[trigger] self.view()[j].1 <= score by {
            assert(self.entries@[j] == mid[j]);
        }
        assert forall|j: int| p < j < self.view().len() implies #[trigger] self.view()[j].1 > score by {
            assert(self.entries@[j] == mid[j - 1]);
            assert(mid[p as int].1 > score);
            if j - 1 > p {
                assert(mid_model.contains_key(mid[p as int].0@));
            }
        }
    }

    /// Members with their scores at the positions `start..=stop`, a negative
    /// bound counting from the end.
    pub fn zrange_withscores(&self, start: isize, stop: isize) -> (r: Vec<(String, u64)>)
        requires
            self.wf(),
        ensures
            r@.map_values(|e: (String, u64)| member_view(e)) == self.view().subrange(
                range_bounds(self.view().len() as int, start as int, stop as int).0,
                range_bounds(self.view().len() as int, start as int, stop as int).1,
            ),
    {
        let len = self.entries.len();
        let ghost b = range_bounds(len as int, start as int, stop as int);
        let mut s: i128 = if start < 0 {
            len as i128 + start as i128
        } else {
            start as i128
        };
        if s < 0 {
            s = 0;
        }
        let mut e: i128 = if stop < 0 {
            len as i128 + stop as i128
        } else {
            stop as i128
        };
        if e >= len as i128 {
            e = len as i128 - 1;
        }
        let mut r: Vec<(String, u64)> = Vec::new();
        if s > e || s >= len as i128 {
            assert(r@.map_values(|e: (String, u64)| member_view(e)) =~= self.view().subrange(
                b.0,
                b.1,
            ));
            return r;
        }
        let lo = s as usize;
        let hi = (e + 1) as usize;
        let mut i: usize = lo;
        while i < hi
            invariant
                lo <= i <= hi <= self.entries@.len(),
                lo == b.0,
                hi == b.1,
                r@.map_values(|e: (String, u64)| member_view(e)) =~= self.view().subrange(
                    lo as int,
                    i as int,
                ),
            decreases hi - i,
        {
            let name = self.entries[i].0.clone();
            let ghost prev = r@;
            let item = (name, self.entries[i].1);
            r.push(item);
            proof {
                assert(self.view()[i as int] == member_view(self.entries@[i as int]));
                assert(member_view(item) == self.view()[i as int]);
                assert(r@.map_values(|e: (String, u64)| member_view(e)) =~= prev.map_values(
                    |e: (String, u64)| member_view(e),
                ).push(member_view(item)));
                assert(self.view().subrange(lo as int, i + 1) =~= self.view().subrange(
                    lo as int,
                    i as int,
                ).push(self.view()[i as int]));
            }
            i += 1;
        }
        r
    }

    /// Members whose score lies in `[min, max]`, in order.
    pub fn zrangebyscore(&self, min: u64, max: u64) -> (r: Vec<String>)
        requires
            self.wf(),
        ensures
            r@.map_values(|s: String| s@) == members_scored(self.view(), min, max),
    {
        let mut r: Vec<String> = Vec::new();
        let mut i: usize = 0;
        while i < self.entries.len()
            invariant
                i <= self.entries@.len(),
                r@.map_values(|s: String| s@) == members_scored(
                    self.view().subrange(0, i as int),
                    min,
                    max,
                ),
            decreases self.entries@.len() - i,
        {
            proof {
                assert(self.view().subrange(0, i + 1).drop_last() =~= self.view().subrange(
                    0,
                    i as int,
                ));
            }
            let sc = self.entries[i].1;
            if min <= sc && sc <= max {
                let name = self.entries[i].0.clone();
                r.push(name);
                assert(r@.map_values(|s: String| s@) =~= members_scored(
                    self.view().subrange(0, i as int),
                    min,
                    max,
                ).push(self.view()[i as int].0));
            }
            i += 1;
        }
        assert(self.view().subrange(0, self.entries@.len() as int) =~= self.view());
        r
    }
}

} // verus!
