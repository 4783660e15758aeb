//! Path arithmetic of the namespace: depth scores, joining a name to its
//! parent, the last segment of a path, direct children, and the identities
//! that a mount path and a file path carry.
use vstd::prelude::*;

verus! {

/// Number of `/` characters in `s`.
pub open spec fn slash_count(s: Seq<char>) -> nat
    decreases s.len(),
{
    if s.len() == 0 {
        0
    } else {
        slash_count(s.drop_last()) + if s.last() == '/' {
            1nat
        } else {
            0nat
        }
    }
}

pub open spec fn root_path() -> Seq<char> {
    seq!['/']
}

/// Score of a path in the depth index: the root holds the reserved score 1,
/// any other path the number of its slashes plus one.
pub open spec fn path_depth(p: Seq<char>) -> nat {
    if p == root_path() {
        1
    } else {
        slash_count(p) + 1
    }
}

/// The path of the entry `name` inside the directory `parent`.
pub open spec fn join_path(parent: Seq<char>, name: Seq<char>) -> Seq<char> {
    if parent == root_path() {
        seq!['/'] + name
    } else {
        parent + seq!['/'] + name
    }
}

pub open spec fn has_slash(s: Seq<char>) -> bool {
    exists|i: int| 0 <= i < s.len() && s[i] == '/'
}

/// The text after the last slash of `s` (all of `s` when it has none).
pub open spec fn last_segment(s: Seq<char>) -> Seq<char>
    decreases s.len(),
{
    if s.len() == 0 || s.last() == '/' {
        Seq::empty()
    } else {
        last_segment(s.drop_last()).push(s.last())
    }
}

/// Whether `node` names an entry directly inside the directory `dir`.
pub open spec fn direct_child(node: Seq<char>, dir: Seq<char>) -> bool {
    if dir == root_path() {
        has_slash(node)
    } else {
        let prefix = dir + seq!['/'];
        &&& prefix.len() <= node.len()
        &&& node.subrange(0, prefix.len() as int) == prefix
        &&& !has_slash(node.subrange(prefix.len() as int, node.len() as int))
    }
}

/// The first segment of a path with at least two slashes, else empty: the
/// user to whom an event on that path is charged.
pub open spec fn path_user(p: Seq<char>) -> Seq<char> {
    if slash_count(p) >= 2 {
        let a = first_slash(p);
        let rest = p.subrange(a + 1, p.len() as int);
        rest.subrange(0, first_slash(rest))
    } else {
        Seq::empty()
    }
}

/// Index of the first slash of `s`, or its length when there is none.
pub open spec fn first_slash(s: Seq<char>) -> int
    decreases s.len(),
{
    if s.len() == 0 {
        0
    } else if s[0] == '/' {
        0
    } else {
        1 + first_slash(s.subrange(1, s.len() as int))
    }
}

/// The suffix that marks the segment of a mount path that names a user.
pub open spec fn drive_suffix() -> Seq<char> {
    seq!['\'', 's', ' ', 'd', 'r', 'i', 'v', 'e']
}

pub open spec fn ends_with(s: Seq<char>, suffix: Seq<char>) -> bool {
    suffix.len() <= s.len() && s.subrange(s.len() - suffix.len(), s.len() as int) == suffix
}

/// `s` with every trailing repetition of `suffix` taken off.
pub open spec fn trim_suffix_all(s: Seq<char>, suffix: Seq<char>) -> Seq<char>
    decreases s.len(),
{
    if suffix.len() > 0 && ends_with(s, suffix) {
        trim_suffix_all(s.subrange(0, s.len() - suffix.len()), suffix)
    } else {
        s
    }
}

/// `s` without its last segment and the slash before it.
pub open spec fn before_last_segment(s: Seq<char>) -> Seq<char> {
    s.subrange(0, s.len() - last_segment(s).len() - 1)
}

/// The user named by a mount path: the last of its segments that ends in
/// `'s drive`, with that suffix taken off.
pub open spec fn mount_user(s: Seq<char>) -> Option<Seq<char>>
    decreases s.len(),
{
    let seg = last_segment(s);
    if ends_with(seg, drive_suffix()) {
        Some(trim_suffix_all(seg, drive_suffix()))
    } else if seg.len() < s.len() {
        mount_user(before_last_segment(s))
    } else {
        None
    }
}

/// Permission bits stored for a requested mode: bit 0x80 set, then nine bits kept.
pub open spec fn unmasked_mode(mode: u32) -> u32 {
    (mode | 0x80) & 0x1FF
}

proof fn lemma_last_segment_bounds(s: Seq<char>)
    ensures
        last_segment(s).len() <= s.len(),
        last_segment(s) == s.subrange(s.len() - last_segment(s).len(), s.len() as int),
        last_segment(s).len() < s.len() ==> s[s.len() - last_segment(s).len() - 1] == '/',
        !has_slash(last_segment(s)),
    decreases s.len(),
{
    if s.len() == 0 || s.last() == '/' {
    } else {
        lemma_last_segment_bounds(s.drop_last());
        let t = last_segment(s.drop_last());
        assert(s.drop_last().subrange(s.len() - 1 - t.len(), s.len() - 1) == t);
        assert(last_segment(s) =~= s.subrange(s.len() - last_segment(s).len(), s.len() as int));
        assert forall|i: int| 0 <= i < last_segment(s).len() implies last_segment(s)[i] != '/' by {
            if i < t.len() {
                assert(!has_slash(t));
                assert(t[i] != '/');
            }
        }
    }
}

/// A path has no more slashes than characters.
pub proof fn lemma_slash_count_len(s: Seq<char>)
    ensures
        slash_count(s) <= s.len(),
    decreases s.len(),
{
    if s.len() > 0 {
        lemma_slash_count_len(s.drop_last());
    }
}

proof fn lemma_slash_count_push(s: Seq<char>, c: char)
    ensures
        slash_count(s.push(c)) == slash_count(s) + if c == '/' {
            1nat
        } else {
            0nat
        },
{
    assert(s.push(c).drop_last() =~= s);
}

fn chars_of(s: &str) -> (r: Vec<char>)
    ensures
        r@ == s@,
{
    let n = s.unicode_len();
    let mut r: Vec<char> = Vec::new();
    let mut i: usize = 0;
    while i < n
        invariant
            n == s@.len(),
            i <= n,
            r@ == s@.subrange(0, i as int),
        decreases n - i,
    {
        r.push(s.get_char(i));
        i += 1;
        assert(r@ =~= s@.subrange(0, i as int));
    }
    assert(r@ =~= s@);
    r
}

/// Whether `s` is the root path `/`.
pub fn is_root_path(s: &str) -> (r: bool)
    ensures
        r == (s@ == root_path()),
{
    let n = s.unicode_len();
    if n == 1 {
        let c = s.get_char(0);
        if c == '/' {
            assert(s@ =~= root_path());
            true
        } else {
            false
        }
    } else {
        false
    }
}

/// Score of `path` in the depth index.
pub fn depth_score(path: &str) -> (r: u64)
    requires
        path@.len() < usize::MAX,
    ensures
        r == path_depth(path@),
{
    if is_root_path(path) {
        return 1;
    }
    let c = chars_of(path);
    let n = c.len();
    let mut count: u64 = 0;
    let mut i: usize = 0;
    while i < n
        invariant
            n == c@.len(),
            c@ == path@,
            i <= n,
            n < usize::MAX,
            count <= i,
            count == slash_count(c@.subrange(0, i as int)),
        decreases n - i,
    {
        proof {
            assert(c@.subrange(0, i + 1) =~= c@.subrange(0, i as int).push(c@[i as int]));
            lemma_slash_count_push(c@.subrange(0, i as int), c@[i as int]);
        }
        if c[i] == '/' {
            count += 1;
        }
        i += 1;
    }
    assert(c@.subrange(0, n as int) =~= c@);
    count + 1
}

/// The path of the entry `name` in the directory at `parent`.
pub fn child_path(parent: &str, name: &str) -> (r: String)
    ensures
        r@ == join_path(parent@, name@),
{
    if is_root_path(parent) {
        let root = String::from_str("/");
        proof {
            reveal_strlit("/");
        }
        let r = root.concat(name);
        assert(r@ =~= seq!['/'] + name@);
        r
    } else {
        let p = parent.to_owned();
        proof {
            reveal_strlit("/");
        }
        let with_sep = p.concat("/");
        let r = with_sep.concat(name);
        assert(r@ =~= parent@ + seq!['/'] + name@);
        r
    }
}

/// Index where the last segment of `c[0..end]` begins.
fn segment_start(c: &Vec<char>, end: usize) -> (r: usize)
    requires
        end <= c@.len(),
    ensures
        r <= end,
        c@.subrange(r as int, end as int) == last_segment(c@.subrange(0, end as int)),
{
    let mut i: usize = end;
    while i > 0 && c[i - 1] != '/'
        invariant
            i <= end <= c@.len(),
            forall|k: int| i <= k < end ==> c@[k] != '/',
            last_segment(c@.subrange(0, end as int)) == last_segment(c@.subrange(0, i as int))
                + c@.subrange(i as int, end as int),
        decreases i,
    {
        proof {
            let s = c@.subrange(0, i as int);
            assert(s.drop_last() =~= c@.subrange(0, i - 1));
            assert(s.last() == c@[i - 1]);
            assert(last_segment(s) == last_segment(s.drop_last()).push(c@[i - 1]));
            assert(c@.subrange(i - 1, end as int) =~= seq![c@[i - 1]] + c@.subrange(
                i as int,
                end as int,
            ));
            assert(last_segment(c@.subrange(0, i - 1)).push(c@[i - 1]) + c@.subrange(
                i as int,
                end as int,
            ) =~= last_segment(c@.subrange(0, i - 1)) + c@.subrange(i - 1, end as int));
        }
        i -= 1;
    }
    proof {
        let s = c@.subrange(0, i as int);
        if i > 0 {
            assert(s.last() == c@[i - 1]);
        }
        assert(last_segment(s) =~= Seq::<char>::empty());
        assert(last_segment(c@.subrange(0, end as int)) =~= c@.subrange(i as int, end as int));
    }
    i
}

/// The text after the last slash of `input`.
pub fn last_path_element(input: &str) -> (r: String)
    ensures
        r@ == last_segment(input@),
{
    let c = chars_of(input);
    let n = c.len();
    let start = segment_start(&c, n);
    assert(c@.subrange(0, n as int) =~= c@);
    input.substring_char(start, n).to_owned()
}

/// Whether `s[from..to]` holds a slash.
fn slash_between(c: &Vec<char>, from: usize, to: usize) -> (r: bool)
    requires
        from <= to <= c@.len(),
    ensures
        r == has_slash(c@.subrange(from as int, to as int)),
{
    let mut i: usize = from;
    while i < to
        invariant
            from <= i <= to <= c@.len(),
            forall|k: int| from <= k < i ==> c@[k] != '/',
        decreases to - i,
    {
        if c[i] == '/' {
            assert(c@.subrange(from as int, to as int)[i - from] == '/');
            return true;
        }
        i += 1;
    }
    assert forall|k: int| 0 <= k < to - from implies #[trigger] c@.subrange(
        from as int,
        to as int,
    )[k] != '/' by {
        assert(c@.subrange(from as int, to as int)[k] == c@[from + k]);
    }
    false
}

/// Whether `node` names an entry directly inside the directory `path`.
pub fn is_direct_child(node: &str, path: &str) -> (r: bool)
    ensures
        r == direct_child(node@, path@),
{
    let nc = chars_of(node);
    if is_root_path(path) {
        let r = slash_between(&nc, 0, nc.len());
        assert(nc@.subrange(0, nc@.len() as int) =~= nc@);
        return r;
    }
    let pc = chars_of(path);
    let plen = pc.len();
    if plen >= nc.len() {
        return false;
    }
    let ghost prefix = path@ + seq!['/'];
    let mut i: usize = 0;
    while i < plen
        invariant
            plen == pc@.len(),
            pc@ == path@,
            nc@ == node@,
            plen < nc@.len(),
            prefix == path@ + seq!['/'],
            path@ != root_path(),
            i <= plen,
            forall|k: int| 0 <= k < i ==> nc@[k] == pc@[k],
        decreases plen - i,
    {
        if nc[i] != pc[i] {
            assert(prefix[i as int] == pc@[i as int]);
            assert(node@.subrange(0, prefix.len() as int)[i as int] != prefix[i as int]);
            return false;
        }
        i += 1;
    }
    if nc[plen] != '/' {
        assert(node@.subrange(0, prefix.len() as int)[plen as int] != prefix[plen as int]);
        return false;
    }
    assert(node@.subrange(0, prefix.len() as int) =~= prefix);
    let r = !slash_between(&nc, plen + 1, nc.len());
    r
}

/// The first segment of `path` when it has at least two slashes, else empty.
pub fn path_user_of(path: &str) -> (r: String)
    ensures
        r@ == path_user(path@),
{
    let c = chars_of(path);
    let n = c.len();
    // find the first two slashes
    let mut i: usize = 0;
    assert(c@.subrange(0, n as int) =~= c@);
    while i < n && c[i] != '/'
        invariant
            n == c@.len(),
            i <= n,
            forall|k: int| 0 <= k < i ==> c@[k] != '/',
            first_slash(c@) == i + first_slash(c@.subrange(i as int, n as int)),
        decreases n - i,
    {
        proof {
            let t = c@.subrange(i as int, n as int);
            assert(t.subrange(1, t.len() as int) =~= c@.subrange(i + 1, n as int));
        }
        i += 1;
    }
    proof {
        let t = c@.subrange(i as int, n as int);
        assert(first_slash(t) == 0);
        lemma_first_slash_count(c@);
    }
    if i >= n {
        proof {
            lemma_no_slash_count(c@);
        }
        return String::new();
    }
    let a = i;
    let mut j: usize = a + 1;
    while j < n && c[j] != '/'
        invariant
            n == c@.len(),
            a < j <= n,
            forall|k: int| a < k < j ==> c@[k] != '/',
            first_slash(c@.subrange(a + 1, n as int)) == (j - a - 1) + first_slash(
                c@.subrange(j as int, n as int),
            ),
        decreases n - j,
    {
        proof {
            let t = c@.subrange(j as int, n as int);
            assert(t.subrange(1, t.len() as int) =~= c@.subrange(j + 1, n as int));
        }
        j += 1;
    }
    proof {
        let t = c@.subrange(j as int, n as int);
        assert(first_slash(t) == 0);
    }
    if j >= n {
        proof {
            lemma_slash_count_split(c@, a as int);
            lemma_no_slash_count(c@.subrange(a + 1, n as int));
            assert forall|k: int| 0 <= k < n - a - 1 implies #[trigger] c@.subrange(
                a + 1,
                n as int,
            )[k] != '/' by {
                lemma_first_slash_prefix(c@.subrange(a + 1, n as int), k);
            }
        }
        return String::new();
    }
    proof {
        lemma_slash_count_split(c@, a as int);
        let rest0 = c@.subrange(a + 1, n as int);
        assert forall|k: int| 0 <= k < j - a - 1 implies rest0[k] != '/' by {
            assert(rest0[k] == c@[a + 1 + k]);
        }
        lemma_first_slash_found(rest0, j - a - 1);
        let rest = c@.subrange(a + 1, n as int);
        assert(rest.subrange(0, j - a - 1) =~= c@.subrange(a + 1, j as int));
        lemma_slash_at_counts(rest, j - a - 1);
    }
    path.substring_char(a + 1, j).to_owned()
}

proof fn lemma_first_slash_prefix(s: Seq<char>, k: int)
    requires
        0 <= k < first_slash(s),
    ensures
        s[k] != '/',
    decreases s.len(),
{
    lemma_first_slash_count(s);
    if k > 0 {
        lemma_first_slash_prefix(s.subrange(1, s.len() as int), k - 1);
        assert(s[k] == s.subrange(1, s.len() as int)[k - 1]);
    }
}

proof fn lemma_first_slash_found(s: Seq<char>, k: int)
    requires
        0 <= k < s.len(),
        s[k] == '/',
        forall|i: int| 0 <= i < k ==> s[i] != '/',
    ensures
        first_slash(s) == k,
    decreases s.len(),
{
    if k > 0 {
        lemma_first_slash_found(s.subrange(1, s.len() as int), k - 1);
    }
}

proof fn lemma_no_slash_count(s: Seq<char>)
    requires
        forall|i: int| 0 <= i < s.len() ==> s[i] != '/',
    ensures
        slash_count(s) == 0,
    decreases s.len(),
{
    if s.len() > 0 {
        lemma_no_slash_count(s.drop_last());
    }
}

proof fn lemma_slash_count_concat(a: Seq<char>, b: Seq<char>)
    ensures
        slash_count(a + b) == slash_count(a) + slash_count(b),
    decreases b.len(),
{
    if b.len() == 0 {
        assert(a + b =~= a);
    } else {
        assert((a + b).drop_last() =~= a + b.drop_last());
        lemma_slash_count_concat(a, b.drop_last());
    }
}

proof fn lemma_first_slash_count(s: Seq<char>)
    ensures
        0 <= first_slash(s) <= s.len(),
        first_slash(s) < s.len() ==> s[first_slash(s)] == '/',
    decreases s.len(),
{
    if s.len() > 0 && s[0] != '/' {
        lemma_first_slash_count(s.subrange(1, s.len() as int));
    }
}

/// With `a` the first slash of `s`: the slashes of `s` are that one and those after it.
proof fn lemma_slash_count_split(s: Seq<char>, a: int)
    requires
        0 <= a < s.len(),
        s[a] == '/',
        forall|k: int| 0 <= k < a ==> s[k] != '/',
    ensures
        slash_count(s) == 1 + slash_count(s.subrange(a + 1, s.len() as int)),
        first_slash(s) == a,
{
    lemma_first_slash_found(s, a);
    assert(s =~= s.subrange(0, a) + seq!['/'] + s.subrange(a + 1, s.len() as int));
    lemma_slash_count_concat(s.subrange(0, a) + seq!['/'], s.subrange(a + 1, s.len() as int));
    lemma_slash_count_push(s.subrange(0, a), '/');
    assert(s.subrange(0, a).push('/') =~= s.subrange(0, a) + seq!['/']);
    lemma_no_slash_count(s.subrange(0, a));
}

proof fn lemma_slash_at_counts(s: Seq<char>, k: int)
    requires
        0 <= k < s.len(),
        s[k] == '/',
    ensures
        slash_count(s) >= 1,
{
    assert(s =~= s.subrange(0, k + 1) + s.subrange(k + 1, s.len() as int));
    lemma_slash_count_concat(s.subrange(0, k + 1), s.subrange(k + 1, s.len() as int));
    assert(s.subrange(0, k + 1).drop_last() =~= s.subrange(0, k));
}


/// Whether `c[from..to]` ends with `suffix`.
fn ends_with_at(c: &Vec<char>, from: usize, to: usize, suffix: &Vec<char>) -> (r: bool)
    requires
        from <= to <= c@.len(),
    ensures
        r == ends_with(c@.subrange(from as int, to as int), suffix@),
{
    let m = suffix.len();
    if m > to - from {
        return false;
    }
    let base = to - m;
    let mut i: usize = 0;
    while i < m
        invariant
            m == suffix@.len(),
            from <= base,
            base + m == to,
            to <= c@.len(),
            i <= m,
            forall|k: int| 0 <= k < i ==> c@[base + k] == suffix@[k],
        decreases m - i,
    {
        if c[base + i] != suffix[i] {
            let ghost seg = c@.subrange(from as int, to as int);
            assert(seg.subrange(seg.len() - m, seg.len() as int)[i as int] != suffix@[i as int]);
            return false;
        }
        i += 1;
    }
    let ghost seg = c@.subrange(from as int, to as int);
    assert(seg.subrange(seg.len() - m, seg.len() as int) =~= suffix@);
    true
}

/// The user a mount path names: the last of its segments that ends in
/// `'s drive`, with every trailing repetition of that suffix taken off.
pub fn mount_user_key(path: &str) -> (r: Option<String>)
    ensures
        match r {
            Some(k) => mount_user(path@) == Some(k@),
            None => mount_user(path@) is None,
        },
{
    let c = chars_of(path);
    proof {
        reveal_strlit("'s drive");
    }
    let suffix = chars_of("'s drive");
    assert(suffix@ =~= drive_suffix());
    let mut end: usize = c.len();
    assert(c@.subrange(0, end as int) =~= c@);
    loop
        invariant
            c@ == path@,
            suffix@ == drive_suffix(),
            end <= c@.len(),
            mount_user(path@) == mount_user(c@.subrange(0, end as int)),
        decreases end,
    {
        let start = segment_start(&c, end);
        let ghost s = c@.subrange(0, end as int);
        assert(c@.subrange(start as int, end as int) =~= s.subrange(start as int, end as int));
        if ends_with_at(&c, start, end, &suffix) {
            // take the suffix off as long as it is there
            let mut cut: usize = end;
            while ends_with_at(&c, start, cut, &suffix)
                invariant
                    c@ == path@,
                    suffix@ == drive_suffix(),
                    start <= cut <= end <= c@.len(),
                    trim_suffix_all(c@.subrange(start as int, end as int), drive_suffix())
                        == trim_suffix_all(c@.subrange(start as int, cut as int), drive_suffix()),
                decreases cut,
            {
                let ghost seg = c@.subrange(start as int, cut as int);
                assert(seg.subrange(0, seg.len() - 8) =~= c@.subrange(start as int, cut - 8));
                cut = cut - 8;
            }
            let k = path.substring_char(start, cut).to_owned();
            return Some(k);
        }
        if start == 0 {
            return None;
        }
        proof {
            lemma_last_segment_bounds(s);
            assert(before_last_segment(s) =~= c@.subrange(0, start - 1));
        }
        end = start - 1;
    }
}

/// Whether `s` matches the glob pattern `p`: `*` stands for any run of
/// characters, `?` for any one character, anything else for itself.
pub open spec fn glob_match(p: Seq<char>, s: Seq<char>) -> bool
    decreases p.len() + s.len(),
{
    if p.len() == 0 {
        s.len() == 0
    } else if p[0] == '*' {
        glob_match(p.drop_first(), s) || (s.len() > 0 && glob_match(p, s.drop_first()))
    } else if s.len() == 0 {
        false
    } else if p[0] == '?' || p[0] == s[0] {
        glob_match(p.drop_first(), s.drop_first())
    } else {
        false
    }
}

fn glob_from(p: &Vec<char>, i: usize, s: &Vec<char>, j: usize) -> (r: bool)
    requires
        i <= p@.len(),
        j <= s@.len(),
    ensures
        r == glob_match(p@.subrange(i as int, p@.len() as int), s@.subrange(j as int, s@.len() as int)),
    decreases p@.len() - i + s@.len() - j,
{
    let ghost ps = p@.subrange(i as int, p@.len() as int);
    let ghost ss = s@.subrange(j as int, s@.len() as int);
    if i == p.len() {
        return j == s.len();
    }
    assert(ps.drop_first() =~= p@.subrange(i + 1, p@.len() as int));
    if j < s.len() {
        assert(ss.drop_first() =~= s@.subrange(j + 1, s@.len() as int));
    }
    if p[i] == '*' {
        if glob_from(p, i + 1, s, j) {
            return true;
        }
        if j < s.len() {
            return glob_from(p, i, s, j + 1);
        }
        return false;
    }
    if j == s.len() {
        return false;
    }
    if p[i] == '?' || p[i] == s[j] {
        return glob_from(p, i + 1, s, j + 1);
    }
    false
}

/// Whether `s` matches the glob pattern `pattern`.
pub fn glob_matches(pattern: &str, s: &str) -> (r: bool)
    ensures
        r == glob_match(pattern@, s@),
{
    let p = chars_of(pattern);
    let t = chars_of(s);
    assert(p@.subrange(0, p@.len() as int) =~= p@);
    assert(t@.subrange(0, t@.len() as int) =~= t@);
    glob_from(&p, 0, &t, 0)
}

/// Whether `n` can name an entry of a directory: not empty, no slash.
pub open spec fn valid_name(n: Seq<char>) -> bool {
    n.len() > 0 && !has_slash(n)
}

/// Whether `name` can name an entry of a directory.
pub fn is_valid_name(name: &str) -> (r: bool)
    ensures
        r == valid_name(name@),
{
    let c = chars_of(name);
    if c.len() == 0 {
        return false;
    }
    let r = !slash_between(&c, 0, c.len());
    assert(c@.subrange(0, c@.len() as int) =~= c@);
    r
}

/// Whether `t` occurs in `s` starting at `i`.
pub open spec fn occurs_at(s: Seq<char>, t: Seq<char>, i: int) -> bool {
    0 <= i && i + t.len() <= s.len() && s.subrange(i, i + t.len()) == t
}

/// Whether `t` occurs in `s`.
pub open spec fn occurs_in(s: Seq<char>, t: Seq<char>) -> bool {
    exists|i: int| occurs_at(s, t, i)
}

/// Whether `needle` occurs in `hay`.
pub fn path_contains(hay: &str, needle: &str) -> (r: bool)
    ensures
        r == occurs_in(hay@, needle@),
{
    let h = chars_of(hay);
    let t = chars_of(needle);
    let n = h.len();
    let m = t.len();
    if m > n {
        assert forall|i: int| !occurs_at(hay@, needle@, i) by {}
        return false;
    }
    let mut i: usize = 0;
    while i <= n - m
        invariant
            h@ == hay@,
            t@ == needle@,
            n == h@.len(),
            m == t@.len(),
            m <= n,
            i <= n - m + 1,
            forall|k: int| 0 <= k < i ==> !occurs_at(hay@, needle@, k),
        decreases n - m + 1 - i,
    {
        let mut j: usize = 0;
        while j < m && h[i + j] == t[j]
            invariant
                h@ == hay@,
                t@ == needle@,
                n == h@.len(),
                m == t@.len(),
                i + m <= n,
                j <= m,
                forall|k: int| 0 <= k < j ==> h@[i + k] == t@[k],
            decreases m - j,
        {
            j += 1;
        }
        if j == m {
            assert(hay@.subrange(i as int, i + m) =~= needle@);
            assert(occurs_at(hay@, needle@, i as int));
            return true;
        }
        assert(hay@.subrange(i as int, i + m)[j as int] != needle@[j as int]);
        i += 1;
    }
    assert forall|k: int| !occurs_at(hay@, needle@, k) by {
        if 0 <= k < i {
        }
    }
    false
}

/// Permission bits stored for a requested mode.
pub fn unmask_mode(mode: u32) -> (r: u32)
    ensures
        r == unmasked_mode(mode),
        r <= 0x1FF,
{
    let r = (mode | 0x80) & 0x1FF;
    assert(r <= 0x1FF) by (bit_vector)
        requires
            r == (mode | 0x80) & 0x1FF,
    ;
    r
}

} // verus!
