//! Properties of the filesystem that hold across operations.
use vstd::prelude::*;

use crate::channel_buffer::{flatten, placed, resized, ChannelBuffer};
use crate::file_io::read_slice;
use crate::nfs::nfsstat3;
use crate::paths::{join_path, path_depth, root_path};
use crate::rename::{rename_done, strictly_under, under};
use crate::sharesfs::SharesFS;
use crate::vfs::{dir_path, grew_by, initialized, lookup_result};

verus! {

broadcast use vstd::std_specs::hash::group_hash_axioms;

/// In every well-formed state the path-to-id and id-to-path maps are
/// inverse to each other over the live nodes; every operation that succeeds
/// leaves a well-formed state.
pub proof fn lemma_path_id_maps_inverse(fs: SharesFS)
    requires
        fs.wf(),
    ensures
        forall|p: Seq<char>| #[trigger]
            fs.ids().contains_key(p) ==> fs.has_id(fs.ids()[p]) && fs.path_of(fs.ids()[p]) == p,
        forall|id: u64| #[trigger]
            fs.has_id(id) ==> fs.ids().contains_key(fs.path_of(id)) && fs.ids()[fs.path_of(id)]
                == id,
{
}

/// Every live node is in the depth index with the depth score of its path.
pub proof fn lemma_depth_index_scores(fs: SharesFS, p: Seq<char>)
    requires
        fs.wf(),
        fs.has_path(p),
    ensures
        fs.depths().contains_key(p),
        fs.depths()[p] == path_depth(p),
{
}

/// No two live nodes share a file id.
pub proof fn lemma_fileids_unique(fs: SharesFS, p: Seq<char>, q: Seq<char>)
    requires
        fs.wf(),
        fs.has_path(p),
        fs.has_path(q),
        p != q,
    ensures
        fs.ids()[p] != fs.ids()[q],
{
}

/// A node added to a namespace gets an id above every id in use, and the
/// counter never goes back.
pub proof fn lemma_new_fileid_is_greatest(old: SharesFS, new: SharesFS, p: Seq<char>, id: u64)
    requires
        old.wf(),
        grew_by(old, new, p, id),
        p != root_path(),
    ensures
        forall|q: Seq<char>| #[trigger] old.ids().contains_key(q) ==> old.ids()[q] < id,
        new.next_fileid >= old.next_fileid,
{
}

/// Making a user's directory twice gives the same file id both times.
pub proof fn lemma_init_user_directory_idempotent(
    s0: SharesFS,
    s1: SharesFS,
    s2: SharesFS,
    p: Seq<char>,
    r1: Result<u64, nfsstat3>,
    r2: Result<u64, nfsstat3>,
)
    requires
        s0.wf(),
        initialized(s0, p, s1, r1),
        initialized(s1, p, s2, r2),
        r1 is Ok,
    ensures
        r2 == r1,
        s2 == s1,
{
}

proof fn lemma_resized_keeps(acc: Seq<u8>, len: int, from: int, to: int)
    requires
        0 <= from <= to <= acc.len(),
        to <= len,
    ensures
        resized(acc, len).len() == len,
        resized(acc, len).subrange(from, to) == acc.subrange(from, to),
{
    if len <= acc.len() {
        assert(resized(acc, len).subrange(from, to) =~= acc.subrange(from, to));
    } else {
        assert(resized(acc, len).subrange(from, to) =~= acc.subrange(from, to));
    }
}

/// Chunks placed after a range that ends by their offsets leave it alone.
proof fn lemma_flatten_keeps(v: Seq<(u64, Seq<u8>)>, i: int, off: int, data: Seq<u8>)
    requires
        0 <= i < v.len(),
        flatten(v.subrange(0, i + 1)).len() >= off + data.len(),
        flatten(v.subrange(0, i + 1)).subrange(off, off + data.len()) == data,
        0 <= off,
        forall|j: int| i < j < v.len() ==> #[trigger] v[j].0 >= off + data.len(),
    ensures
        flatten(v).len() >= off + data.len(),
        flatten(v).subrange(off, off + data.len()) == data,
    decreases v.len() - i,
{
    if i + 1 < v.len() {
        let w = v.subrange(0, i + 2);
        assert(w.drop_last() =~= v.subrange(0, i + 1));
        let acc = flatten(v.subrange(0, i + 1));
        lemma_resized_keeps(acc, v[i + 1].0 as int, off, off + data.len());
        assert(flatten(w) == placed(acc, w.last().0 as int, w.last().1));
        assert(flatten(w).subrange(off, off + data.len()) =~= resized(acc, v[i + 1].0 as int).subrange(
            off,
            off + data.len(),
        ));
        lemma_flatten_keeps(v, i + 1, off, data);
    } else {
        assert(v.subrange(0, i + 1) =~= v);
    }
}

/// Bytes written at `off` read back unchanged from the buffer's contents,
/// where no other chunk starts inside the range they cover.
proof fn lemma_written_bytes_read_back(buf: ChannelBuffer, off: u64, data: Seq<u8>)
    requires
        buf.wf(),
        buf.chunks().contains_key(off),
        buf.chunks()[off] == data,
        data.len() <= u32::MAX,
        forall|k: u64| #[trigger]
            buf.chunks().contains_key(k) && k > off ==> k >= off + data.len(),
    ensures
        read_slice(flatten(buf.view()), off, data.len() as u32).0 == data,
{
    let v = buf.view();
    let i = choose|i: int| 0 <= i < buf.buffer@.len() && buf.buffer@[i].0 == off;
    assert(v[i] == (off, data));
    let w = v.subrange(0, i + 1);
    assert(w.drop_last() =~= v.subrange(0, i));
    assert(w.last() == (off, data));
    let acc = flatten(v.subrange(0, i));
    assert(flatten(w) == placed(acc, off as int, data));
    assert(resized(acc, off as int).len() == off);
    assert(flatten(w).subrange(off as int, off + data.len()) =~= data);
    assert forall|j: int| i < j < v.len() implies #[trigger] v[j].0 >= off + data.len() by {
        assert(buf.buffer@[i].0 < buf.buffer@[j].0);
        assert(v[j].0 == buf.buffer@[j].0);
        assert(buf.model@.contains_key(buf.buffer@[j].0));
    }
    lemma_flatten_keeps(v, i, off as int, data);
    let c = flatten(v);
    if data.len() > 0 {
        assert(off < c.len());
        assert(c.subrange(off as int, off + data.len()) == data);
    } else {
        if off < c.len() {
            assert(c.subrange(off as int, off as int) =~= data);
        }
    }
}

/// What a write leaves in its buffer (`base` with `data` put at `off`)
/// reads back as `data` at `off`, where no chunk of `base` starts inside the
/// written range; a write to a file without a pending buffer has a `base`
/// whose only chunk sits at offset 0, so it always reads back.
pub proof fn lemma_write_then_read(
    buf: ChannelBuffer,
    base: Map<u64, Seq<u8>>,
    off: u64,
    data: Seq<u8>,
)
    requires
        buf.wf(),
        buf.chunks() == base.insert(off, data),
        data.len() <= u32::MAX,
        forall|k: u64| #[trigger] base.contains_key(k) && k > off ==> k >= off + data.len(),
    ensures
        read_slice(flatten(buf.view()), off, data.len() as u32).0 == data,
{
    assert forall|k: u64| #[trigger]
        buf.chunks().contains_key(k) && k > off implies k >= off + data.len() by {
        assert(base.contains_key(k));
    }
    lemma_written_bytes_read_back(buf, off, data);
}

proof fn lemma_join_strictly_under(p: Seq<char>, name: Seq<char>)
    requires
        p != root_path(),
    ensures
        strictly_under(join_path(p, name), p),
{
    assert(join_path(p, name).subrange(0, p.len() + 1int) =~= p + seq!['/']);
}

proof fn lemma_strictly_under_trans(x: Seq<char>, y: Seq<char>, z: Seq<char>)
    requires
        strictly_under(x, y),
        under(y, z),
    ensures
        strictly_under(x, z),
{
    if y != z {
        assert(x.subrange(0, z.len() + 1int) =~= x.subrange(0, y.len() + 1int).subrange(
            0,
            z.len() + 1int,
        ));
        assert(y.subrange(0, z.len() + 1int) =~= (y + seq!['/']).subrange(0, z.len() + 1int));
    }
}

/// The live directory `dirid` keeps its path through a rename that moves
/// neither it nor anything it lies in.
proof fn lemma_dir_kept(old: SharesFS, new: SharesFS, dirid: u64, from: Seq<char>, to: Seq<char>)
    requires
        old.wf(),
        dir_path(old, dirid) is Some,
        dirid != 0 ==> !under(old.path_of(dirid), from) && !under(old.path_of(dirid), to),
        forall|id: u64|
            old.has_id(id) && !under(old.path_of(id), from) && !under(old.path_of(id), to)
                ==> #[trigger] new.has_id(id) && new.path_of(id) == old.path_of(id),
    ensures
        dir_path(new, dirid) == dir_path(old, dirid),
{
    if dirid != 0 {
        assert(new.has_id(dirid));
    }
}

/// After a rename of `a` to `b`, looking `b` up gives the id `a` had, and
/// looking `a` up finds nothing.
pub proof fn lemma_rename_then_lookup(
    old: SharesFS,
    new: SharesFS,
    from_dirid: u64,
    from_name: Seq<char>,
    to_dirid: u64,
    to_name: Seq<char>,
    stamp: Seq<char>,
)
    requires
        old.wf(),
        rename_done(old, new, from_dirid, from_name, to_dirid, to_name, stamp),
        join_path(dir_path(old, from_dirid)->0, from_name) != join_path(
            dir_path(old, to_dirid)->0,
            to_name,
        ),
    ensures
        lookup_result(new, to_dirid, to_name) == Ok::<u64, nfsstat3>(
            old.ids()[join_path(dir_path(old, from_dirid)->0, from_name)],
        ),
        lookup_result(new, from_dirid, from_name) == Err::<u64, nfsstat3>(nfsstat3::NFS3ERR_NOENT),
{
    let fp = dir_path(old, from_dirid)->0;
    let tp = dir_path(old, to_dirid)->0;
    let from = join_path(fp, from_name);
    let to = join_path(tp, to_name);
    if to_dirid != 0 {
        assert(old.path_to_id@.contains_key(old.id_to_path@[to_dirid]@));
        assert(tp != root_path());
        lemma_join_strictly_under(tp, to_name);
        if under(tp, from) {
            lemma_strictly_under_trans(to, tp, from);
        }
        assert(!under(tp, to));
    }
    lemma_dir_kept(old, new, to_dirid, from, to);
    if from_dirid != 0 {
        assert(old.path_to_id@.contains_key(old.id_to_path@[from_dirid]@));
        assert(fp != root_path());
        lemma_join_strictly_under(fp, from_name);
        if under(fp, to) {
            lemma_strictly_under_trans(from, fp, to);
        }
        assert(!under(fp, from));
    }
    lemma_dir_kept(old, new, from_dirid, from, to);
}

} // verus!
