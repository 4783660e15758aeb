//! The write coalescer's per-file buffer: chunks of bytes by offset, the
//! size they reach, when the last write came, and whether the writer is done.
use vstd::prelude::*;

use bytes::Bytes;

use crate::codec::MAX_FILE_SIZE;

verus! {

#[verifier::external_type_specification]
#[verifier::external_body]
pub struct ExBytes(Bytes);

/// The bytes a `Bytes` buffer holds.
pub uninterp spec fn bytes_content(b: Bytes) -> Seq<u8>;

/// Relies on `Bytes::copy_from_slice`: a new buffer holding a copy of `data`.
#[verifier::external_body]
fn bytes_from(data: &[u8]) -> (r: Bytes)
    ensures
        bytes_content(r) == data@,
{
    Bytes::copy_from_slice(data)
}

/// Relies on `Bytes`' `AsRef<[u8]>`: the bytes the buffer holds.
#[verifier::external_body]
fn bytes_slice(b: &Bytes) -> (r: &[u8])
    ensures
        r@ == bytes_content(*b),
{
    b.as_ref()
}

/// `acc` cut or zero-filled to `len` bytes.
pub open spec fn resized(acc: Seq<u8>, len: int) -> Seq<u8> {
    if len <= acc.len() {
        acc.subrange(0, len)
    } else {
        acc + Seq::new((len - acc.len()) as nat, |i: int| 0u8)
    }
}

/// `acc` with `d` laid over it at `off`: bytes before `off` are kept (or
/// zero-filled up to it), `d` replaces what it covers, and bytes past its end
/// are kept.
pub open spec fn placed(acc: Seq<u8>, off: int, d: Seq<u8>) -> Seq<u8> {
    resized(acc, off) + d + if off + d.len() < acc.len() {
        acc.subrange(off + d.len(), acc.len() as int)
    } else {
        Seq::empty()
    }
}

/// The contiguous contents of chunks in offset order: each chunk is laid
/// over what came before it at its offset, gaps zero-filled.
pub open spec fn flatten(s: Seq<(u64, Seq<u8>)>) -> Seq<u8>
    decreases s.len(),
{
    if s.len() == 0 {
        Seq::empty()
    } else {
        placed(flatten(s.drop_last()), s.last().0 as int, s.last().1)
    }
}

/// The bytes of the chain of chunks that starts exactly at `cur`, up to `end`.
pub open spec fn chained(chunks: Map<u64, Seq<u8>>, cur: u64, end: u64) -> Seq<u8>
    decreases end - cur,
{
    if cur < end && chunks.contains_key(cur) && chunks[cur].len() > 0 {
        let n = if chunks[cur].len() < end - cur {
            chunks[cur].len()
        } else {
            (end - cur) as nat
        };
        chunks[cur].subrange(0, n as int) + chained(chunks, (cur + n) as u64, end)
    } else {
        Seq::empty()
    }
}

/// Where a read of `count` bytes from `offset` stops in a buffer of `total` bytes.
pub open spec fn range_end(offset: u64, count: u64, total: u64) -> u64 {
    if offset + count > total {
        if offset <= total {
            total
        } else {
            offset
        }
    } else {
        (offset + count) as u64
    }
}

pub open spec fn chunk_view(e: (u64, Bytes)) -> (u64, Seq<u8>) {
    (e.0, bytes_content(e.1))
}

pub struct ChannelBuffer {
    /// Chunks by strictly increasing offset.
    pub buffer: Vec<(u64, Bytes)>,
    pub model: Ghost<Map<u64, Seq<u8>>>,
    pub total_size: u64,
    /// Milliseconds of the last write.
    pub last_write: u64,
    pub is_complete: bool,
}

impl ChannelBuffer {
    /// The chunks in offset order.
    pub open spec fn view(&self) -> Seq<(u64, Seq<u8>)> {
        self.buffer@.map_values(|e: (u64, Bytes)| chunk_view(e))
    }

    /// The chunk at each offset.
    pub open spec fn chunks(&self) -> Map<u64, Seq<u8>> {
        self.model@
    }

    pub open spec fn wf(&self) -> bool {
        &&& forall|i: int, j: int|
            0 <= i < j < self.buffer@.len() ==> self.buffer@[i].0 < self.buffer@[j].0
        &&& forall|i: int|
            0 <= i < self.buffer@.len() ==> #[trigger] self.model@.contains_key(self.buffer@[i].0)
                && self.model@[self.buffer@[i].0] == bytes_content(self.buffer@[i].1)
        &&& forall|k: u64| #[trigger]
            self.model@.contains_key(k) ==> exists|i: int|
                0 <= i < self.buffer@.len() && self.buffer@[i].0 == k
        &&& forall|k: u64| #[trigger]
            self.model@.contains_key(k) ==> k + self.model@[k].len() <= MAX_FILE_SIZE
        &&& self.total_size <= MAX_FILE_SIZE
    }

    /// An empty buffer, last written at `now`.
    pub fn new(now: u64) -> (r: Self)
        ensures
            r.wf(),
            r.chunks() == Map::<u64, Seq<u8>>::empty(),
            r.view().len() == 0,
            r.total_size == 0,
            r.last_write == now,
            !r.is_complete,
    {
        ChannelBuffer {
            buffer: Vec::new(),
            model: Ghost(Map::empty()),
            total_size: 0,
            last_write: now,
            is_complete: false,
        }
    }

    fn find(&self, offset: u64) -> (r: Option<usize>)
        requires
            self.wf(),
        ensures
            r.is_some() == self.chunks().contains_key(offset),
            r matches Some(i) ==> i < self.buffer@.len() && self.buffer@[i as int].0 == offset,
    {
        let mut i: usize = 0;
        while i < self.buffer.len()
            invariant
                self.wf(),
                i <= self.buffer@.len(),
                forall|k: int| 0 <= k < i ==> self.buffer@[k].0 != offset,
            decreases self.buffer@.len() - i,
        {
            if self.buffer[i].0 == offset {
                return Some(i);
            }
            i += 1;
        }
        None
    }

    /// Stores `data` at `offset`, replacing a chunk at that same offset.
    pub fn write(&mut self, offset: u64, data: &[u8], now: u64)
        requires
            old(self).wf(),
            offset + data@.len() <= MAX_FILE_SIZE,
        ensures
            final(self).wf(),
            final(self).chunks() == old(self).chunks().insert(offset, data@),
            final(self).total_size == (if offset + data@.len() > old(self).total_size {
                (offset + data@.len()) as u64
            } else {
                old(self).total_size
            }),
            final(self).last_write == now,
            final(self).is_complete == old(self).is_complete,
    {
        let chunk = bytes_from(data);
        let ghost k = offset;
        let ghost old_buf = self.buffer@;
        let ghost old_model = self.model@;
        match self.find(offset) {
            Some(i) => {
                self.buffer.set(i, (offset, chunk));
                self.model = Ghost(self.model@.insert(k, data@));
                assert forall|j: int| 0 <= j < self.buffer@.len() implies #[trigger]
                    self.model@.contains_key(self.buffer@[j].0) && self.model@[self.buffer@[j].0]
                    == bytes_content(self.buffer@[j].1) by {
                    if j != i {
                        assert(old_model.contains_key(old_buf[j].0));
                    }
                }
                assert forall|kk: u64| #[trigger] self.model@.contains_key(kk) implies exists|j: int|
                    0 <= j < self.buffer@.len() && self.buffer@[j].0 == kk by {
                    if kk != k {
                        let j = choose|j: int| 0 <= j < old_buf.len() && old_buf[j].0 == kk;
                        assert(self.buffer@[j].0 == kk);
                    } else {
                        assert(self.buffer@[i as int].0 == kk);
                    }
                }
                assert forall|a: int, b: int|
                    0 <= a < b < self.buffer@.len() implies self.buffer@[a].0
                    < self.buffer@[b].0 by {
                    assert(self.buffer@[a].0 == old_buf[a].0);
                    assert(self.buffer@[b].0 == old_buf[b].0);
                }
            },
            None => {
                let mut p: usize = 0;
                while p < self.buffer.len() && self.buffer[p].0 < offset
                    invariant
                        self.wf(),
                        self.buffer@ == old_buf,
                        self.model@ == old_model,
                        !old_model.contains_key(k),
                        p <= old_buf.len(),
                        forall|j: int| 0 <= j < p ==> old_buf[j].0 < offset,
                    decreases old_buf.len() - p,
                {
                    p += 1;
                }
                if p < self.buffer.len() {
                    assert(old_model.contains_key(old_buf[p as int].0));
                    assert(old_buf[p as int].0 > offset);
                }
                self.buffer.insert(p, (offset, chunk));
                self.model = Ghost(self.model@.insert(k, data@));
                assert forall|j: int| 0 <= j < self.buffer@.len() implies #[trigger]
                    self.model@.contains_key(self.buffer@[j].0) && self.model@[self.buffer@[j].0]
                    == bytes_content(self.buffer@[j].1) by {
                    if j < p {
                        assert(self.buffer@[j] == old_buf[j]);
                        assert(old_model.contains_key(old_buf[j].0));
                    } else if j > p {
                        assert(self.buffer@[j] == old_buf[j - 1]);
                        assert(old_model.contains_key(old_buf[j - 1].0));
                    }
                }
                assert forall|kk: u64| #[trigger] self.model@.contains_key(kk) implies exists|j: int|
                    0 <= j < self.buffer@.len() && self.buffer@[j].0 == kk by {
                    if kk == k {
                        assert(self.buffer@[p as int].0 == kk);
                    } else {
                        let j = choose|j: int| 0 <= j < old_buf.len() && old_buf[j].0 == kk;
                        if j < p {
                            assert(self.buffer@[j] == old_buf[j]);
                        } else {
                            assert(self.buffer@[j + 1] == old_buf[j]);
                        }
                    }
                }
                assert forall|a: int, b: int|
                    0 <= a < b < self.buffer@.len() implies self.buffer@[a].0
                    < self.buffer@[b].0 by {
                    if a < p {
                        assert(self.buffer@[a] == old_buf[a]);
                    } else if a > p {
                        assert(self.buffer@[a] == old_buf[a - 1]);
                    }
                    if b < p {
                        assert(self.buffer@[b] == old_buf[b]);
                    } else if b > p {
                        assert(self.buffer@[b] == old_buf[b - 1]);
                        if p < old_buf.len() {
                            assert(old_buf[p as int].0 > offset);
                        }
                    }
                }
            },
        }
        assert forall|kk: u64| #[trigger]
            self.model@.contains_key(kk) implies kk + self.model@[kk].len() <= MAX_FILE_SIZE by {
            if kk != k {
                assert(old_model.contains_key(kk));
            }
        }
        let end = offset + data.len() as u64;
        if end > self.total_size {
            self.total_size = end;
        }
        self.last_write = now;
        assert(self.total_size <= MAX_FILE_SIZE);
        assert(forall|i: int, j: int|
            0 <= i < j < self.buffer@.len() ==> self.buffer@[i].0 < self.buffer@[j].0);
    }

    /// The bytes of the chain of chunks from `offset`, at most `count` of
    /// them and none at or past the total size; the chain stops where no
    /// chunk starts exactly where the last one ended.
    pub fn read_range(&self, offset: u64, count: u32) -> (r: Vec<u8>)
        requires
            self.wf(),
        ensures
            r@ == chained(self.chunks(), offset, range_end(offset, count as u64, self.total_size)),
    {
        let end: u64 = if count as u64 > self.total_size || offset > self.total_size - count as u64 {
            if offset <= self.total_size {
                self.total_size
            } else {
                offset
            }
        } else {
            offset + count as u64
        };
        let mut result: Vec<u8> = Vec::new();
        let mut cur = offset;
        while cur < end
            invariant
                self.wf(),
                offset <= cur,
                result@ + chained(self.chunks(), cur, end) == chained(self.chunks(), offset, end),
            ensures
                result@ == chained(self.chunks(), offset, end),
            decreases end - cur,
        {
            match self.find(cur) {
                Some(i) => {
                    let bytes = bytes_slice(&self.buffer[i].1);
                    let avail = bytes.len() as u64;
                    if avail == 0 {
                        assert(chained(self.chunks(), cur, end) =~= Seq::<u8>::empty());
                        assert(result@ =~= result@ + Seq::<u8>::empty());
                        break;
                    }
                    let take: u64 = if avail < end - cur {
                        avail
                    } else {
                        end - cur
                    };
                    let ghost before = result@;
                    let mut j: usize = 0;
                    while j < take as usize
                        invariant
                            j <= take <= bytes@.len(),
                            result@ == before + bytes@.subrange(0, j as int),
                        decreases take - j,
                    {
                        result.push(bytes[j]);
                        j += 1;
                        assert(result@ =~= before + bytes@.subrange(0, j as int));
                    }
                    assert(bytes@ == self.chunks()[cur]);
                    assert(result@ + chained(self.chunks(), (cur + take) as u64, end) =~= before
                        + chained(self.chunks(), cur, end));
                    cur = cur + take;
                    if cur >= end {
                        assert(chained(self.chunks(), cur, end) =~= Seq::<u8>::empty());
                        assert(result@ =~= result@ + Seq::<u8>::empty());
                    }
                },
                None => {
                    assert(chained(self.chunks(), cur, end) =~= Seq::<u8>::empty());
                    assert(result@ =~= result@ + Seq::<u8>::empty());
                    break;
                },
            }
        }
        result
    }

    /// All chunks laid out contiguously, gaps zero-filled.
    pub fn read_all(&self) -> (r: Vec<u8>)
        requires
            self.wf(),
        ensures
            r@ == flatten(self.view()),
            r@.len() <= MAX_FILE_SIZE,
    {
        let mut result: Vec<u8> = Vec::new();
        let mut i: usize = 0;
        while i < self.buffer.len()
            invariant
                self.wf(),
                i <= self.buffer@.len(),
                result@ == flatten(self.view().subrange(0, i as int)),
                result@.len() <= MAX_FILE_SIZE,
            decreases self.buffer@.len() - i,
        {
            let offset = self.buffer[i].0;
            let chunk = bytes_slice(&self.buffer[i].1);
            proof {
                assert(self.view().subrange(0, i + 1).drop_last() =~= self.view().subrange(
                    0,
                    i as int,
                ));
                assert(self.view()[i as int] == chunk_view(self.buffer@[i as int]));
                assert(self.model@.contains_key(self.buffer@[i as int].0));
            }
            let ghost before = result@;
            let prev_len = result.len() as u64;
            let clen = chunk.len() as u64;
            // the bytes past the chunk's end, which it leaves in place
            let mut tail: Vec<u8> = Vec::new();
            if offset + clen < prev_len {
                let mut t: usize = (offset + clen) as usize;
                while t < result.len()
                    invariant
                        (offset + clen) <= t <= result@.len(),
                        result@ == before,
                        tail@ == before.subrange((offset + clen) as int, t as int),
                    decreases result@.len() - t,
                {
                    tail.push(result[t]);
                    t += 1;
                    assert(tail@ =~= before.subrange((offset + clen) as int, t as int));
                }
            }
            assert(tail@ =~= (if offset + clen < before.len() {
                before.subrange(offset + clen, before.len() as int)
            } else {
                Seq::<u8>::empty()
            }));
            if offset < result.len() as u64 {
                result.truncate(offset as usize);
            } else {
                while (result.len() as u64) < offset
                    invariant
                        before.len() <= result@.len() <= offset,
                        result@ == before + Seq::new(
                            (result@.len() - before.len()) as nat,
                            |k: int| 0u8,
                        ),
                    decreases offset - result@.len(),
                {
                    result.push(0u8);
                    assert(result@ =~= before + Seq::new(
                        (result@.len() - before.len()) as nat,
                        |k: int| 0u8,
                    ));
                }
            }
            assert(result@ =~= resized(before, offset as int));
            result.extend_from_slice(chunk);
            result.append(&mut tail);
            assert(result@ =~= placed(before, offset as int, chunk@));
            i += 1;
        }
        assert(self.view().subrange(0, self.buffer@.len() as int) =~= self.view());
        result
    }

    pub fn total_size(&self) -> (r: u64)
        ensures
            r == self.total_size,
    {
        self.total_size
    }

    pub fn is_write_complete(&self) -> (r: bool)
        ensures
            r == self.is_complete,
    {
        self.is_complete
    }

    pub fn set_complete(&mut self)
        requires
            old(self).wf(),
        ensures
            final(self).wf(),
            final(self).is_complete,
            final(self).buffer == old(self).buffer,
            final(self).model == old(self).model,
            final(self).total_size == old(self).total_size,
            final(self).last_write == old(self).last_write,
    {
        self.is_complete = true;
        assert(self.model@ == old(self).model@);
        assert(self.buffer@ == old(self).buffer@);
    }

    /// Milliseconds from the last write to `now` (0 where `now` is earlier).
    pub fn time_since_last_write(&self, now: u64) -> (r: u64)
        ensures
            r == (if now >= self.last_write {
                (now - self.last_write) as u64
            } else {
                0
            }),
    {
        if now >= self.last_write {
            now - self.last_write
        } else {
            0
        }
    }

    /// Drops every chunk; the total size stays.
    pub fn clear(&mut self)
        requires
            old(self).wf(),
        ensures
            final(self).wf(),
            final(self).chunks() == Map::<u64, Seq<u8>>::empty(),
            final(self).view().len() == 0,
            final(self).total_size == old(self).total_size,
            final(self).last_write == old(self).last_write,
            final(self).is_complete == old(self).is_complete,
    {
        self.buffer.clear();
        self.model = Ghost(Map::empty());
    }

    pub fn is_empty(&self) -> (r: bool)
        requires
            self.wf(),
        ensures
            r == (self.chunks() == Map::<u64, Seq<u8>>::empty()),
            r == (self.view().len() == 0),
    {
        proof {
            if self.buffer@.len() > 0 {
                assert(self.model@.contains_key(self.buffer@[0].0));
                assert(!Map::<u64, Seq<u8>>::empty().contains_key(self.buffer@[0].0));
            } else {
                assert(self.model@ =~= Map::<u64, Seq<u8>>::empty());
            }
        }
        self.buffer.len() == 0
    }
}

/// A buffer in the coalescer's table, with the time of its last activity.
pub struct ActiveWrite {
    pub channel: ChannelBuffer,
    pub last_activity: u64,
}

impl ActiveWrite {
    pub fn new(channel: ChannelBuffer, now: u64) -> (r: Self)
        ensures
            r.channel == channel,
            r.last_activity == now,
    {
        ActiveWrite { channel, last_activity: now }
    }
}

} // verus!
