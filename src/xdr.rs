//! XDR encoding (RFC 1014) of the values that MOUNT replies carry, record
//! marking for RPC over TCP, and the RPC reply envelopes.
use vstd::prelude::*;

verus! {

/// The four big-endian bytes of `v`.
pub open spec fn be32(v: u32) -> Seq<u8> {
    seq![
        (v / 0x100_0000) as u8,
        ((v / 0x1_0000) % 0x100) as u8,
        ((v / 0x100) % 0x100) as u8,
        (v % 0x100) as u8,
    ]
}

/// The number that four big-endian bytes hold.
pub open spec fn be32_value(b: Seq<u8>) -> int {
    b[0] * 0x100_0000 + b[1] * 0x1_0000 + b[2] * 0x100 + b[3]
}

/// Zero bytes that bring a length `n` up to a multiple of four.
pub open spec fn padding(n: nat) -> Seq<u8> {
    Seq::new(((4 - n % 4) % 4) as nat, |i: int| 0u8)
}

/// A boolean: 1 or 0 as a 32-bit number.
pub open spec fn xdr_bool(b: bool) -> Seq<u8> {
    be32(
        if b {
            1
        } else {
            0
        },
    )
}

/// Variable-length opaque data: its length, its bytes, then padding.
pub open spec fn xdr_opaque(b: Seq<u8>) -> Seq<u8> {
    be32(b.len() as u32) + b + padding(b.len())
}

/// Appends `v` in four big-endian bytes.
pub fn put_u32(out: &mut Vec<u8>, v: u32)
    ensures
        final(out)@ == old(out)@ + be32(v),
{
    out.push((v / 0x100_0000) as u8);
    out.push(((v / 0x1_0000) % 0x100) as u8);
    out.push(((v / 0x100) % 0x100) as u8);
    out.push((v % 0x100) as u8);
    assert(out@ =~= old(out)@ + be32(v));
}

pub fn put_bool(out: &mut Vec<u8>, b: bool)
    ensures
        final(out)@ == old(out)@ + xdr_bool(b),
{
    put_u32(
        out,
        if b {
            1
        } else {
            0
        },
    );
}

/// Appends `b` as variable-length opaque data.
pub fn put_opaque(out: &mut Vec<u8>, b: &[u8])
    requires
        b@.len() <= u32::MAX,
    ensures
        final(out)@ == old(out)@ + xdr_opaque(b@),
{
    put_u32(out, b.len() as u32);
    let ghost mid = out@;
    let mut i: usize = 0;
    while i < b.len()
        invariant
            i <= b@.len(),
            out@ == mid + b@.subrange(0, i as int),
        decreases b@.len() - i,
    {
        out.push(b[i]);
        i += 1;
        assert(out@ =~= mid + b@.subrange(0, i as int));
    }
    let ghost body = out@;
    let pad = (4 - b.len() % 4) % 4;
    let mut k: usize = 0;
    while k < pad
        invariant
            k <= pad,
            pad == (4 - b@.len() % 4) % 4,
            out@ == body + Seq::new(k as nat, |j: int| 0u8),
        decreases pad - k,
    {
        out.push(0u8);
        k += 1;
        assert(out@ =~= body + Seq::new(k as nat, |j: int| 0u8));
    }
    assert(b@.subrange(0, b@.len() as int) =~= b@);
    assert(out@ =~= old(out)@ + xdr_opaque(b@));
}

/// The 32-bit number at `pos` of `input`, and the position after it.
pub fn get_u32(input: &[u8], pos: usize) -> (r: Option<(u32, usize)>)
    ensures
        match r {
            Some((v, next)) => {
                &&& pos + 4 <= input@.len()
                &&& v == be32_value(input@.subrange(pos as int, pos + 4))
                &&& next == pos + 4
            },
            None => pos + 4 > input@.len(),
        },
{
    if pos > input.len() || input.len() - pos < 4 {
        return None;
    }
    let v: u64 = input[pos] as u64 * 0x100_0000 + input[pos + 1] as u64 * 0x1_0000 + input[pos
        + 2] as u64 * 0x100 + input[pos + 3] as u64;
    Some((v as u32, pos + 4))
}

/// The variable-length opaque data at `pos` of `input`, where the input
/// holds all of it and its padding.
pub open spec fn opaque_at(input: Seq<u8>, pos: int) -> Option<Seq<u8>> {
    if pos + 4 > input.len() {
        None
    } else {
        let n = be32_value(input.subrange(pos, pos + 4));
        if pos + 4 + n + padding(n as nat).len() > input.len() {
            None
        } else {
            Some(input.subrange(pos + 4, pos + 4 + n))
        }
    }
}

/// The variable-length opaque data at `pos` of `input`, and the position
/// after its padding.
pub fn get_opaque(input: &[u8], pos: usize) -> (r: Option<(Vec<u8>, usize)>)
    ensures
        match r {
            Some((b, next)) => {
                &&& opaque_at(input@, pos as int) == Some(b@)
                &&& next == pos + 4 + b@.len() + padding(b@.len()).len()
            },
            None => opaque_at(input@, pos as int) is None,
        },
{
    let (len, start) = get_u32(input, pos)?;
    let n = len as usize;
    if start > input.len() || input.len() - start < n {
        return None;
    }
    let pad = (4 - n % 4) % 4;
    if input.len() - start - n < pad {
        return None;
    }
    let mut b: Vec<u8> = Vec::new();
    let mut i: usize = 0;
    while i < n
        invariant
            i <= n,
            start + n <= input@.len(),
            input@.len() <= usize::MAX,
            b@ == input@.subrange(start as int, start + i),
        decreases n - i,
    {
        b.push(input[start + i]);
        i += 1;
        assert(b@ =~= input@.subrange(start as int, start + i));
    }
    Some((b, start + n + pad))
}

/// The four bytes of `v` read back as `v`.
pub proof fn lemma_be32_round_trip(v: u32)
    ensures
        be32_value(be32(v)) == v,
{
    let a = v / 0x100_0000;
    let b = (v / 0x1_0000) % 0x100;
    let c = (v / 0x100) % 0x100;
    let d = v % 0x100;
    assert(v as int == a * 0x100_0000 + b * 0x1_0000 + c * 0x100 + d) by (nonlinear_arith)
        requires
            a == v / 0x100_0000,
            b == (v / 0x1_0000) % 0x100,
            c == (v / 0x100) % 0x100,
            d == v % 0x100,
    ;
    assert(a < 0x100) by (nonlinear_arith)
        requires
            a == v / 0x100_0000,
            v <= 0xffff_ffff,
    ;
}

/// Opaque data that `put_opaque` wrote reads back unchanged.
pub proof fn lemma_opaque_round_trip(b: Seq<u8>, rest: Seq<u8>)
    requires
        b.len() <= u32::MAX,
    ensures
        opaque_at(xdr_opaque(b) + rest, 0) == Some(b),
{
    let m = xdr_opaque(b) + rest;
    lemma_be32_round_trip(b.len() as u32);
    assert(m.subrange(0, 4) =~= be32(b.len() as u32));
    assert(m.subrange(4, 4 + b.len() as int) =~= b);
}

/// The header of the last fragment of a record that holds `len` bytes.
pub open spec fn last_fragment_header(len: u32) -> Seq<u8> {
    be32((len + 0x8000_0000) as u32)
}

/// `msg` as one record on a TCP stream: a single last fragment.
pub fn frame_record(msg: &[u8]) -> (r: Vec<u8>)
    requires
        msg@.len() < 0x8000_0000,
    ensures
        r@ == last_fragment_header(msg@.len() as u32) + msg@,
{
    let mut r: Vec<u8> = Vec::new();
    put_u32(&mut r, msg.len() as u32 + 0x8000_0000);
    let ghost head = r@;
    let mut i: usize = 0;
    while i < msg.len()
        invariant
            i <= msg@.len(),
            r@ == head + msg@.subrange(0, i as int),
        decreases msg@.len() - i,
    {
        r.push(msg[i]);
        i += 1;
        assert(r@ =~= head + msg@.subrange(0, i as int));
    }
    assert(msg@.subrange(0, msg@.len() as int) =~= msg@);
    r
}

/// A fragment header's two parts: whether the fragment is the record's
/// last, and its length.
pub fn parse_fragment_header(h: u32) -> (r: (bool, u32))
    ensures
        r.0 == (h >= 0x8000_0000),
        r.1 == h % 0x8000_0000,
{
    (h >= 0x8000_0000, h % 0x8000_0000)
}

/// The fixed part of an RPC call (RFC 5531): who calls what, and where
/// the procedure's arguments begin.
pub struct CallHeader {
    pub xid: u32,
    pub rpcvers: u32,
    pub prog: u32,
    pub vers: u32,
    pub proc_num: u32,
    pub args_offset: usize,
}

pub const CALL: u32 = 0;

/// Where the arguments of the call in `msg` begin, if `msg` holds a whole
/// call header.
pub open spec fn call_args_offset(msg: Seq<u8>) -> Option<int> {
    if msg.len() < 28 || be32_value(msg.subrange(4, 8)) != CALL {
        None
    } else {
        match opaque_at(msg, 28) {
            None => None,
            Some(cred) => {
                let p = 32int + cred.len() + padding(cred.len()).len();
                if p + 4 > msg.len() {
                    None
                } else {
                    match opaque_at(msg, p + 4) {
                        None => None,
                        Some(verf) => Some(p + 8int + verf.len() + padding(verf.len()).len()),
                    }
                }
            },
        }
    }
}

/// Reads the call header at the start of `msg`: transaction id, message
/// type (which must be a call), RPC version, program, version, procedure,
/// then the credential and the verifier, each a flavor and opaque data.
pub fn decode_call(msg: &[u8]) -> (r: Option<CallHeader>)
    ensures
        match r {
            Some(h) => {
                &&& 24 <= msg@.len()
                &&& h.xid == be32_value(msg@.subrange(0, 4))
                &&& be32_value(msg@.subrange(4, 8)) == CALL
                &&& h.rpcvers == be32_value(msg@.subrange(8, 12))
                &&& h.prog == be32_value(msg@.subrange(12, 16))
                &&& h.vers == be32_value(msg@.subrange(16, 20))
                &&& h.proc_num == be32_value(msg@.subrange(20, 24))
                &&& call_args_offset(msg@) == Some(h.args_offset as int)
            },
            None => call_args_offset(msg@) is None,
        },
{
    let (xid, p) = get_u32(msg, 0)?;
    let (mtype, p) = get_u32(msg, p)?;
    if mtype != CALL {
        return None;
    }
    let (rpcvers, p) = get_u32(msg, p)?;
    let (prog, p) = get_u32(msg, p)?;
    let (vers, p) = get_u32(msg, p)?;
    let (proc_num, p) = get_u32(msg, p)?;
    let (_cred_flavor, p) = get_u32(msg, p)?;
    let (_cred, p) = get_opaque(msg, p)?;
    let (_verf_flavor, p) = get_u32(msg, p)?;
    let (_verf, p) = get_opaque(msg, p)?;
    Some(CallHeader { xid, rpcvers, prog, vers, proc_num, args_offset: p })
}

pub const REPLY: u32 = 1;

pub const MSG_ACCEPTED: u32 = 0;

pub const AUTH_NULL: u32 = 0;

pub const AUTH_UNIX: u32 = 1;

pub const SUCCESS: u32 = 0;

pub const PROG_UNAVAIL: u32 = 1;

pub const PROC_UNAVAIL: u32 = 3;

pub const GARBAGE_ARGS: u32 = 4;

/// An accepted RPC reply to `xid` with status `stat` and an empty verifier.
pub open spec fn accepted_reply(xid: u32, stat: u32) -> Seq<u8> {
    be32(xid) + be32(REPLY) + be32(MSG_ACCEPTED) + be32(AUTH_NULL) + be32(0) + be32(stat)
}

/// Appends the accepted reply to `xid` with status `stat`.
pub fn put_accepted_reply(out: &mut Vec<u8>, xid: u32, stat: u32)
    ensures
        final(out)@ == old(out)@ + accepted_reply(xid, stat),
{
    put_u32(out, xid);
    put_u32(out, REPLY);
    put_u32(out, MSG_ACCEPTED);
    put_u32(out, AUTH_NULL);
    put_u32(out, 0);
    put_u32(out, stat);
    assert(out@ =~= old(out)@ + accepted_reply(xid, stat));
}

} // verus!
