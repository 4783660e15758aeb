//! The MOUNT program (RFC 1813, appendix I): the handlers of its
//! procedures, which decode their arguments and append their XDR replies.
use vstd::prelude::*;
use vstd::utf8::{decode_utf8, valid_utf8};

use crate::nfs::{fileid3, nfsstat3, KeyType, Timestamp};
use crate::vfs::{add_failure, initialized};
use crate::paths::{mount_user, mount_user_key};
use crate::sharesfs::SharesFS;
use crate::xdr::{
    accepted_reply,
    be32,
    get_opaque,
    opaque_at,
    put_accepted_reply,
    put_opaque,
    put_u32,
    xdr_opaque,
    AUTH_NULL,
    AUTH_UNIX,
    PROC_UNAVAIL,
    SUCCESS,
};

verus! {

broadcast use vstd::std_specs::hash::group_hash_axioms;

pub const MNT3_OK: u32 = 0;

pub const MNT3ERR_ACCES: u32 = 13;

/// The procedures of the MOUNT program.
#[allow(non_camel_case_types)]
#[derive(Clone, Copy, Debug, PartialEq, Eq, Structural)]
pub enum MountProgram {
    MOUNTPROC3_NULL,
    MOUNTPROC3_MNT,
    MOUNTPROC3_DUMP,
    MOUNTPROC3_UMNT,
    MOUNTPROC3_UMNTALL,
    MOUNTPROC3_EXPORT,
    INVALID,
}

pub open spec fn program_of(p: u32) -> MountProgram {
    if p == 0 {
        MountProgram::MOUNTPROC3_NULL
    } else if p == 1 {
        MountProgram::MOUNTPROC3_MNT
    } else if p == 2 {
        MountProgram::MOUNTPROC3_DUMP
    } else if p == 3 {
        MountProgram::MOUNTPROC3_UMNT
    } else if p == 4 {
        MountProgram::MOUNTPROC3_UMNTALL
    } else if p == 5 {
        MountProgram::MOUNTPROC3_EXPORT
    } else {
        MountProgram::INVALID
    }
}

/// The procedure that number `p` names.
pub fn mount_program(p: u32) -> (r: MountProgram)
    ensures
        r == program_of(p),
{
    if p == 0 {
        MountProgram::MOUNTPROC3_NULL
    } else if p == 1 {
        MountProgram::MOUNTPROC3_MNT
    } else if p == 2 {
        MountProgram::MOUNTPROC3_DUMP
    } else if p == 3 {
        MountProgram::MOUNTPROC3_UMNT
    } else if p == 4 {
        MountProgram::MOUNTPROC3_UMNTALL
    } else if p == 5 {
        MountProgram::MOUNTPROC3_EXPORT
    } else {
        MountProgram::INVALID
    }
}

/// Why a MOUNT procedure failed.
#[derive(Clone, Copy, Debug, PartialEq, Eq, Structural)]
pub enum MountError {
    /// The arguments did not decode.
    GarbageArgs,
    /// The mount path names no user.
    NoUserKey,
    /// The user key is not known.
    AccessDenied,
    /// The user's directory could not be made.
    InitFailed,
}

/// What a procedure call runs against: the filesystem, the connection's
/// ends, and whether someone listens for mount signals.
pub struct RPCContext {
    pub local_port: u16,
    pub client_addr: String,
    pub vfs: SharesFS,
    pub has_mount_signal: bool,
    /// Distinguishes the file handles of this server instance.
    pub generation: u64,
}

/// A successful MNT reply's body: the root's file handle and the
/// authentication flavors the server takes.
#[allow(non_camel_case_types)]
pub struct mountres3_ok {
    pub fhandle: Vec<u8>,
    pub auth_flavors: Vec<u32>,
}

/// A sequence of 32-bit numbers, each in four big-endian bytes.
pub open spec fn xdr_words(s: Seq<u32>) -> Seq<u8>
    decreases s.len(),
{
    if s.len() == 0 {
        Seq::empty()
    } else {
        xdr_words(s.drop_last()) + be32(s.last())
    }
}

impl mountres3_ok {
    /// Appends this reply body: the handle as opaque data, then the flavors
    /// as a counted array.
    pub fn serialize(&self, out: &mut Vec<u8>)
        requires
            self.fhandle@.len() <= u32::MAX,
            self.auth_flavors@.len() <= u32::MAX,
        ensures
            final(out)@ == old(out)@ + xdr_opaque(self.fhandle@) + be32(
                self.auth_flavors@.len() as u32,
            ) + xdr_words(self.auth_flavors@),
    {
        put_opaque(out, self.fhandle.as_slice());
        put_u32(out, self.auth_flavors.len() as u32);
        let ghost head = out@;
        let mut i: usize = 0;
        while i < self.auth_flavors.len()
            invariant
                i <= self.auth_flavors@.len(),
                out@ == head + xdr_words(self.auth_flavors@.subrange(0, i as int)),
            decreases self.auth_flavors@.len() - i,
        {
            put_u32(out, self.auth_flavors[i]);
            proof {
                assert(self.auth_flavors@.subrange(0, i + 1).drop_last() =~= self.auth_flavors@.subrange(
                    0,
                    i as int,
                ));
            }
            i += 1;
        }
        assert(self.auth_flavors@.subrange(0, self.auth_flavors@.len() as int) =~= self.auth_flavors@);
    }
}

/// The 16-byte file handle of `id`: the generation, then the id, each as two
/// big-endian 32-bit halves.
pub open spec fn file_handle(generation: u64, id: u64) -> Seq<u8> {
    be32((generation / 0x1_0000_0000) as u32) + be32((generation % 0x1_0000_0000) as u32) + be32(
        (id / 0x1_0000_0000) as u32,
    ) + be32((id % 0x1_0000_0000) as u32)
}

/// The file handle of `id`.
pub fn id_to_fh(generation: u64, id: fileid3) -> (r: Vec<u8>)
    ensures
        r@ == file_handle(generation, id),
        r@.len() == 16,
{
    let mut r: Vec<u8> = Vec::new();
    put_u32(&mut r, (generation / 0x1_0000_0000) as u32);
    put_u32(&mut r, (generation % 0x1_0000_0000) as u32);
    put_u32(&mut r, (id / 0x1_0000_0000) as u32);
    put_u32(&mut r, (id % 0x1_0000_0000) as u32);
    assert(r@ =~= file_handle(generation, id));
    r
}

/// Relies on `std::str::from_utf8`: valid UTF-8 gives its characters,
/// anything else an error, taken here as empty text.
#[verifier::external_body]
fn utf8_or_empty(b: &[u8]) -> (r: String)
    ensures
        valid_utf8(b@) ==> r@ == decode_utf8(b@),
        !valid_utf8(b@) ==> r@.len() == 0,
{
    match std::str::from_utf8(b) {
        Ok(s) => s.to_owned(),
        Err(_) => String::new(),
    }
}

/// The text of a mount path's bytes, empty where they are not UTF-8.
pub open spec fn path_text(b: Seq<u8>) -> Seq<char> {
    if valid_utf8(b) {
        decode_utf8(b)
    } else {
        Seq::empty()
    }
}

/// The directory that a user of class `kind` mounts: its own for a usual
/// user, the root for a special one.
pub open spec fn mount_point(kind: KeyType, key: Seq<char>) -> Option<Seq<char>> {
    match kind {
        KeyType::Usual => Some(seq!['/'] + key),
        KeyType::Special => Some(seq!['/']),
        KeyType::Unknown => None,
    }
}

/// The class of `key` among the users `fs` knows.
pub open spec fn key_class(fs: SharesFS, key: Seq<char>) -> KeyType {
    if fs.users@.contains_key(key) {
        fs.users@[key]
    } else {
        KeyType::Unknown
    }
}

/// The reply of a refused MNT.
pub open spec fn mnt_refusal(xid: u32) -> Seq<u8> {
    accepted_reply(xid, SUCCESS) + be32(MNT3ERR_ACCES)
}

/// The reply of a granted MNT of the node `id`.
pub open spec fn mnt_grant(xid: u32, generation: u64, id: u64) -> Seq<u8> {
    accepted_reply(xid, SUCCESS) + be32(MNT3_OK) + xdr_opaque(file_handle(generation, id)) + be32(2)
        + xdr_words(seq![AUTH_NULL, AUTH_UNIX])
}

/// The reply of an EXPORT: the one export `/`, open to every group.
pub open spec fn export_reply(xid: u32) -> Seq<u8> {
    accepted_reply(xid, SUCCESS) + be32(1) + xdr_opaque(seq!['/' as u8]) + be32(0) + be32(0)
}

impl SharesFS {
    /// The class of the user key `key`.
    pub fn authenticate_user(&self, key: &str) -> (r: KeyType)
        requires
            self.wf(),
        ensures
            r == key_class(*self, key@),
    {
        match self.users.get(key) {
            Some(k) => *k,
            None => KeyType::Unknown,
        }
    }

    /// Records `key` as a user key of class `kind`.
    pub fn register_user(&mut self, key: &str, kind: KeyType)
        requires
            old(self).wf(),
        ensures
            final(self).wf(),
            final(self).users@ == old(self).users@.insert(key@, kind),
            final(self).nodes == old(self).nodes,
            final(self).path_to_id == old(self).path_to_id,
            final(self).id_to_path == old(self).id_to_path,
            final(self).depth_index == old(self).depth_index,
            final(self).next_fileid == old(self).next_fileid,
    {
        self.users.insert(key.to_owned(), kind);
    }
}

/// NULL: an empty success reply.
pub fn mountproc3_null(xid: u32, output: &mut Vec<u8>)
    ensures
        final(output)@ == old(output)@ + accepted_reply(xid, SUCCESS),
{
    put_accepted_reply(output, xid, SUCCESS);
}

/// EXPORT: the single export `/` with no group restrictions.
pub fn mountproc3_export(xid: u32, output: &mut Vec<u8>)
    ensures
        final(output)@ == old(output)@ + export_reply(xid),
{
    put_accepted_reply(output, xid, SUCCESS);
    put_u32(output, 1);
    let root: Vec<u8> = vec!['/' as u8];
    put_opaque(output, root.as_slice());
    put_u32(output, 0);
    put_u32(output, 0);
    assert(root@ =~= seq!['/' as u8]);
    assert(output@ =~= old(output)@ + export_reply(xid));
}

/// What MNT of the call `xid` with arguments `input` does: `c0` and `out0`
/// before, `c1` and `out1` after, `r` returned.
pub open spec fn mnt_done(
    xid: u32,
    input: Seq<u8>,
    out0: Seq<u8>,
    out1: Seq<u8>,
    c0: RPCContext,
    c1: RPCContext,
    r: Result<Option<bool>, MountError>,
) -> bool {
    &&& c1.generation == c0.generation
    &&& c1.has_mount_signal == c0.has_mount_signal
    &&& r == Err::<Option<bool>, MountError>(MountError::GarbageArgs) ==> out1 == out0 && c1.vfs
        == c0.vfs
    &&& (r is Err && r != Err::<Option<bool>, MountError>(MountError::GarbageArgs)) ==> out1 == out0
        + mnt_refusal(xid)
    &&& r is Err ==> c1.vfs == c0.vfs
    &&& r is Ok ==> r == Ok::<Option<bool>, MountError>(
        if c0.has_mount_signal {
            Some(true)
        } else {
            None
        },
    )
    &&& match opaque_at(input, 0) {
        None => r == Err::<Option<bool>, MountError>(MountError::GarbageArgs),
        Some(path_bytes) => match mount_user(path_text(path_bytes)) {
            None => r == Err::<Option<bool>, MountError>(MountError::NoUserKey),
            Some(key) => match mount_point(key_class(c0.vfs, key), key) {
                None => r == Err::<Option<bool>, MountError>(MountError::AccessDenied),
                Some(p) => {
                    &&& r is Ok ==> {
                        &&& c1.vfs.ids().contains_key(p)
                        &&& initialized(c0.vfs, p, c1.vfs, Ok::<u64, nfsstat3>(c1.vfs.ids()[p]))
                        &&& out1 == out0 + mnt_grant(xid, c0.generation, c1.vfs.ids()[p])
                    }
                    &&& r is Err ==> r == Err::<Option<bool>, MountError>(MountError::InitFailed)
                        && add_failure(c0.vfs, p) is Some
                    &&& (c0.vfs.has_path(p) || add_failure(c0.vfs, p) is None) ==> r is Ok
                },
            },
        },
    }
}

/// What UMNT of the call `xid` with arguments `input` does.
pub open spec fn umnt_done(
    xid: u32,
    input: Seq<u8>,
    out0: Seq<u8>,
    out1: Seq<u8>,
    has_mount_signal: bool,
    r: Result<Option<bool>, MountError>,
) -> bool {
    &&& opaque_at(input, 0) is None ==> r == Err::<Option<bool>, MountError>(
        MountError::GarbageArgs,
    ) && out1 == out0
    &&& opaque_at(input, 0) is Some ==> out1 == out0 + accepted_reply(xid, SUCCESS) + be32(MNT3_OK)
        && r == Ok::<Option<bool>, MountError>(
        if has_mount_signal {
            Some(false)
        } else {
            None
        },
    )
}

/// MNT: reads the mount path from `input`, finds the user it names, and
/// grants the user's directory (made where it is missing) or the root for a
/// special user. Returns the mount signal to send, where someone listens.
pub fn mountproc3_mnt(
    xid: u32,
    input: &[u8],
    output: &mut Vec<u8>,
    context: &mut RPCContext,
    now: Timestamp,
) -> (r: Result<Option<bool>, MountError>)
    requires
        old(context).vfs.wf(),
    ensures
        final(context).vfs.wf(),
        mnt_done(xid, input@, old(output)@, final(output)@, *old(context), *final(context), r),
{
    let (path_bytes, _next) = match get_opaque(input, 0) {
        Some(x) => x,
        None => {
            return Err(MountError::GarbageArgs);
        },
    };
    let text = utf8_or_empty(path_bytes.as_slice());
    let key = match mount_user_key(text.as_str()) {
        Some(k) => k,
        None => {
            put_accepted_reply(output, xid, SUCCESS);
            put_u32(output, MNT3ERR_ACCES);
            assert(output@ =~= old(output)@ + mnt_refusal(xid));
            return Err(MountError::NoUserKey);
        },
    };
    let kind = context.vfs.authenticate_user(key.as_str());
    let path = match kind {
        KeyType::Usual => {
            proof {
                reveal_strlit("/");
            }
            let p = String::from_str("/").concat(key.as_str());
            assert(p@ =~= seq!['/'] + key@);
            p
        },
        KeyType::Special => {
            proof {
                reveal_strlit("/");
            }
            let p = String::from_str("/");
            assert(p@ =~= seq!['/']);
            p
        },
        KeyType::Unknown => {
            put_accepted_reply(output, xid, SUCCESS);
            put_u32(output, MNT3ERR_ACCES);
            assert(output@ =~= old(output)@ + mnt_refusal(xid));
            return Err(MountError::AccessDenied);
        },
    };
    let id = match context.vfs.init_user_directory(path.as_str(), now) {
        Ok(id) => id,
        Err(_) => {
            put_accepted_reply(output, xid, SUCCESS);
            put_u32(output, MNT3ERR_ACCES);
            assert(output@ =~= old(output)@ + mnt_refusal(xid));
            return Err(MountError::InitFailed);
        },
    };
    let response = mountres3_ok {
        fhandle: id_to_fh(context.generation, id),
        auth_flavors: vec![AUTH_NULL, AUTH_UNIX],
    };
    put_accepted_reply(output, xid, SUCCESS);
    put_u32(output, MNT3_OK);
    response.serialize(output);
    assert(response.auth_flavors@ =~= seq![AUTH_NULL, AUTH_UNIX]);
    assert(output@ =~= old(output)@ + mnt_grant(xid, context.generation, id));
    if context.has_mount_signal {
        Ok(Some(true))
    } else {
        Ok(None)
    }
}

/// UMNT: reads the mount path and acknowledges; the mount signal to send is
/// `false`, where someone listens.
pub fn mountproc3_umnt(xid: u32, input: &[u8], output: &mut Vec<u8>, context: &RPCContext) -> (r:
    Result<Option<bool>, MountError>)
    ensures
        umnt_done(xid, input@, old(output)@, final(output)@, context.has_mount_signal, r),
{
    match get_opaque(input, 0) {
        Some(_) => {},
        None => {
            return Err(MountError::GarbageArgs);
        },
    }
    put_accepted_reply(output, xid, SUCCESS);
    put_u32(output, MNT3_OK);
    if context.has_mount_signal {
        Ok(Some(false))
    } else {
        Ok(None)
    }
}

/// UMNTALL: acknowledges; the mount signal to send is `false`, where someone listens.
pub fn mountproc3_umnt_all(xid: u32, output: &mut Vec<u8>, context: &RPCContext) -> (r: Option<
    bool,
>)
    ensures
        final(output)@ == old(output)@ + accepted_reply(xid, SUCCESS) + be32(MNT3_OK),
        r == (if context.has_mount_signal {
            Some(false)
        } else {
            None
        }),
{
    put_accepted_reply(output, xid, SUCCESS);
    put_u32(output, MNT3_OK);
    if context.has_mount_signal {
        Some(false)
    } else {
        None
    }
}

/// Runs the MOUNT procedure `proc_num` of the call `xid`; an unknown
/// procedure gets a `PROC_UNAVAIL` reply. Returns the mount signal to send.
pub fn handle_mount(
    xid: u32,
    proc_num: u32,
    input: &[u8],
    output: &mut Vec<u8>,
    context: &mut RPCContext,
    now: Timestamp,
) -> (r: Result<Option<bool>, MountError>)
    requires
        old(context).vfs.wf(),
    ensures
        final(context).vfs.wf(),
        program_of(proc_num) == MountProgram::MOUNTPROC3_NULL ==> final(output)@ == old(output)@
            + accepted_reply(xid, SUCCESS) && r == Ok::<Option<bool>, MountError>(None),
        program_of(proc_num) == MountProgram::MOUNTPROC3_EXPORT ==> final(output)@ == old(output)@ + export_reply(xid) && r == Ok::<Option<bool>, MountError>(None),
        program_of(proc_num) == MountProgram::MOUNTPROC3_UMNTALL ==> final(output)@ == old(output)@ + accepted_reply(xid, SUCCESS) + be32(MNT3_OK),
        (program_of(proc_num) == MountProgram::MOUNTPROC3_DUMP || program_of(proc_num)
            == MountProgram::INVALID) ==> final(output)@ == old(output)@ + accepted_reply(
            xid,
            PROC_UNAVAIL,
        ) && r == Ok::<Option<bool>, MountError>(None),
        program_of(proc_num) == MountProgram::MOUNTPROC3_MNT ==> mnt_done(
            xid,
            input@,
            old(output)@,
            final(output)@,
            *old(context),
            *final(context),
            r,
        ),
        program_of(proc_num) == MountProgram::MOUNTPROC3_UMNT ==> umnt_done(
            xid,
            input@,
            old(output)@,
            final(output)@,
            old(context).has_mount_signal,
            r,
        ),
        program_of(proc_num) == MountProgram::MOUNTPROC3_UMNTALL ==> r == Ok::<
            Option<bool>,
            MountError,
        >(
            if old(context).has_mount_signal {
                Some(false)
            } else {
                None
            },
        ),
        program_of(proc_num) != MountProgram::MOUNTPROC3_MNT ==> final(context).vfs == old(context).vfs,
{
    match mount_program(proc_num) {
        MountProgram::MOUNTPROC3_NULL => {
            mountproc3_null(xid, output);
            Ok(None)
        },
        MountProgram::MOUNTPROC3_MNT => mountproc3_mnt(xid, input, output, context, now),
        MountProgram::MOUNTPROC3_UMNT => mountproc3_umnt(xid, input, output, context),
        MountProgram::MOUNTPROC3_UMNTALL => Ok(mountproc3_umnt_all(xid, output, context)),
        MountProgram::MOUNTPROC3_EXPORT => {
            mountproc3_export(xid, output);
            Ok(None)
        },
        _ => {
            put_accepted_reply(output, xid, PROC_UNAVAIL);
            Ok(None)
        },
    }
}

} // verus!
