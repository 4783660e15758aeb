//! The data codec: a file's bytes are stored as their standard base64 text.
use vstd::prelude::*;

use base64::Engine;

use crate::nfs::nfsstat3;

verus! {

/// Largest file, in bytes, that the codec takes.
pub const MAX_FILE_SIZE: u64 = 0x100_0000_0000;

/// The standard base64 text (with padding) of `b`.
pub uninterp spec fn base64_of(b: Seq<u8>) -> Seq<char>;

/// Relies on base64's `STANDARD.encode`: the padded standard base64 text of
/// the input, four characters for every three bytes begun. It panics only
/// where the output length overflows `usize`.
#[verifier::external_body]
fn base64_encode(b: &[u8]) -> (r: String)
    requires
        b@.len() <= MAX_FILE_SIZE,
    ensures
        r@ == base64_of(b@),
        r@.len() == 4 * ((b@.len() + 2) / 3),
{
    base64::engine::general_purpose::STANDARD.encode(b)
}

/// Relies on base64's `STANDARD.decode`: text that `STANDARD.encode` made
/// decodes to the bytes it was made from.
#[verifier::external_body]
fn base64_decode(s: &str) -> (r: Option<Vec<u8>>)
    ensures
        forall|x: Seq<u8>| #[trigger] base64_of(x) == s@ ==> r is Some && r->Some_0@ == x,
{
    base64::engine::general_purpose::STANDARD.decode(s).ok()
}

/// What `decode` returns on `s`, where `s` is the encoding of some bytes.
pub open spec fn decodes_to(s: Seq<char>, r: Result<Vec<u8>, nfsstat3>) -> bool {
    forall|x: Seq<u8>| #[trigger] base64_of(x) == s ==> (r matches Ok(v) && v@ == x)
}

/// The stored form of `data`.
pub fn encode(data: &[u8]) -> (r: String)
    requires
        data@.len() <= MAX_FILE_SIZE,
    ensures
        r@ == base64_of(data@),
        r@.len() == 4 * ((data@.len() + 2) / 3),
{
    base64_encode(data)
}

/// The bytes whose stored form is `s`; `NFS3ERR_IO` where `s` is no such form.
pub fn decode(s: &str) -> (r: Result<Vec<u8>, nfsstat3>)
    ensures
        decodes_to(s@, r),
        r matches Err(e) ==> e == nfsstat3::NFS3ERR_IO,
{
    match base64_decode(s) {
        Some(v) => Ok(v),
        None => Err(nfsstat3::NFS3ERR_IO),
    }
}

/// Decoding the stored form of `x` gives back `x`, for every `x` the codec takes.
pub proof fn lemma_codec_round_trip(x: Seq<u8>, stored: Seq<char>, r: Result<Vec<u8>, nfsstat3>)
    requires
        x.len() <= MAX_FILE_SIZE,
        stored == base64_of(x),
        decodes_to(stored, r),
    ensures
        r matches Ok(v) && v@ == x,
{
}

} // verus!
