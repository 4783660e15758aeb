//! A user-space NFSv3 file server core: the namespace index, the virtual
//! filesystem over it, the per-file write coalescer, the data codec, the XDR
//! encoding of MOUNT replies and the audit events that mutations produce.
use vstd::prelude::*;

pub mod audit;
pub mod channel_buffer;
pub mod codec;
pub mod directories;
pub mod file_io;
pub mod laws;
pub mod mount;
pub mod nfs;
pub mod paths;
pub mod rename;
pub mod sharesfs;
pub mod str_table;
pub mod vfs;
pub mod xdr;
pub mod sorted_set;

verus! {

} // verus!
