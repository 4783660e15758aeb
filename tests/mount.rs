use graymamba::mount::{
    handle_mount, id_to_fh, mount_program, mountproc3_export, mountproc3_mnt, mountproc3_null,
    mountproc3_umnt, mountproc3_umnt_all, MountError, MountProgram, RPCContext,
};
use graymamba::nfs::{KeyType, Timestamp};
use graymamba::sharesfs::SharesFS;
use graymamba::xdr::put_opaque;

fn now() -> Timestamp {
    Timestamp { secs: 1700000000, nsecs: 0 }
}

fn context(signal: bool) -> RPCContext {
    let mut vfs = SharesFS::new("citrus", "orangery");
    vfs.init_user_directory("/", now()).unwrap();
    vfs.register_user("alice", KeyType::Usual);
    vfs.register_user("root", KeyType::Special);
    RPCContext {
        local_port: 2049,
        client_addr: "127.0.0.1:700".to_string(),
        vfs,
        has_mount_signal: signal,
        generation: 0x0102030405060708,
    }
}

fn success_header(xid: u32) -> Vec<u8> {
    let mut v = xid.to_be_bytes().to_vec();
    v.extend_from_slice(&[0, 0, 0, 1, 0, 0, 0, 0, 0, 0, 0, 0, 0, 0, 0, 0, 0, 0, 0, 0]);
    v
}

fn mount_args(path: &str) -> Vec<u8> {
    let mut input = Vec::new();
    put_opaque(&mut input, path.as_bytes());
    input
}

#[test]
fn null_replies_success() {
    let mut out = Vec::new();
    mountproc3_null(7, &mut out);
    assert_eq!(out, vec![0, 0, 0, 7, 0, 0, 0, 1, 0, 0, 0, 0, 0, 0, 0, 0, 0, 0, 0, 0, 0, 0, 0, 0]);
}

#[test]
fn export_lists_the_root() {
    let mut out = Vec::new();
    mountproc3_export(9, &mut out);
    let mut expected = success_header(9);
    expected.extend_from_slice(&[0, 0, 0, 1, 0, 0, 0, 1, b'/', 0, 0, 0, 0, 0, 0, 0, 0, 0, 0, 0]);
    assert_eq!(out, expected);
}

#[test]
fn mnt_grants_a_known_user_its_directory() {
    let mut ctx = context(true);
    let mut out = Vec::new();
    let signal = mountproc3_mnt(3, &mount_args("/alice's drive"), &mut out, &mut ctx, now()).unwrap();
    assert_eq!(signal, Some(true));
    let id = ctx.vfs.get_id_from_path("/alice").unwrap();
    let mut expected = success_header(3);
    expected.extend_from_slice(&[0, 0, 0, 0, 0, 0, 0, 16]);
    expected.extend_from_slice(&id_to_fh(ctx.generation, id));
    expected.extend_from_slice(&[0, 0, 0, 2, 0, 0, 0, 0, 0, 0, 0, 1]);
    assert_eq!(out, expected);
    // a second mount finds the same directory
    let mut again = Vec::new();
    mountproc3_mnt(4, &mount_args("/alice's drive"), &mut again, &mut ctx, now()).unwrap();
    assert_eq!(ctx.vfs.get_id_from_path("/alice").unwrap(), id);
}

#[test]
fn mnt_gives_a_special_user_the_root() {
    let mut ctx = context(false);
    let mut out = Vec::new();
    let signal = mountproc3_mnt(5, &mount_args("/srv/root's drive"), &mut out, &mut ctx, now()).unwrap();
    assert_eq!(signal, None);
    assert_eq!(&out[28..32], &[0, 0, 0, 16]);
    assert_eq!(&out[32..48], id_to_fh(ctx.generation, 0).as_slice());
}

#[test]
fn mnt_refuses_unknown_or_missing_users() {
    let mut ctx = context(true);
    let mut out = Vec::new();
    let r = mountproc3_mnt(6, &mount_args("/mallory's drive"), &mut out, &mut ctx, now());
    assert_eq!(r, Err(MountError::AccessDenied));
    let mut expected = success_header(6);
    expected.extend_from_slice(&[0, 0, 0, 13]);
    assert_eq!(out, expected);
    let mut out2 = Vec::new();
    let r = mountproc3_mnt(6, &mount_args("/plain/path"), &mut out2, &mut ctx, now());
    assert_eq!(r, Err(MountError::NoUserKey));
    assert_eq!(out2, expected);
    let mut out3 = Vec::new();
    let r = mountproc3_mnt(6, &[0, 0], &mut out3, &mut ctx, now());
    assert_eq!(r, Err(MountError::GarbageArgs));
    assert!(out3.is_empty());
}

#[test]
fn umnt_acknowledges() {
    let ctx = context(true);
    let mut out = Vec::new();
    assert_eq!(mountproc3_umnt(8, &mount_args("/alice"), &mut out, &ctx), Ok(Some(false)));
    let mut expected = success_header(8);
    expected.extend_from_slice(&[0, 0, 0, 0]);
    assert_eq!(out, expected);
    let mut out2 = Vec::new();
    assert_eq!(mountproc3_umnt_all(8, &mut out2, &ctx), Some(false));
    assert_eq!(out2, expected);
}

#[test]
fn dispatch_routes_by_procedure() {
    let mut ctx = context(false);
    assert_eq!(mount_program(1), MountProgram::MOUNTPROC3_MNT);
    assert_eq!(mount_program(17), MountProgram::INVALID);
    let mut out = Vec::new();
    handle_mount(1, 0, &[], &mut out, &mut ctx, now()).unwrap();
    assert_eq!(out, success_header(1));
    let mut out = Vec::new();
    handle_mount(2, 2, &[], &mut out, &mut ctx, now()).unwrap();
    let mut unavailable = 2u32.to_be_bytes().to_vec();
    unavailable.extend_from_slice(&[0, 0, 0, 1, 0, 0, 0, 0, 0, 0, 0, 0, 0, 0, 0, 0, 0, 0, 0, 3]);
    assert_eq!(out, unavailable);
    let mut out = Vec::new();
    handle_mount(3, 9, &[], &mut out, &mut ctx, now()).unwrap();
    assert_eq!(&out[20..24], &[0, 0, 0, 3]);
}

#[test]
fn file_handles_hold_generation_and_id() {
    assert_eq!(
        id_to_fh(0x0102030405060708, 0x1112131415161718),
        vec![1, 2, 3, 4, 5, 6, 7, 8, 0x11, 0x12, 0x13, 0x14, 0x15, 0x16, 0x17, 0x18]
    );
}
