use graymamba::codec::{decode, encode};
use graymamba::nfs::nfsstat3;

#[test]
fn encode_gives_standard_base64() {
    assert_eq!(encode(b"hello"), "aGVsbG8=");
    assert_eq!(encode(b""), "");
    assert_eq!(encode(&[0xff, 0x00, 0x10]), "/wAQ");
}

#[test]
fn decode_reverses_encode() {
    for sample in [&b""[..], b"a", b"ab", b"abc", b"hello world", &[0u8, 255, 7, 8, 9]] {
        assert_eq!(decode(&encode(sample)).unwrap(), sample.to_vec());
    }
}

#[test]
fn decode_rejects_bad_text() {
    assert_eq!(decode("not base64!"), Err(nfsstat3::NFS3ERR_IO));
}
