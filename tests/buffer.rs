use graymamba::channel_buffer::ChannelBuffer;
use graymamba::xdr::{decode_call, frame_record, get_opaque, get_u32, parse_fragment_header, put_bool, put_opaque};

#[test]
fn read_all_fills_gaps_with_zeros() {
    let mut b = ChannelBuffer::new(0);
    b.write(4, b"cd", 1);
    b.write(0, b"ab", 2);
    assert_eq!(b.read_all(), vec![b'a', b'b', 0, 0, b'c', b'd']);
    assert_eq!(b.total_size(), 6);
    assert_eq!(b.time_since_last_write(10), 8);
    assert_eq!(b.time_since_last_write(1), 0);
}

#[test]
fn a_later_chunk_is_laid_over_an_earlier_one() {
    let mut b = ChannelBuffer::new(0);
    b.write(0, b"hello world", 1);
    b.write(5, b"XX", 2);
    assert_eq!(b.read_all(), b"helloXXorld".to_vec());
    assert_eq!(b.total_size(), 11);
}

#[test]
fn an_empty_write_cuts_nothing() {
    let mut b = ChannelBuffer::new(0);
    b.write(0, b"abcdef", 1);
    b.write(3, b"", 2);
    assert_eq!(b.read_all(), b"abcdef".to_vec());
    assert_eq!(b.total_size(), 6);
}

#[test]
fn read_range_follows_the_chain() {
    let mut b = ChannelBuffer::new(0);
    b.write(0, b"ab", 1);
    b.write(2, b"cd", 1);
    b.write(9, b"zz", 1);
    assert_eq!(b.read_range(0, 10), b"abcd".to_vec());
    assert_eq!(b.read_range(1, 3), Vec::<u8>::new());
    assert_eq!(b.read_range(2, 1), b"c".to_vec());
    assert!(!b.is_write_complete());
    b.set_complete();
    assert!(b.is_write_complete());
    assert!(!b.is_empty());
    b.clear();
    assert!(b.is_empty());
    assert_eq!(b.total_size(), 11);
}

#[test]
fn xdr_values() {
    let mut out = Vec::new();
    put_bool(&mut out, true);
    put_opaque(&mut out, b"abcde");
    assert_eq!(out, vec![0, 0, 0, 1, 0, 0, 0, 5, b'a', b'b', b'c', b'd', b'e', 0, 0, 0]);
    assert_eq!(get_u32(&out, 0), Some((1, 4)));
    assert_eq!(get_opaque(&out, 4), Some((b"abcde".to_vec(), 16)));
    assert_eq!(get_opaque(&out, 5), None);
    assert_eq!(get_u32(&out, 14), None);
}

#[test]
fn record_marking() {
    assert_eq!(frame_record(&[1, 2, 3]), vec![0x80, 0, 0, 3, 1, 2, 3]);
    assert_eq!(parse_fragment_header(0x8000_0010), (true, 16));
    assert_eq!(parse_fragment_header(0x10), (false, 16));
}

#[test]
fn call_headers_decode() {
    let mut msg = Vec::new();
    for w in [0x11u32, 0, 2, 100005, 3, 1, 1] {
        msg.extend_from_slice(&w.to_be_bytes());
    }
    // credential body of 5 bytes, padded
    msg.extend_from_slice(&[0, 0, 0, 5, 1, 2, 3, 4, 5, 0, 0, 0]);
    // empty verifier
    msg.extend_from_slice(&[0, 0, 0, 0, 0, 0, 0, 0]);
    msg.extend_from_slice(&[9, 9]);
    let h = decode_call(&msg).unwrap();
    assert_eq!((h.xid, h.rpcvers, h.prog, h.vers, h.proc_num), (0x11, 2, 100005, 3, 1));
    assert_eq!(h.args_offset, 48);
    // a reply is no call
    let mut reply = msg.clone();
    reply[7] = 1;
    assert!(decode_call(&reply).is_none());
    assert!(decode_call(&msg[..30]).is_none());
}
