use faasten_core::frame::{Error, read_frame, read_u8, u64_from_be_bytes, u64_to_be_bytes, write_u8};

#[test]
fn u64_big_endian_round_trip() {
    for x in [0u64, 1, 255, 256, 0xdead_beef, u64::MAX] {
        let b = u64_to_be_bytes(x);
        assert_eq!(b.len(), 8);
        assert_eq!(u64_from_be_bytes(&b), x);
    }
    assert_eq!(u64_to_be_bytes(1), vec![0, 0, 0, 0, 0, 0, 0, 1]);
}

#[test]
fn frame_round_trips_for_empty_and_nonempty_payloads() {
    let mut buf: Vec<u8> = Vec::new();
    write_u8(&mut buf, b"hello");
    write_u8(&mut buf, b"");
    write_u8(&mut buf, b"world!");
    // the body-optional path round-trips for any length, zero included
    let (m1, p1) = read_frame(&buf, 0, true).unwrap();
    assert_eq!(m1, b"hello".to_vec());
    let (m2, p2) = read_frame(&buf, p1, true).unwrap();
    assert_eq!(m2, Vec::<u8>::new());
    let (m3, p3) = read_frame(&buf, p2, true).unwrap();
    assert_eq!(m3, b"world!".to_vec());
    assert_eq!(p3, buf.len());
}

#[test]
fn body_required_read_rejects_zero_length() {
    let mut buf: Vec<u8> = Vec::new();
    write_u8(&mut buf, b"");
    assert_eq!(read_u8(&buf, 0), Err(Error::EmptyPayload));
    // the same frame is fine where an empty body is tolerated
    assert_eq!(read_frame(&buf, 0, true).unwrap().0, Vec::<u8>::new());
}

#[test]
fn short_frames_fail_with_stream_errors() {
    // fewer than eight bytes: no length prefix
    assert_eq!(read_u8(&[1, 2, 3], 0), Err(Error::StreamRead));
    // a length prefix promising more than the stream holds
    let mut buf: Vec<u8> = Vec::new();
    write_u8(&mut buf, b"abcdef");
    buf.truncate(buf.len() - 2);
    assert_eq!(read_u8(&buf, 0), Err(Error::StreamRead));
}
