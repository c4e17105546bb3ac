use windowcaster_client::codec::{frame_length, read_frame, write_frame, FrameError};

fn round_trip(payload: &[u8]) {
    let mut stream: Vec<u8> = Vec::new();
    write_frame(&mut stream, payload);
    assert_eq!(stream.len(), 4 + payload.len());
    let (back, used) = read_frame(&stream).unwrap();
    assert_eq!(back, payload);
    assert_eq!(used, stream.len());
}

#[test]
fn frame_round_trip_empty() {
    round_trip(&[]);
}

#[test]
fn frame_round_trip_one_byte() {
    round_trip(&[0x7f]);
}

#[test]
fn frame_round_trip_ten_mebibytes() {
    let payload: Vec<u8> = (0..10 * 1024 * 1024).map(|i| (i % 251) as u8).collect();
    round_trip(&payload);
}

#[test]
fn frame_header_is_little_endian_length() {
    let mut stream: Vec<u8> = Vec::new();
    write_frame(&mut stream, &[1, 2, 3]);
    assert_eq!(stream, vec![3, 0, 0, 0, 1, 2, 3]);
    assert_eq!(frame_length(&[0x00, 0x01, 0x00, 0x00]), 256);
    assert_eq!(frame_length(&[0x78, 0x56, 0x34, 0x12]), 0x1234_5678);
}

#[test]
fn frames_are_read_one_at_a_time() {
    let mut stream: Vec<u8> = Vec::new();
    write_frame(&mut stream, b"first");
    write_frame(&mut stream, b"");
    write_frame(&mut stream, b"third");
    let (a, used_a) = read_frame(&stream).unwrap();
    assert_eq!(a, b"first");
    let (b, used_b) = read_frame(&stream[used_a..]).unwrap();
    assert!(b.is_empty());
    let (c, used_c) = read_frame(&stream[used_a + used_b..]).unwrap();
    assert_eq!(c, b"third");
    assert_eq!(used_a + used_b + used_c, stream.len());
}

#[test]
fn short_reads_are_errors() {
    assert_eq!(read_frame(&[]), Err(FrameError::ShortRead));
    assert_eq!(read_frame(&[5, 0, 0]), Err(FrameError::ShortRead));
    assert_eq!(read_frame(&[5, 0, 0, 0, 1, 2, 3, 4]), Err(FrameError::ShortRead));
    assert_eq!(read_frame(&[0, 0, 0, 0]), Ok((Vec::new(), 4)));
}
