use wasmium_pdk::frame::{encode_frame, read_frame, FrameError};

#[test]
fn frame_has_little_endian_length_then_payload() {
    assert_eq!(encode_frame(&[1, 2, 3]), vec![3, 0, 0, 0, 0, 0, 0, 0, 1, 2, 3]);
}

#[test]
fn empty_payload_frame_is_eight_zero_bytes() {
    assert_eq!(encode_frame(&[]), vec![0; 8]);
}

#[test]
fn long_payload_length_uses_several_header_bytes() {
    let payload = vec![7u8; 0x0102];
    let framed = encode_frame(&payload);
    assert_eq!(&framed[..8], &[0x02, 0x01, 0, 0, 0, 0, 0, 0]);
    assert_eq!(framed.len(), 8 + 0x0102);
}

#[test]
fn frame_roundtrip_with_surrounding_bytes() {
    let mut buffer = vec![9, 9, 9];
    buffer.extend(encode_frame(b"hello"));
    buffer.extend([4, 4]);
    assert_eq!(read_frame(&buffer, 3), Ok(b"hello".to_vec()));
}

#[test]
fn frame_header_out_of_bounds() {
    assert_eq!(read_frame(&[1, 0, 0], 0), Err(FrameError::HeaderOutOfBounds));
    assert_eq!(read_frame(&[0; 8], 1), Err(FrameError::HeaderOutOfBounds));
    assert_eq!(read_frame(&[0; 8], u64::MAX), Err(FrameError::HeaderOutOfBounds));
}

#[test]
fn frame_payload_out_of_bounds() {
    assert_eq!(
        read_frame(&[4, 0, 0, 0, 0, 0, 0, 0, 1, 2, 3], 0),
        Err(FrameError::PayloadOutOfBounds)
    );
    assert_eq!(
        read_frame(&[0xff; 16], 0),
        Err(FrameError::PayloadOutOfBounds)
    );
}

#[test]
fn frame_exactly_filling_buffer() {
    assert_eq!(read_frame(&[2, 0, 0, 0, 0, 0, 0, 0, 5, 6], 0), Ok(vec![5, 6]));
    assert_eq!(read_frame(&[0; 8], 0), Ok(vec![]));
}

#[test]
fn reencoding_a_read_frame_gives_its_bytes() {
    let buffer = [0, 0, 2, 0, 0, 0, 0, 0, 0, 0, 8, 9, 1, 1];
    let payload = read_frame(&buffer, 2).unwrap();
    assert_eq!(encode_frame(&payload), buffer[2..12].to_vec());
}

#[test]
fn payload_len_reads_little_endian() {
    assert_eq!(wasmium_pdk::frame::payload_len(&[1, 2, 0, 0, 0, 0, 0, 0]), 0x0201);
    assert_eq!(wasmium_pdk::frame::payload_len(&[0xff; 8]), u64::MAX);
}
