use wamd::error::FrameError;
use wamd::frame::{decode_frame, encode_frame, read_frame_len, write_frame_len, MAX_FRAME_SIZE};
use wamd::Error;

#[test]
fn frame_len_roundtrip() {
    let mut buf = [0u8; 3];
    for len in [0usize, 1, 255, 256, 65535, 65536, MAX_FRAME_SIZE] {
        write_frame_len(&mut buf, len);
        assert_eq!(read_frame_len(&buf), len);
    }
}

#[test]
fn frame_len_bytes_are_big_endian() {
    let mut buf = [9u8; 5];
    write_frame_len(&mut buf, 0x012345);
    assert_eq!(buf, [0x01, 0x23, 0x45, 9, 9]);
}

#[test]
fn frame_round_trip() {
    let msg = encode_frame(b"abc").unwrap();
    assert_eq!(msg, vec![0, 0, 3, b'a', b'b', b'c']);
    assert_eq!(decode_frame(&msg).unwrap(), b"abc".to_vec());
    assert_eq!(decode_frame(&encode_frame(&[]).unwrap()).unwrap(), Vec::<u8>::new());
}

#[test]
fn frame_errors() {
    assert!(matches!(decode_frame(&[0, 1]), Err(Error::Frame(FrameError::TooShort))));
    assert!(matches!(decode_frame(&[0, 0, 5, 1]), Err(Error::Frame(FrameError::LengthMismatch))));
    assert!(matches!(decode_frame(&[0, 0, 0, 1]), Err(Error::Frame(FrameError::LengthMismatch))));
    let big = vec![0u8; MAX_FRAME_SIZE + 1];
    assert!(matches!(encode_frame(&big), Err(Error::Frame(FrameError::TooLarge))));
    let max = vec![1u8; MAX_FRAME_SIZE];
    let msg = encode_frame(&max).unwrap();
    assert_eq!(&msg[..3], &[0xff, 0xff, 0xff]);
    assert_eq!(decode_frame(&msg).unwrap().len(), MAX_FRAME_SIZE);
}
