use owl_wave::sysex::{decode32, decode_bytes, encode32, encode_bytes, CodingResult, SysexError};

#[test]
fn test_decode_u32() {
    let data = [0u8, 0, 0, 0, 1];
    let result = decode32(&data);
    assert_eq!(result, Ok((1, CodingResult::new(5, 4))));
    let data = [0u8, 0, 0, 1];
    assert_eq!(decode32(&data), Err(SysexError::InsufficientData));
    let data = [4u8, 0, 0, 0, 0x2c];
    assert_eq!(decode32(&data), Ok((32812, CodingResult::new(5, 4))));
}

#[test]
fn test_encode_u32() {
    let mut result = vec![0u8; 5];
    assert_eq!(encode32(1, &mut result), Ok(CodingResult::new(4, 5)));
    assert_eq!(result, vec![0u8, 0, 0, 0, 1]);

    let mut result = vec![0u8; 5];
    assert_eq!(encode32(32812, &mut result), Ok(CodingResult::new(4, 5)));
    assert_eq!(result, vec![0x04u8, 0x00, 0x00, 0x00, 0x2c]);
}

#[test]
fn test_encode_u32_wrong_buffer() {
    let mut result = vec![0u8; 4];
    assert_eq!(encode32(1, &mut result), Err(SysexError::InvalidBufferSize));
    assert_eq!(result, vec![0u8; 4]);
}

#[test]
fn test_decode_u8_slice() {
    let cases: &[(&[u8], usize, &[u8])] = &[
        (&[0, 0], 2, &[0]),
        (&[0, 1], 2, &[1]),
        (&[0, 127], 2, &[127]),
        (&[1, 0], 2, &[128]),
        (&[1, 1], 2, &[129]),
        (&[0, 0, 1, 2, 3, 4, 5, 6], 8, &[0, 1, 2, 3, 4, 5, 6]),
        (&[0, 1, 2, 3, 4, 5, 6, 7, 0, 8], 10, &[1, 2, 3, 4, 5, 6, 7, 8]),
        (&[0, 1, 2, 3, 4, 5, 6, 7, 1, 0], 10, &[1, 2, 3, 4, 5, 6, 7, 128]),
        (&[0, 1, 2, 3, 4, 5, 6, 7, 3, 0, 1], 11, &[1, 2, 3, 4, 5, 6, 7, 128, 129]),
    ];
    for (data, read, expected) in cases {
        let mut result = vec![0u8; 32];
        let r = decode_bytes(data, &mut result);
        assert_eq!(r, Ok(CodingResult::new(*read, expected.len())));
        assert_eq!(&result[..expected.len()], *expected);
    }
}

#[test]
fn test_decode_u8_slice_too_small() {
    let data = [0u8, 1, 2, 3, 4, 5, 6, 7, 0, 8];
    let mut result = vec![0u8; 4];
    assert_eq!(decode_bytes(&data, &mut result), Err(SysexError::BufferTooSmall));
    assert_eq!(result, vec![0u8; 4]);
}

#[test]
fn test_encode_u8_slice() {
    let cases: &[(&[u8], &[u8])] = &[
        (&[0], &[0, 0]),
        (&[1], &[0, 1]),
        (&[127], &[0, 127]),
        (&[128], &[1, 0]),
        (&[129], &[1, 1]),
        (&[0, 1, 2, 3, 4, 5, 6], &[0, 0, 1, 2, 3, 4, 5, 6]),
        (&[1, 2, 3, 4, 5, 6, 7, 8], &[0, 1, 2, 3, 4, 5, 6, 7, 0, 8]),
        (&[1, 2, 3, 4, 5, 6, 7, 128], &[0, 1, 2, 3, 4, 5, 6, 7, 1, 0]),
        (&[1, 2, 3, 4, 5, 6, 7, 128, 129], &[0, 1, 2, 3, 4, 5, 6, 7, 3, 0, 1]),
    ];
    for (data, expected) in cases {
        let mut buf = vec![0u8; 32];
        let result = encode_bytes(data, &mut buf).unwrap();
        assert_eq!(result, CodingResult::new(data.len(), expected.len()));
        assert_eq!(&buf[..result.bytes_written], *expected);
    }
}

#[test]
fn test_encode_empty_buffer() {
    let mut buf = vec![0u8; 8];
    let r = encode_bytes(&[], &mut buf).unwrap();
    assert_eq!(r, CodingResult::new(0, 0));
    assert_eq!(buf, vec![0u8; 8]);
}

#[test]
fn test_decode_empty_buffer() {
    let mut buf = vec![0u8; 8];
    let r = decode_bytes(&[], &mut buf).unwrap();
    assert_eq!(r, CodingResult::new(0, 0));
    assert_eq!(buf, vec![0u8; 8]);
}

#[test]
fn test_bytes_round_trip() {
    let mut data = Vec::new();
    for i in 0..200u16 {
        data.push((i * 37 % 256) as u8);
    }
    let mut enc = vec![0u8; 256];
    let e = encode_bytes(&data, &mut enc).unwrap();
    assert!(enc[..e.bytes_written].iter().all(|b| *b < 128));
    let mut dec = vec![0u8; 256];
    let d = decode_bytes(&enc[..e.bytes_written], &mut dec).unwrap();
    assert_eq!(&dec[..d.bytes_written], &data[..]);
}

#[test]
fn test_u32_round_trip() {
    for v in [0u32, 1, 127, 128, 32812, 0x8000, 0x800000, 0x80000080, u32::MAX] {
        let mut buf = vec![0u8; 5];
        encode32(v, &mut buf).unwrap();
        assert!(buf.iter().all(|b| *b < 128));
        let (back, _) = decode32(&buf).unwrap();
        assert_eq!(back, v);
    }
}
