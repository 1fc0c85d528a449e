use hapi::{decode_lz77, encode_lz77, HapiError};

#[test]
fn lz77_empty_round_trip() {
    let data: Vec<u8> = Vec::new();
    let enc = encode_lz77(&data);
    assert_eq!(enc, vec![0x01, 0x00, 0x00]);
    let dec = decode_lz77(&enc).unwrap();
    assert_eq!(dec, data);
}

#[test]
fn lz77_small_round_trip() {
    let data = b"hello, archive".to_vec();
    let enc = encode_lz77(&data);
    let dec = decode_lz77(&enc).unwrap();
    assert_eq!(dec, data);
}

#[test]
fn lz77_eight_byte_round_trip() {
    let data = vec![1u8, 2, 3, 4, 5, 6, 7, 8];
    let enc = encode_lz77(&data);
    let dec = decode_lz77(&enc).unwrap();
    assert_eq!(dec, data);
}

#[test]
fn lz77_window_crossing_round_trip() {
    // More than 4096 bytes, so decoding wraps the sliding window.
    let data: Vec<u8> = (0..4100u32).map(|i| (i * 7 % 251) as u8).collect();
    let enc = encode_lz77(&data);
    let dec = decode_lz77(&enc).unwrap();
    assert_eq!(dec, data);
}

#[test]
fn lz77_literals_then_sentinel() {
    // Five literals `A`, then the set bit whose pointer is zero: exactly
    // the five bytes come out.
    let input = vec![0x20, 0x41, 0x41, 0x41, 0x41, 0x41, 0x00, 0x00];
    let dec = decode_lz77(&input).unwrap();
    assert_eq!(dec, vec![0x41; 5]);
}

#[test]
fn lz77_self_overlapping_back_reference() {
    // One literal `A`, then a back-reference to window slot 0 of length
    // 5, which reads bytes it is itself writing; then the sentinel.
    let input = vec![0x06, 0x41, 0x13, 0x00, 0x00, 0x00];
    let dec = decode_lz77(&input).unwrap();
    assert_eq!(dec, vec![0x41; 6]);
}

#[test]
fn lz77_back_reference_across_window_boundary() {
    // 4095 literals fill the window to its last slot; a back-reference
    // to slot 4094 of length 3 then writes across the boundary, reading
    // one byte it wrote itself.
    let mut input: Vec<u8> = Vec::new();
    let lit = |j: u32| (j % 256) as u8;
    let mut j: u32 = 0;
    for _ in 0..511 {
        input.push(0x00);
        for _ in 0..8 {
            input.push(lit(j));
            j += 1;
        }
    }
    input.push(0x80);
    for _ in 0..7 {
        input.push(lit(j));
        j += 1;
    }
    input.push(0xF1);
    input.push(0xFF);
    input.push(0x01);
    input.push(0x00);
    input.push(0x00);
    let dec = decode_lz77(&input).unwrap();
    let mut expected: Vec<u8> = (0..4095u32).map(lit).collect();
    expected.extend_from_slice(&[254, 254, 254]);
    assert_eq!(dec, expected);
}

#[test]
fn lz77_error_on_missing_tag() {
    // Eight literals consume the whole tag; the stream ends where the
    // next tag byte should be.
    let input = vec![0x00, 1, 2, 3, 4, 5, 6, 7, 8];
    assert_eq!(decode_lz77(&input), Err(HapiError::DecodeError));
}

#[test]
fn lz77_error_on_truncated_literal() {
    let input = vec![0x00, 1, 2];
    assert_eq!(decode_lz77(&input), Err(HapiError::DecodeError));
}

#[test]
fn lz77_error_on_truncated_pointer() {
    // The tag announces a back-reference but only one of its two bytes
    // follows.
    let input = vec![0x01, 0x13];
    assert_eq!(decode_lz77(&input), Err(HapiError::DecodeError));
}

#[test]
fn lz77_error_on_empty_input() {
    let input: Vec<u8> = Vec::new();
    assert_eq!(decode_lz77(&input), Err(HapiError::DecodeError));
}
