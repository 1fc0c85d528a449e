use hapi::{derive_key, encipher, FormatCause, HapiError, HapiReader};

fn raw_header(marker: [u8; 4], toc_size: u32, seed: u32, toc_offset: u32) -> Vec<u8> {
    let mut v = b"HAPI".to_vec();
    v.extend_from_slice(&marker);
    v.extend_from_slice(&toc_size.to_le_bytes());
    v.extend_from_slice(&seed.to_le_bytes());
    v.extend_from_slice(&toc_offset.to_le_bytes());
    v
}

#[test]
fn reader_parses_header_fields() {
    let mut data = raw_header([0, 0, 1, 0], 35, 0, 20);
    data.extend_from_slice(&[0u8; 8]);
    let rd = HapiReader::new(data).unwrap();
    assert!(rd.marker_is_known());
    assert_eq!(rd.header.toc_size, 35);
    assert_eq!(rd.header.key, None);
    assert_eq!(rd.header.toc_offset, 20);
}

#[test]
fn reader_derives_key_from_seed() {
    let mut data = raw_header([0, 0, 1, 0], 8, 7, 28);
    data.extend_from_slice(&[0u8; 8]);
    let rd = HapiReader::new(data).unwrap();
    assert_eq!(rd.header.key, derive_key(7));
    assert!(derive_key(7).is_some());
}

#[test]
fn reader_deciphers_only_past_the_boundary() {
    // Boundary at 24: one plain byte below it, one enciphered at it.
    let seed = 9u32;
    let key = derive_key(seed).unwrap();
    let mut data = raw_header([0, 0, 1, 0], 0, seed, 24);
    data.push(0x5A); // offset 20: below the boundary, stays raw
    data.push(0x5B); // offset 21
    data.push(0x5C); // offset 22
    data.push(0x5D); // offset 23
    data.push(encipher(0x77, 24, key)); // offset 24: deciphered on read
    data.push(encipher(0x78, 25, key));
    let rd = HapiReader::new(data).unwrap();
    assert_eq!(rd.read_byte(20), 0x5A);
    assert_eq!(rd.read_byte(23), 0x5D);
    assert_eq!(rd.read_byte(24), 0x77);
    assert_eq!(rd.read_byte(25), 0x78);
    assert_eq!(rd.read_bytes(24, 2), vec![0x77, 0x78]);
}

#[test]
fn reader_rejects_save_marker() {
    let data = raw_header(*b"BANK", 0, 0, 20);
    assert_eq!(
        HapiReader::new(data).err().unwrap(),
        HapiError::FormatError(FormatCause::SaveContainer)
    );
}
