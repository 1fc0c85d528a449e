use hapi::{checksum, derive_key, encipher, encode_lz77, extraction_plan, FormatCause,
    HapiArchive, HapiCompressionType, HapiError, HapiPlanStep};

const ARCHIVE_MARKER: [u8; 4] = [0, 0, 1, 0];
const SAVE_MARKER: [u8; 4] = *b"BANK";

fn header(marker: [u8; 4], toc_size: u32, seed: u32, toc_offset: u32) -> Vec<u8> {
    let mut v = b"HAPI".to_vec();
    v.extend_from_slice(&marker);
    v.extend_from_slice(&toc_size.to_le_bytes());
    v.extend_from_slice(&seed.to_le_bytes());
    v.extend_from_slice(&toc_offset.to_le_bytes());
    v
}

/// Builds the region after the header; positions are absolute offsets.
struct Body {
    buf: Vec<u8>,
}

impl Body {
    fn new() -> Body {
        Body { buf: Vec::new() }
    }

    fn abs(&self) -> u32 {
        20 + self.buf.len() as u32
    }

    fn bytes(&mut self, data: &[u8]) -> u32 {
        let p = self.abs();
        self.buf.extend_from_slice(data);
        p
    }

    fn name(&mut self, s: &str) -> u32 {
        let p = self.abs();
        self.buf.extend_from_slice(s.as_bytes());
        self.buf.push(0);
        p
    }

    fn file_body(&mut self, contents: u32, size: u32, comp: u8) -> u32 {
        let p = self.abs();
        self.buf.extend_from_slice(&contents.to_le_bytes());
        self.buf.extend_from_slice(&size.to_le_bytes());
        self.buf.push(comp);
        p
    }

    fn dir_block(&mut self, entries: &[(u32, u32, u8)]) -> u32 {
        let rec = self.abs();
        for &(name_ptr, body_ptr, flag) in entries {
            self.buf.extend_from_slice(&name_ptr.to_le_bytes());
            self.buf.extend_from_slice(&body_ptr.to_le_bytes());
            self.buf.push(flag);
            self.buf.push(0);
        }
        let blk = self.abs();
        self.buf.extend_from_slice(&(entries.len() as u32).to_le_bytes());
        self.buf.extend_from_slice(&rec.to_le_bytes());
        blk
    }

    fn into_archive(self, seed: u32, toc_offset: u32) -> Vec<u8> {
        let mut v = header(ARCHIVE_MARKER, self.buf.len() as u32, seed, toc_offset);
        v.extend_from_slice(&self.buf);
        v
    }
}

/// A one-file plaintext archive: `a.txt` holding `hi`, stored verbatim.
fn minimal_archive() -> Vec<u8> {
    let mut b = Body::new();
    let n = b.name("a.txt");
    let data = b.bytes(b"hi");
    let f = b.file_body(data, 2, 0);
    let root = b.dir_block(&[(n, f, 0)]);
    b.into_archive(0, root)
}

/// A one-file archive whose payload is a single LZ77 chunk encoding five
/// `A` bytes as literals.
fn lz77_archive(declared_size: u32) -> Vec<u8> {
    let payload = encode_lz77(&[0x41; 5]);
    let mut b = Body::new();
    let n = b.name("a.bin");
    let mut chunk = b"SQSH".to_vec();
    chunk.push(0); // version, ignored
    chunk.push(1); // custom LZ77
    chunk.push(0); // not enciphered
    chunk.extend_from_slice(&(payload.len() as u32).to_le_bytes());
    chunk.extend_from_slice(&declared_size.to_le_bytes());
    chunk.extend_from_slice(&checksum(&payload).to_le_bytes());
    chunk.extend_from_slice(&payload);
    let table_len = chunk.len() as u32;
    let mut contents = table_len.to_le_bytes().to_vec();
    contents.extend_from_slice(&chunk);
    let data = b.bytes(&contents);
    let f = b.file_body(data, 5, 1);
    let root = b.dir_block(&[(n, f, 0)]);
    b.into_archive(0, root)
}

#[test]
fn open_rejects_wrong_magic() {
    let r = HapiArchive::open(b"JUNKJUNKJUNKJUNKJUNK".to_vec());
    assert_eq!(r.err().unwrap(), HapiError::FormatError(FormatCause::BadMagic));
    let r = HapiArchive::open(b"HA".to_vec());
    assert_eq!(r.err().unwrap(), HapiError::FormatError(FormatCause::BadMagic));
    let r = HapiArchive::open(Vec::new());
    assert_eq!(r.err().unwrap(), HapiError::FormatError(FormatCause::BadMagic));
}

#[test]
fn open_rejects_save_container() {
    let data = header(SAVE_MARKER, 0, 0, 20);
    let r = HapiArchive::open(data);
    assert_eq!(r.err().unwrap(), HapiError::FormatError(FormatCause::SaveContainer));
}

#[test]
fn open_rejects_short_header_with_magic() {
    let r = HapiArchive::open(b"HAPI".to_vec());
    assert_eq!(r.err().unwrap(), HapiError::TruncatedData);
}

#[test]
fn open_tolerates_unknown_marker() {
    let mut b = Body::new();
    let root = b.dir_block(&[]);
    let mut data = header([9, 9, 9, 9], 0, 0, root);
    data.extend_from_slice(&b.buf);
    let a = HapiArchive::open(data).unwrap();
    assert!(!a.reader.marker_is_known());
    assert_eq!(a.contents().len(), 0);
}

#[test]
fn minimal_archive_extracts_hi() {
    let a = HapiArchive::open(minimal_archive()).unwrap();
    assert!(a.reader.marker_is_known());
    assert_eq!(a.root_dir.path_str(), ".");
    assert_eq!(a.root_dir.name(), "");
    assert_eq!(a.contents().len(), 1);
    let file = a.contents()[0].as_file().expect("entry should be a file");
    assert_eq!(file.name(), "a.txt");
    assert_eq!(file.path_str(), "./a.txt");
    assert_eq!(file.compression, HapiCompressionType::Uncompressed);
    assert_eq!(file.extracted_size, 2);
    let mut out = Vec::new();
    let warns = a.write_file(file, &mut out).unwrap();
    assert_eq!(out, vec![0x68, 0x69]);
    assert!(warns.is_empty());
}

#[test]
fn lz77_chunk_extracts_five_literals() {
    let a = HapiArchive::open(lz77_archive(5)).unwrap();
    let file = a.contents()[0].as_file().unwrap();
    assert_eq!(file.compression, HapiCompressionType::Lz77);
    let mut out = Vec::new();
    let warns = a.write_file(file, &mut out).unwrap();
    assert_eq!(out, vec![0x41; 5]);
    // The declared decompressed size matches, so there is no warning.
    assert!(warns.is_empty());
}

#[test]
fn size_mismatch_is_a_warning_not_an_error() {
    let a = HapiArchive::open(lz77_archive(7)).unwrap();
    let file = a.contents()[0].as_file().unwrap();
    let mut out = Vec::new();
    let warns = a.write_file(file, &mut out).unwrap();
    assert_eq!(out, vec![0x41; 5]);
    assert_eq!(warns.len(), 1);
    assert_eq!(warns[0].declared, 7);
    assert_eq!(warns[0].actual, 5);
}

#[test]
fn flipping_a_payload_byte_breaks_the_checksum() {
    let good = lz77_archive(5);
    let a = HapiArchive::open(good.clone()).unwrap();
    let file = a.contents()[0].as_file().unwrap().clone();
    // The 8-byte chunk payload follows the 19-byte chunk header; flip
    // each payload byte in turn.
    let magic_pos = good.windows(4).position(|w| w == b"SQSH").unwrap();
    let payload_pos = magic_pos + 19;
    for i in payload_pos..payload_pos + 8 {
        let mut bad = good.clone();
        bad[i] ^= 0x20;
        let a2 = HapiArchive::open(bad).unwrap();
        let mut out = Vec::new();
        match a2.write_file(&file, &mut out) {
            Err(HapiError::ChecksumMismatch { expected, actual }) => {
                assert_ne!(expected, actual);
            },
            other => panic!("expected a checksum mismatch, got {:?}", other),
        }
        assert!(out.is_empty());
    }
}

#[test]
fn zlib_chunk_extracts() {
    let payload: Vec<u8> = vec![
        120, 156, 243, 72, 205, 201, 201, 87, 8, 207, 47, 202, 73, 81, 4, 0, 28, 73, 4, 62,
    ];
    let mut b = Body::new();
    let n = b.name("hello.txt");
    let mut chunk = b"SQSH".to_vec();
    chunk.push(0);
    chunk.push(2); // zlib
    chunk.push(0);
    chunk.extend_from_slice(&(payload.len() as u32).to_le_bytes());
    chunk.extend_from_slice(&12u32.to_le_bytes());
    chunk.extend_from_slice(&checksum(&payload).to_le_bytes());
    chunk.extend_from_slice(&payload);
    let mut contents = (chunk.len() as u32).to_le_bytes().to_vec();
    contents.extend_from_slice(&chunk);
    let data = b.bytes(&contents);
    let f = b.file_body(data, 12, 2);
    let root = b.dir_block(&[(n, f, 0)]);
    let a = HapiArchive::open(b.into_archive(0, root)).unwrap();
    let file = a.contents()[0].as_file().unwrap();
    assert_eq!(file.compression, HapiCompressionType::Zlib);
    let mut out = Vec::new();
    a.write_file(file, &mut out).unwrap();
    assert_eq!(out, b"Hello World!");
}

#[test]
fn bad_zlib_stream_is_a_decode_error() {
    let payload = vec![1u8, 2, 3, 4];
    let mut b = Body::new();
    let n = b.name("bad.bin");
    let mut chunk = b"SQSH".to_vec();
    chunk.push(0);
    chunk.push(2);
    chunk.push(0);
    chunk.extend_from_slice(&4u32.to_le_bytes());
    chunk.extend_from_slice(&4u32.to_le_bytes());
    chunk.extend_from_slice(&checksum(&payload).to_le_bytes());
    chunk.extend_from_slice(&payload);
    let mut contents = (chunk.len() as u32).to_le_bytes().to_vec();
    contents.extend_from_slice(&chunk);
    let data = b.bytes(&contents);
    let f = b.file_body(data, 4, 2);
    let root = b.dir_block(&[(n, f, 0)]);
    let a = HapiArchive::open(b.into_archive(0, root)).unwrap();
    let file = a.contents()[0].as_file().unwrap();
    let mut out = Vec::new();
    assert_eq!(a.write_file(file, &mut out), Err(HapiError::DecodeError));
}

#[test]
fn chunk_with_wrong_magic_is_rejected() {
    let mut data = lz77_archive(5);
    // The chunk magic sits right after the 4-byte chunk size table; the
    // table starts where the file body points. Corrupt the magic's first
    // byte: the table is at the file's contents offset.
    let magic_pos = data.windows(4).position(|w| w == b"SQSH").unwrap();
    data[magic_pos] = b'X';
    let a = HapiArchive::open(data).unwrap();
    let file = a.contents()[0].as_file().unwrap();
    let mut out = Vec::new();
    assert_eq!(
        a.write_file(file, &mut out),
        Err(HapiError::FormatError(FormatCause::BadChunkMagic))
    );
}

#[test]
fn unknown_compression_tag_is_rejected_at_open() {
    let mut b = Body::new();
    let n = b.name("weird");
    let f = b.file_body(0, 0, 3);
    let root = b.dir_block(&[(n, f, 0)]);
    let r = HapiArchive::open(b.into_archive(0, root));
    assert_eq!(r.err().unwrap(), HapiError::FormatError(FormatCause::BadCompression));
}

#[test]
fn truncated_file_contents_error() {
    let mut b = Body::new();
    let n = b.name("big");
    let f = b.file_body(100_000, 50, 0);
    let root = b.dir_block(&[(n, f, 0)]);
    let a = HapiArchive::open(b.into_archive(0, root)).unwrap();
    let file = a.contents()[0].as_file().unwrap();
    let mut out = Vec::new();
    assert_eq!(a.write_file(file, &mut out), Err(HapiError::TruncatedData));
    assert!(out.is_empty());
}

#[test]
fn truncated_directory_error() {
    let data = header(ARCHIVE_MARKER, 0, 0, 1000);
    let r = HapiArchive::open(data);
    assert_eq!(r.err().unwrap(), HapiError::TruncatedData);
}

#[test]
fn self_referential_directory_is_rejected() {
    let mut b = Body::new();
    let n = b.name("loop");
    // The record points back at the root block itself.
    let rec = b.abs();
    b.buf.extend_from_slice(&n.to_le_bytes());
    let root = rec + 10 + 0; // record is 10 bytes; block follows it
    b.buf.extend_from_slice(&root.to_le_bytes());
    b.buf.push(1);
    b.buf.push(0);
    let blk = b.abs();
    assert_eq!(blk, root);
    b.buf.extend_from_slice(&1u32.to_le_bytes());
    b.buf.extend_from_slice(&rec.to_le_bytes());
    let r = HapiArchive::open(b.into_archive(0, root));
    assert_eq!(r.err().unwrap(), HapiError::FormatError(FormatCause::PointerCycle));
}

#[test]
fn stream_cipher_round_trips_through_open() {
    // A one-file archive whose table of contents sits right after the
    // header, so the whole body lies above the cipher boundary; then a
    // nonzero seed, with everything at or past the boundary enciphered.
    let mut plain = header(ARCHIVE_MARKER, 35, 0, 20);
    plain.extend_from_slice(&1u32.to_le_bytes()); // count, at 20
    plain.extend_from_slice(&28u32.to_le_bytes()); // records, at 24
    plain.extend_from_slice(&38u32.to_le_bytes()); // name ptr, record at 28
    plain.extend_from_slice(&44u32.to_le_bytes()); // body ptr
    plain.push(0); // a file
    plain.push(0); // padding
    plain.extend_from_slice(b"a.txt\0"); // at 38
    plain.extend_from_slice(&53u32.to_le_bytes()); // contents ptr, at 44
    plain.extend_from_slice(&2u32.to_le_bytes()); // extracted size
    plain.push(0); // stored verbatim
    plain.extend_from_slice(b"hi"); // at 53
    let seed = 0x2A;
    let key = derive_key(seed).unwrap();
    let mut data = plain.clone();
    data[12..16].copy_from_slice(&seed.to_le_bytes());
    for off in 20..data.len() {
        data[off] = encipher(data[off], off as u32, key);
    }
    assert_ne!(data[20..], plain[20..]);
    let a = HapiArchive::open(data).unwrap();
    let file = a.contents()[0].as_file().unwrap();
    assert_eq!(file.path_str(), "./a.txt");
    let mut out = Vec::new();
    a.write_file(file, &mut out).unwrap();
    assert_eq!(out, b"hi");
}

#[test]
fn chunk_cipher_is_undone() {
    // An enciphered LZ77 chunk: stored[i] = (plain[i] xor i) + i, the
    // inverse of the chunk-local transform.
    let payload = encode_lz77(&[0x41; 5]);
    let stored: Vec<u8> = payload
        .iter()
        .enumerate()
        .map(|(i, &b)| (b ^ (i as u8)).wrapping_add(i as u8))
        .collect();
    assert_ne!(stored, payload);
    let mut b = Body::new();
    let n = b.name("c.bin");
    let mut chunk = b"SQSH".to_vec();
    chunk.push(0);
    chunk.push(1);
    chunk.push(1); // enciphered
    chunk.extend_from_slice(&(stored.len() as u32).to_le_bytes());
    chunk.extend_from_slice(&5u32.to_le_bytes());
    chunk.extend_from_slice(&checksum(&stored).to_le_bytes());
    chunk.extend_from_slice(&stored);
    let mut contents = (chunk.len() as u32).to_le_bytes().to_vec();
    contents.extend_from_slice(&chunk);
    let data = b.bytes(&contents);
    let f = b.file_body(data, 5, 1);
    let root = b.dir_block(&[(n, f, 0)]);
    let a = HapiArchive::open(b.into_archive(0, root)).unwrap();
    let file = a.contents()[0].as_file().unwrap();
    let mut out = Vec::new();
    a.write_file(file, &mut out).unwrap();
    assert_eq!(out, vec![0x41; 5]);
}

/// A depth-5 tree: `.` -> d1 -> d2 -> d3 -> { d4, mid.txt }, plus a file
/// at the root.
fn deep_archive() -> Vec<u8> {
    let mut b = Body::new();
    let top_data = b.bytes(b"top");
    let mid_data = b.bytes(b"mid");
    let n_d1 = b.name("d1");
    let n_d2 = b.name("d2");
    let n_d3 = b.name("d3");
    let n_d4 = b.name("d4");
    let n_mid = b.name("mid.txt");
    let n_top = b.name("top.txt");
    let f_mid = b.file_body(mid_data, 3, 0);
    let f_top = b.file_body(top_data, 3, 0);
    let d4 = b.dir_block(&[]);
    let d3 = b.dir_block(&[(n_d4, d4, 1), (n_mid, f_mid, 0)]);
    let d2 = b.dir_block(&[(n_d3, d3, 1)]);
    let d1 = b.dir_block(&[(n_d2, d2, 1)]);
    let root = b.dir_block(&[(n_d1, d1, 1), (n_top, f_top, 0)]);
    b.into_archive(0, root)
}

#[test]
fn deep_tree_records_paths() {
    let a = HapiArchive::open(deep_archive()).unwrap();
    let d1 = a.contents()[0].as_dir().unwrap();
    assert_eq!(d1.path_str(), "./d1");
    assert_eq!(d1.name(), "d1");
    let d2 = d1.iter()[0].as_dir().unwrap();
    let d3 = d2.iter()[0].as_dir().unwrap();
    assert_eq!(d3.path_str(), "./d1/d2/d3");
    let d4 = d3.iter()[0].as_dir().unwrap();
    assert_eq!(d4.path_str(), "./d1/d2/d3/d4");
    assert_eq!(d4.iter().len(), 0);
    let mid = d3.iter()[1].as_file().unwrap();
    assert_eq!(mid.path_str(), "./d1/d2/d3/mid.txt");
    let top = a.contents()[1].as_file().unwrap();
    assert_eq!(top.path_str(), "./top.txt");
    assert!(a.contents()[1].as_dir().is_none());
}

#[test]
fn extraction_plan_mirrors_the_tree() {
    let a = HapiArchive::open(deep_archive()).unwrap();
    let plan = extraction_plan(&a.root_dir);
    let steps: Vec<(bool, String)> = plan
        .iter()
        .map(|s| match s {
            HapiPlanStep::MakeDir { path } => (true, path.clone()),
            HapiPlanStep::WriteFile { path, .. } => (false, path.clone()),
        })
        .collect();
    let expected = vec![
        (true, "d1".to_string()),
        (true, "d1/d2".to_string()),
        (true, "d1/d2/d3".to_string()),
        (true, "d1/d2/d3/d4".to_string()),
        (false, "d1/d2/d3/mid.txt".to_string()),
        (false, "top.txt".to_string()),
    ];
    assert_eq!(steps, expected);
    // Each step's relative path, rooted at the tree's own path, is the
    // recorded archive path.
    for step in plan.iter() {
        if let HapiPlanStep::WriteFile { path, file } = step {
            assert_eq!(file.path_str(), format!("./{}", path));
        }
    }
}

#[test]
fn find_file_by_full_path() {
    let a = HapiArchive::open(deep_archive()).unwrap();
    let f = a.root_dir.find_file(&"./d1/d2/d3/mid.txt".to_string());
    assert_eq!(f.unwrap().name(), "mid.txt");
    let missing = a.root_dir.find_file(&"./d1/nope".to_string());
    assert!(missing.is_none());
}

#[test]
fn error_messages_name_the_failure() {
    assert_eq!(
        HapiError::FormatError(FormatCause::BadMagic).message(),
        "Not a HAPI archive"
    );
    assert_eq!(
        HapiError::FormatError(FormatCause::SaveContainer).message(),
        "Save data is not supported yet"
    );
}
