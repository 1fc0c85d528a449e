use vstd::prelude::*;

use crate::chunk::{chunk_decoded, parse_chunk_at, read_chunk_at, ChunkV};
use crate::err::HapiError;
use crate::parse::{parse_dir_at, read_dir_at};
use crate::reader::{plain_of, reader_of, HapiHeader, HapiReader};
use crate::types::{dir_view, entry_view, file_view, DirV, EntryV, FileV, HapiCompressionType,
    HapiDirectory, HapiEntry, HapiFile};

verus! {

/// The fixed decompressed size of every chunk but the last, which fixes
/// how many chunks a compressed file occupies.
pub const HAPI_CHUNK_SIZE: u32 = 65536;

/// A report that a chunk's decoded length differed from the length its
/// header declared; the archive may be corrupt, but output was still
/// produced.
#[derive(Clone, Copy, PartialEq, Eq, Structural, Debug)]
pub struct SizeWarning {
    /// The decompressed size the chunk header declared.
    pub declared: u32,
    /// The number of bytes the chunk actually decoded to.
    pub actual: usize,
}

/// The mathematical shape of a size warning.
pub struct WarnV {
    pub declared: u32,
    pub actual: nat,
}

impl View for SizeWarning {
    type V = WarnV;

    open spec fn view(&self) -> WarnV {
        WarnV { declared: self.declared, actual: self.actual as nat }
    }
}

/// The shapes of a sequence of warnings.
pub open spec fn warn_views(s: Seq<SizeWarning>) -> Seq<WarnV> {
    Seq::new(s.len(), |i: int| s[i]@)
}

/// Decoded file contents: the bytes, and the size warnings gathered from
/// the chunks that produced them.
pub struct DecodedV {
    pub data: Seq<u8>,
    pub warns: Seq<WarnV>,
}

/// The warning one chunk contributes: one entry when its decoded length
/// `n` differs from the declared size, nothing otherwise.
pub open spec fn chunk_warn(c: ChunkV, n: nat) -> Seq<WarnV> {
    if n != c.decompressed_size {
        seq![WarnV { declared: c.decompressed_size, actual: n }]
    } else {
        Seq::empty()
    }
}

/// What `n` chunks laid back to back from `off` decode to, in order; the
/// first chunk that fails to parse or decode fails the whole read.
pub open spec fn decode_chunks(p: Seq<u8>, off: int, n: nat) -> Result<DecodedV, HapiError>
    decreases n,
{
    if n == 0 {
        Ok(DecodedV { data: Seq::empty(), warns: Seq::empty() })
    } else {
        match parse_chunk_at(p, off) {
            Err(e) => Err(e),
            Ok(c) => match chunk_decoded(c) {
                Err(e) => Err(e),
                Ok(b) => match decode_chunks(p, off + 19 + c.compressed_size, (n - 1) as nat) {
                    Err(e) => Err(e),
                    Ok(rest) => Ok(
                        DecodedV {
                            data: b + rest.data,
                            warns: chunk_warn(c, b.len()) + rest.warns,
                        },
                    ),
                },
            },
        }
    }
}

/// What a file entry's payload decodes to against the deciphered view
/// `p`: a stored file is `extracted_size` verbatim bytes; a compressed
/// file is `ceil(extracted_size / 65536)` chunks, preceded by a table of
/// that many per-chunk sizes, which carries nothing the chunk headers do
/// not.
pub open spec fn file_data_of(p: Seq<u8>, f: FileV) -> Result<DecodedV, HapiError> {
    if f.compression == HapiCompressionType::Uncompressed {
        if f.contents_offset + f.extracted_size <= p.len() {
            Ok(
                DecodedV {
                    data: p.subrange(
                        f.contents_offset as int,
                        f.contents_offset + f.extracted_size,
                    ),
                    warns: Seq::empty(),
                },
            )
        } else {
            Err(HapiError::TruncatedData)
        }
    } else {
        let cc = (f.extracted_size + HAPI_CHUNK_SIZE - 1) / (HAPI_CHUNK_SIZE as int);
        if f.contents_offset + 4 * cc <= p.len() {
            decode_chunks(p, f.contents_offset + 4 * cc, cc as nat)
        } else {
            Err(HapiError::TruncatedData)
        }
    }
}

/// Prepends already-decoded bytes and warnings to the outcome of the
/// remaining chunks.
spec fn with_decoded(data: Seq<u8>, warns: Seq<WarnV>, r: Result<
    DecodedV,
    HapiError,
>) -> Result<DecodedV, HapiError> {
    match r {
        Ok(rest) => Ok(DecodedV { data: data + rest.data, warns: warns + rest.warns }),
        Err(e) => Err(e),
    }
}

proof fn lemma_with_decoded_nil(r: Result<DecodedV, HapiError>)
    ensures
        with_decoded(Seq::empty(), Seq::empty(), r) == r,
{
    match r {
        Ok(rest) => {
            assert(Seq::empty() + rest.data =~= rest.data);
            assert(Seq::empty() + rest.warns =~= rest.warns);
        },
        Err(_) => {},
    }
}

proof fn lemma_with_decoded_assoc(
    d1: Seq<u8>,
    w1: Seq<WarnV>,
    d2: Seq<u8>,
    w2: Seq<WarnV>,
    r: Result<DecodedV, HapiError>,
)
    ensures
        with_decoded(d1, w1, with_decoded(d2, w2, r)) == with_decoded(d1 + d2, w1 + w2, r),
{
    match r {
        Ok(rest) => {
            assert(d1 + (d2 + rest.data) =~= (d1 + d2) + rest.data);
            assert(w1 + (w2 + rest.warns) =~= (w1 + w2) + rest.warns);
        },
        Err(_) => {},
    }
}

/// What opening a byte stream yields: its header and the whole directory
/// tree the table of contents resolves to, or the first error. The root
/// directory's path is `.` and its name is empty.
pub open spec fn open_of(d: Seq<u8>) -> Result<(HapiHeader, DirV), HapiError> {
    match reader_of(d) {
        Err(e) => Err(e),
        Ok(h) => match parse_dir_at(
            plain_of(d, h.key, h.toc_offset),
            h.toc_offset as int,
            "."@,
            Seq::empty(),
            d.len() as nat,
        ) {
            Ok(t) => Ok((h, t)),
            Err(e) => Err(e),
        },
    }
}

/// An opened archive: the deciphering byte source and the resolved
/// directory tree. The archive owns its bytes, so independent archives
/// can be read in parallel; all methods here take the archive immutably.
pub struct HapiArchive {
    /// The deciphering byte source, with the parsed header.
    pub reader: HapiReader,
    /// The root directory, holding the whole resolved tree.
    pub root_dir: HapiDirectory,
}

impl HapiArchive {
    /// The archive holds exactly what its bytes open to.
    pub open spec fn wf(self) -> bool {
        &&& self.reader.wf()
        &&& open_of(self.reader.data@) == Ok::<(HapiHeader, DirV), HapiError>(
            (self.reader.header, dir_view(self.root_dir)),
        )
    }

    /// Opens an archive held in memory: validates the header, then
    /// resolves the whole directory tree through the deciphering source.
    pub fn open(data: Vec<u8>) -> (r: Result<HapiArchive, HapiError>)
        ensures
            match r {
                Ok(a) => open_of(data@) == Ok::<(HapiHeader, DirV), HapiError>(
                    (a.reader.header, dir_view(a.root_dir)),
                ) && a.wf() && a.reader.data@ == data@,
                Err(e) => open_of(data@) == Err::<(HapiHeader, DirV), HapiError>(e),
            },
    {
        let reader = match HapiReader::new(data) {
            Ok(rd) => rd,
            Err(e) => {
                return Err(e);
            },
        };
        let fuel = reader.data.len();
        match read_dir_at(
            &reader,
            reader.header.toc_offset,
            String::from_str("."),
            String::new(),
            fuel,
        ) {
            Ok(root) => Ok(HapiArchive { reader, root_dir: root }),
            Err(e) => Err(e),
        }
    }

    /// The entries in the archive's root directory.
    pub fn contents(&self) -> (r: &Vec<HapiEntry>)
        ensures
            r@ == self.root_dir.contents@,
    {
        &self.root_dir.contents
    }

    /// Decodes `entry`'s contents onto the end of `output`, the
    /// caller-supplied sink. Returns the size warnings gathered from the
    /// chunks; on an error, nothing is written.
    #[verifier::rlimit(90)]
    pub fn write_file(&self, entry: &HapiFile, output: &mut Vec<u8>) -> (r: Result<
        Vec<SizeWarning>,
        HapiError,
    >)
        requires
            self.reader.wf(),
        ensures
            match r {
                Ok(w) => file_data_of(self.reader.plain(), entry@) matches Ok(dd)
                    && final(output)@ == old(output)@ + dd.data && warn_views(w@) == dd.warns,
                Err(e) => file_data_of(self.reader.plain(), entry@) == Err::<DecodedV, HapiError>(
                    e,
                ) && final(output)@ == old(output)@,
            },
    {
        let len = self.reader.data.len();
        match entry.compression {
            HapiCompressionType::Uncompressed => {
                if (entry.contents_offset as u64) + (entry.extracted_size as u64) > (len as u64) {
                    return Err(HapiError::TruncatedData);
                }
                let mut bytes = self.reader.read_bytes(
                    entry.contents_offset as usize,
                    entry.extracted_size as usize,
                );
                output.append(&mut bytes);
                let w: Vec<SizeWarning> = Vec::new();
                proof {
                    assert(warn_views(w@) =~= Seq::<WarnV>::empty());
                }
                Ok(w)
            },
            _ => {
                let cc: u64 = ((entry.extracted_size as u64) + (HAPI_CHUNK_SIZE as u64) - 1) / (
                HAPI_CHUNK_SIZE as u64);
                if (entry.contents_offset as u64) + 4 * cc > (len as u64) {
                    return Err(HapiError::TruncatedData);
                }
                let start: u64 = (entry.contents_offset as u64) + 4 * cc;
                match read_chunks(&self.reader, start, cc) {
                    Ok((mut buf, warns)) => {
                        output.append(&mut buf);
                        Ok(warns)
                    },
                    Err(e) => Err(e),
                }
            },
        }
    }
}

/// Reads and decodes `count` chunks laid back to back from `start`,
/// returning the decoded bytes and the size warnings in order.
fn read_chunks(rd: &HapiReader, start: u64, count: u64) -> (r: Result<
    (Vec<u8>, Vec<SizeWarning>),
    HapiError,
>)
    requires
        rd.wf(),
        start <= rd.data@.len(),
    ensures
        match r {
            Ok(dw) => decode_chunks(rd.plain(), start as int, count as nat) == Ok::<
                DecodedV,
                HapiError,
            >(DecodedV { data: dw.0@, warns: warn_views(dw.1@) }),
            Err(e) => decode_chunks(rd.plain(), start as int, count as nat) == Err::<
                DecodedV,
                HapiError,
            >(e),
        },
{
    let ghost p = rd.plain();
    let len = rd.data.len();
    let mut cur: u64 = start;
    let mut buf: Vec<u8> = Vec::new();
    let mut warns: Vec<SizeWarning> = Vec::new();
    let mut i: u64 = 0;
    proof {
        lemma_with_decoded_nil(decode_chunks(p, start as int, count as nat));
        assert(warn_views(warns@) =~= Seq::<WarnV>::empty());
    }
    while i < count
        invariant
            rd.wf(),
            p == rd.plain(),
            len == rd.data@.len(),
            i <= count,
            cur <= len,
            len <= 0xFFFF_FFFFu64,
            decode_chunks(p, start as int, count as nat) == with_decoded(
                buf@,
                warn_views(warns@),
                decode_chunks(p, cur as int, (count - i) as nat),
            ),
        decreases count - i,
    {
        let c = match read_chunk_at(rd, cur) {
            Ok(c) => c,
            Err(e) => {
                return Err(e);
            },
        };
        proof {
            assert(c@.compression != HapiCompressionType::Uncompressed);
        }
        let ghost buf0 = buf@;
        let n = match c.decompress(&mut buf) {
            Ok(n) => n,
            Err(e) => {
                return Err(e);
            },
        };
        let ghost b = chunk_decoded(c@)->Ok_0;
        let ghost w0 = warns@;
        if n != (c.decompressed_size as usize) {
            warns.push(SizeWarning { declared: c.decompressed_size, actual: n });
        }
        proof {
            assert(warn_views(warns@) =~= warn_views(w0) + chunk_warn(c@, n as nat));
            assert(decode_chunks(p, cur as int, (count - i) as nat) == with_decoded(
                b,
                chunk_warn(c@, n as nat),
                decode_chunks(p, cur + 19 + c@.compressed_size, (count - i - 1) as nat),
            ));
            lemma_with_decoded_assoc(
                buf0,
                warn_views(w0),
                b,
                chunk_warn(c@, n as nat),
                decode_chunks(p, cur + 19 + c@.compressed_size, (count - i - 1) as nat),
            );
        }
        cur = cur + 19 + (c.compressed_size as u64);
        i = i + 1;
    }
    proof {
        lemma_with_decoded_nil(decode_chunks(p, cur as int, 0));
        assert(decode_chunks(p, start as int, count as nat) matches Ok(dd) && dd.data == buf@
            && dd.warns == warn_views(warns@)) by {
            assert(buf@ + Seq::<u8>::empty() =~= buf@);
            assert(warn_views(warns@) + Seq::<WarnV>::empty() =~= warn_views(warns@));
        }
    }
    Ok((buf, warns))
}

/// The tree of an opened archive is well-formed: its root is the `.`
/// directory, and every node under it records its parent's path joined
/// with its own name — so the extraction plan follows the recorded
/// paths, as `lemma_plan_matches_tree` states.
pub proof fn lemma_archive_tree_wf(a: HapiArchive)
    requires
        a.wf(),
    ensures
        dir_view(a.root_dir).path == "."@,
        crate::plan::entries_wf(dir_view(a.root_dir).entries, dir_view(a.root_dir).path),
{
    let d = a.reader.data@;
    let h = a.reader.header;
    crate::parse::lemma_parse_dir_wf(
        plain_of(d, h.key, h.toc_offset),
        h.toc_offset as int,
        "."@,
        Seq::empty(),
        d.len() as nat,
    );
}

/// Looks for a file with exactly the given full path among an entry and
/// everything below it, in stored order.
pub open spec fn find_in_entry(e: EntryV, path: Seq<char>) -> Option<FileV>
    decreases e,
{
    match e {
        EntryV::File(f) => if f.path == path {
            Some(f)
        } else {
            None
        },
        EntryV::Directory(d) => find_in_entries(d.entries, path),
    }
}

/// Looks for a file with exactly the given full path among entries and
/// their subtrees, in stored order.
pub open spec fn find_in_entries(s: Seq<EntryV>, path: Seq<char>) -> Option<FileV>
    decreases s,
{
    if s.len() == 0 {
        None
    } else {
        match find_in_entry(s[0], path) {
            Some(f) => Some(f),
            None => find_in_entries(s.drop_first(), path),
        }
    }
}

impl HapiEntry {
    /// Finds the first file under this entry whose full path equals
    /// `path`, searching depth-first in stored order.
    pub fn find_file(&self, path: &String) -> (r: Option<&HapiFile>)
        ensures
            match r {
                Some(f) => find_in_entry(self@, path@) == Some(file_view(*f)),
                None => find_in_entry(self@, path@) is None,
            },
        decreases *self,
    {
        match self {
            HapiEntry::File(f) => {
                if f.path.eq(path) {
                    Some(f)
                } else {
                    None
                }
            },
            HapiEntry::Directory(d) => d.find_file(path),
        }
    }
}

impl HapiFile {
    /// The file's full path within the archive, relative to the archive
    /// root, which is written `.`.
    pub fn path(&self) -> (r: &String)
        ensures
            r@ == self.path@,
    {
        &self.path
    }

    /// The result of `path` as a `&str`.
    pub fn path_str(&self) -> (r: &str)
        ensures
            r@ == self.path@,
    {
        self.path.as_str()
    }

    /// Just the file name as a `&str`.
    pub fn name(&self) -> (r: &str)
        ensures
            r@ == self.name@,
    {
        self.name.as_str()
    }
}

impl HapiDirectory {
    /// The directory's full path within the archive, relative to the
    /// archive root, which is written `.`.
    pub fn path(&self) -> (r: &String)
        ensures
            r@ == self.path@,
    {
        &self.path
    }

    /// The result of `path` as a `&str`.
    pub fn path_str(&self) -> (r: &str)
        ensures
            r@ == self.path@,
    {
        self.path.as_str()
    }

    /// Just the directory name as a `&str`; empty for the root.
    pub fn name(&self) -> (r: &str)
        ensures
            r@ == self.name@,
    {
        self.name.as_str()
    }

    /// The entries under this directory, in stored order.
    pub fn iter(&self) -> (r: &Vec<HapiEntry>)
        ensures
            r@ == self.contents@,
    {
        &self.contents
    }
}

impl HapiDirectory {
    /// Finds the first file under this directory whose full path equals
    /// `path`, searching depth-first in stored order.
    pub fn find_file(&self, path: &String) -> (r: Option<&HapiFile>)
        ensures
            match r {
                Some(f) => find_in_entries(dir_view(*self).entries, path@) == Some(file_view(*f)),
                None => find_in_entries(dir_view(*self).entries, path@) is None,
            },
        decreases *self,
    {
        let ghost s = dir_view(*self).entries;
        let n = self.contents.len();
        let mut i: usize = 0;
        proof {
            crate::types::lemma_entry_views(self.contents@);
            assert(s.skip(0) =~= s);
        }
        while i < n
            invariant
                n == self.contents@.len(),
                i <= n,
                s == dir_view(*self).entries,
                s.len() == n,
                forall|j: int|
                    0 <= j < n ==> s[j] == entry_view(self.contents@[j]),
                find_in_entries(s, path@) == find_in_entries(s.skip(i as int), path@),
            decreases n - i,
        {
            let found = self.contents[i].find_file(path);
            proof {
                assert(s.skip(i as int).len() > 0);
                assert(s.skip(i as int)[0] == s[i as int]);
            }
            match found {
                Some(f) => {
                    return Some(f);
                },
                None => {},
            }
            proof {
                assert(s.skip(i as int).drop_first() =~= s.skip(i + 1));
            }
            i = i + 1;
        }
        None
    }
}

} // verus!
