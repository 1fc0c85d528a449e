use vstd::prelude::*;

use crate::err::{FormatCause, HapiError};
use crate::reader::HapiReader;
use crate::types::{dir_view, entry_view, entry_views, file_view, DirV, EntryV, FileV,
    HapiCompressionType, HapiDirectory, HapiEntry, HapiFile};
use crate::util::{find_nul, le32_at, lossy_of, utf8_lossy};

verus! {

/// A child's full path: its parent's path, a separator, and its name.
pub open spec fn join_path(parent: Seq<char>, name: Seq<char>) -> Seq<char> {
    parent + "/"@ + name
}

/// What the 9-byte file record at `off` of `p` describes: a payload
/// pointer, the declared extracted size, and a compression tag that must
/// be one of the three known values.
pub open spec fn parse_file_at(p: Seq<u8>, off: int, path: Seq<char>, name: Seq<char>) -> Result<
    FileV,
    HapiError,
> {
    if off < 0 || off + 9 > p.len() {
        Err(HapiError::TruncatedData)
    } else {
        let cb = p[off + 8];
        if cb == 0 || cb == 1 || cb == 2 {
            Ok(
                FileV {
                    path: path,
                    name: name,
                    contents_offset: le32_at(p, off),
                    extracted_size: le32_at(p, off + 4),
                    compression: if cb == 0 {
                        HapiCompressionType::Uncompressed
                    } else if cb == 1 {
                        HapiCompressionType::Lz77
                    } else {
                        HapiCompressionType::Zlib
                    },
                },
            )
        } else {
            Err(HapiError::FormatError(FormatCause::BadCompression))
        }
    }
}

/// What the directory block at `off` of `p` resolves to: an entry count,
/// a pointer to that many index records, and the entries those records
/// describe. `fuel` bounds the nesting depth; since every level needs its
/// own in-bounds block, a well-formed archive never exhausts a fuel of
/// `p.len()`, and only pointer cycles do.
pub open spec fn parse_dir_at(
    p: Seq<u8>,
    off: int,
    path: Seq<char>,
    name: Seq<char>,
    fuel: nat,
) -> Result<DirV, HapiError>
    decreases fuel, 0int,
{
    if fuel == 0 {
        Err(HapiError::FormatError(FormatCause::PointerCycle))
    } else if off < 0 || off + 8 > p.len() {
        Err(HapiError::TruncatedData)
    } else {
        let count = le32_at(p, off);
        let entries_ptr = le32_at(p, off + 4);
        match parse_entries_at(p, entries_ptr as int, count as int, path, (fuel - 1) as nat) {
            Ok(es) => Ok(DirV { path: path, name: name, entries: es }),
            Err(e) => Err(e),
        }
    }
}

/// What the 10-byte index record at `rec` of `p` resolves to: a pointer
/// to a zero-terminated name, a pointer to the entry's body, and a flag
/// byte that makes the body a directory block when it is 1 and a file
/// record otherwise. Only the record's first 9 bytes carry data; the
/// tenth is padding.
pub open spec fn parse_entry_at(p: Seq<u8>, rec: int, dir_path: Seq<char>, fuel: nat) -> Result<
    EntryV,
    HapiError,
>
    decreases fuel, 1int,
{
    if rec < 0 || rec + 9 > p.len() {
        Err(HapiError::TruncatedData)
    } else {
        let name_ptr = le32_at(p, rec);
        match find_nul(p, name_ptr as int) {
            None => Err(HapiError::TruncatedData),
            Some(end) => {
                let name = lossy_of(p.subrange(name_ptr as int, end));
                let body_ptr = le32_at(p, rec + 4);
                let child_path = join_path(dir_path, name);
                if p[rec + 8] == 1 {
                    match parse_dir_at(p, body_ptr as int, child_path, name, fuel) {
                        Ok(d) => Ok(EntryV::Directory(d)),
                        Err(e) => Err(e),
                    }
                } else {
                    match parse_file_at(p, body_ptr as int, child_path, name) {
                        Ok(f) => Ok(EntryV::File(f)),
                        Err(e) => Err(e),
                    }
                }
            },
        }
    }
}

/// What the `n` index records starting at `base` resolve to, in order,
/// each 10 bytes after the last; the first failure is the result.
pub open spec fn parse_entries_at(
    p: Seq<u8>,
    base: int,
    n: int,
    dir_path: Seq<char>,
    fuel: nat,
) -> Result<Seq<EntryV>, HapiError>
    decreases fuel, 2 + n,
{
    if n <= 0 {
        Ok(Seq::empty())
    } else {
        match parse_entry_at(p, base, dir_path, fuel) {
            Err(e) => Err(e),
            Ok(e) => match parse_entries_at(p, base + 10, n - 1, dir_path, fuel) {
                Err(e2) => Err(e2),
                Ok(rest) => Ok(seq![e] + rest),
            },
        }
    }
}

/// Prepends already-resolved entries to the outcome for the rest.
spec fn with_prefix(pre: Seq<EntryV>, r: Result<Seq<EntryV>, HapiError>) -> Result<
    Seq<EntryV>,
    HapiError,
> {
    match r {
        Ok(s) => Ok(pre + s),
        Err(e) => Err(e),
    }
}

proof fn lemma_with_prefix_nil(r: Result<Seq<EntryV>, HapiError>)
    ensures
        with_prefix(Seq::empty(), r) == r,
{
    match r {
        Ok(s) => {
            assert(Seq::empty() + s =~= s);
        },
        Err(_) => {},
    }
}

proof fn lemma_with_prefix_cons(pre: Seq<EntryV>, e: EntryV, r: Result<Seq<EntryV>, HapiError>)
    ensures
        with_prefix(pre, with_prefix(seq![e], r)) == with_prefix(pre.push(e), r),
{
    match r {
        Ok(s) => {
            assert(pre + (seq![e] + s) =~= pre.push(e) + s);
        },
        Err(_) => {},
    }
}

/// A parsed directory carries the path and name it was asked to carry,
/// and every node below it records its parent's path joined with its own
/// name: path accumulation is strictly additive.
pub proof fn lemma_parse_dir_wf(p: Seq<u8>, off: int, path: Seq<char>, name: Seq<char>, fuel: nat)
    ensures
        parse_dir_at(p, off, path, name, fuel) matches Ok(d) ==> d.path == path && d.name == name
            && crate::plan::entries_wf(d.entries, path),
    decreases fuel, 0int,
{
    if parse_dir_at(p, off, path, name, fuel) is Ok {
        let count = le32_at(p, off);
        let entries_ptr = le32_at(p, off + 4);
        lemma_parse_entries_wf(p, entries_ptr as int, count as int, path, (fuel - 1) as nat);
    }
}

/// A parsed entry is well-formed under the directory path it was parsed
/// for.
pub proof fn lemma_parse_entry_wf(p: Seq<u8>, rec: int, dir_path: Seq<char>, fuel: nat)
    ensures
        parse_entry_at(p, rec, dir_path, fuel) matches Ok(e) ==> crate::plan::entry_wf(
            e,
            dir_path,
        ),
    decreases fuel, 1int,
{
    if parse_entry_at(p, rec, dir_path, fuel) is Ok {
        let name_ptr = le32_at(p, rec);
        if let Some(end) = find_nul(p, name_ptr as int) {
            let name = lossy_of(p.subrange(name_ptr as int, end));
            let body_ptr = le32_at(p, rec + 4);
            let child_path = join_path(dir_path, name);
            if p[rec + 8] == 1 {
                lemma_parse_dir_wf(p, body_ptr as int, child_path, name, fuel);
            }
        }
    }
}

/// A parsed row of entries is well-formed under the directory path it
/// was parsed for.
pub proof fn lemma_parse_entries_wf(p: Seq<u8>, base: int, n: int, dir_path: Seq<char>, fuel: nat)
    ensures
        parse_entries_at(p, base, n, dir_path, fuel) matches Ok(s) ==> crate::plan::entries_wf(
            s,
            dir_path,
        ),
    decreases fuel, 2 + n,
{
    if n > 0 && parse_entries_at(p, base, n, dir_path, fuel) is Ok {
        lemma_parse_entry_wf(p, base, dir_path, fuel);
        lemma_parse_entries_wf(p, base + 10, n - 1, dir_path, fuel);
        let e = parse_entry_at(p, base, dir_path, fuel)->Ok_0;
        let rest = parse_entries_at(p, base + 10, n - 1, dir_path, fuel)->Ok_0;
        let s = seq![e] + rest;
        assert(s[0] == e);
        assert(s.drop_first() =~= rest);
    }
}

/// Joins a parent path and a child name with the path separator.
fn joined(parent: &String, name: &String) -> (r: String)
    ensures
        r@ == join_path(parent@, name@),
{
    let mut s = parent.clone();
    s.append("/");
    s.append(name.as_str());
    s
}

/// Reads the zero-terminated, lossily decoded name at offset `o`.
fn read_name(rd: &HapiReader, o: u32) -> (r: Result<String, HapiError>)
    requires
        rd.wf(),
    ensures
        match r {
            Ok(s) => find_nul(rd.plain(), o as int) matches Some(end) && s@ == lossy_of(
                rd.plain().subrange(o as int, end),
            ),
            Err(e) => find_nul(rd.plain(), o as int) is None && e == HapiError::TruncatedData,
        },
{
    let len = rd.data.len();
    if (o as u64) >= (len as u64) {
        return Err(HapiError::TruncatedData);
    }
    let mut buf: Vec<u8> = Vec::new();
    let mut i: usize = o as usize;
    proof {
        assert(buf@ =~= rd.plain().subrange(o as int, o as int));
    }
    while i < len
        invariant
            rd.wf(),
            len == rd.data@.len(),
            o as int <= i as int <= len as int,
            buf@ == rd.plain().subrange(o as int, i as int),
            find_nul(rd.plain(), o as int) == find_nul(rd.plain(), i as int),
        decreases len - i,
    {
        let b = rd.read_byte(i);
        if b == 0 {
            return Ok(utf8_lossy(buf.as_slice()));
        }
        buf.push(b);
        proof {
            assert(buf@ =~= rd.plain().subrange(o as int, i + 1));
        }
        i = i + 1;
    }
    Err(HapiError::TruncatedData)
}

/// Reads the file record at `off`, giving the file its resolved paths.
fn read_file_at(rd: &HapiReader, off: u32, path: String, name: String) -> (r: Result<
    HapiFile,
    HapiError,
>)
    requires
        rd.wf(),
    ensures
        match r {
            Ok(f) => parse_file_at(rd.plain(), off as int, path@, name@) == Ok::<
                FileV,
                HapiError,
            >(file_view(f)),
            Err(e) => parse_file_at(rd.plain(), off as int, path@, name@) == Err::<
                FileV,
                HapiError,
            >(e),
        },
{
    let len = rd.data.len();
    if (off as u64) + 9 > (len as u64) {
        return Err(HapiError::TruncatedData);
    }
    let contents_offset = rd.read_u32(off as usize);
    let extracted_size = rd.read_u32(off as usize + 4);
    let cb = rd.read_byte(off as usize + 8);
    let compression = if cb == 0 {
        HapiCompressionType::Uncompressed
    } else if cb == 1 {
        HapiCompressionType::Lz77
    } else if cb == 2 {
        HapiCompressionType::Zlib
    } else {
        return Err(HapiError::FormatError(FormatCause::BadCompression));
    };
    Ok(HapiFile { path, name, contents_offset, extracted_size, compression })
}

/// Resolves the directory block at `off`: its entry count, its index
/// records, and recursively everything they point at.
pub fn read_dir_at(rd: &HapiReader, off: u32, path: String, name: String, fuel: usize) -> (r:
    Result<HapiDirectory, HapiError>)
    requires
        rd.wf(),
    ensures
        match r {
            Ok(d) => parse_dir_at(rd.plain(), off as int, path@, name@, fuel as nat) == Ok::<
                DirV,
                HapiError,
            >(dir_view(d)),
            Err(e) => parse_dir_at(rd.plain(), off as int, path@, name@, fuel as nat) == Err::<
                DirV,
                HapiError,
            >(e),
        },
    decreases fuel, 0int,
{
    if fuel == 0 {
        return Err(HapiError::FormatError(FormatCause::PointerCycle));
    }
    let len = rd.data.len();
    if (off as u64) + 8 > (len as u64) {
        return Err(HapiError::TruncatedData);
    }
    let count = rd.read_u32(off as usize);
    let entries_ptr = rd.read_u32(off as usize + 4);
    match read_entries_at(rd, entries_ptr, count, &path, fuel - 1) {
        Ok(contents) => Ok(HapiDirectory { path, name, contents }),
        Err(e) => Err(e),
    }
}

/// Resolves the index record at `rec` into a file or a whole subtree.
fn read_entry_at(rd: &HapiReader, rec: u32, dir_path: &String, fuel: usize) -> (r: Result<
    HapiEntry,
    HapiError,
>)
    requires
        rd.wf(),
    ensures
        match r {
            Ok(e) => parse_entry_at(rd.plain(), rec as int, dir_path@, fuel as nat) == Ok::<
                EntryV,
                HapiError,
            >(entry_view(e)),
            Err(e) => parse_entry_at(rd.plain(), rec as int, dir_path@, fuel as nat) == Err::<
                EntryV,
                HapiError,
            >(e),
        },
    decreases fuel, 1int,
{
    let len = rd.data.len();
    if (rec as u64) + 9 > (len as u64) {
        return Err(HapiError::TruncatedData);
    }
    let name_ptr = rd.read_u32(rec as usize);
    let name = match read_name(rd, name_ptr) {
        Ok(s) => s,
        Err(e) => {
            return Err(e);
        },
    };
    let body_ptr = rd.read_u32(rec as usize + 4);
    let flag = rd.read_byte(rec as usize + 8);
    let child_path = joined(dir_path, &name);
    if flag == 1 {
        match read_dir_at(rd, body_ptr, child_path, name, fuel) {
            Ok(d) => Ok(HapiEntry::Directory(d)),
            Err(e) => Err(e),
        }
    } else {
        match read_file_at(rd, body_ptr, child_path, name) {
            Ok(f) => Ok(HapiEntry::File(f)),
            Err(e) => Err(e),
        }
    }
}

/// Resolves `n` index records laid out back to back from `base`.
fn read_entries_at(rd: &HapiReader, base: u32, n: u32, dir_path: &String, fuel: usize) -> (r:
    Result<Vec<HapiEntry>, HapiError>)
    requires
        rd.wf(),
    ensures
        match r {
            Ok(v) => parse_entries_at(rd.plain(), base as int, n as int, dir_path@, fuel as nat)
                == Ok::<Seq<EntryV>, HapiError>(entry_views(v@)),
            Err(e) => parse_entries_at(rd.plain(), base as int, n as int, dir_path@, fuel as nat)
                == Err::<Seq<EntryV>, HapiError>(e),
        },
    decreases fuel, 2int,
{
    let mut acc: Vec<HapiEntry> = Vec::new();
    let mut i: u32 = 0;
    proof {
        lemma_with_prefix_nil(
            parse_entries_at(rd.plain(), base as int, n as int, dir_path@, fuel as nat),
        );
        assert(entry_views(acc@) =~= Seq::<EntryV>::empty());
    }
    while i < n
        invariant
            rd.wf(),
            i <= n,
            parse_entries_at(rd.plain(), base as int, n as int, dir_path@, fuel as nat)
                == with_prefix(
                entry_views(acc@),
                parse_entries_at(
                    rd.plain(),
                    base + 10 * (i as int),
                    n - i,
                    dir_path@,
                    fuel as nat,
                ),
            ),
        decreases n - i,
    {
        let rec64: u64 = (base as u64) + 10 * (i as u64);
        let ghost cur = base + 10 * (i as int);
        let len = rd.data.len();
        if rec64 + 9 > (len as u64) {
            proof {
                assert(parse_entry_at(rd.plain(), cur, dir_path@, fuel as nat) == Err::<
                    EntryV,
                    HapiError,
                >(HapiError::TruncatedData));
            }
            return Err(HapiError::TruncatedData);
        }
        let rec: u32 = rec64 as u32;
        match read_entry_at(rd, rec, dir_path, fuel) {
            Ok(e) => {
                proof {
                    crate::types::lemma_entry_views_push(acc@, e);
                    lemma_with_prefix_cons(
                        entry_views(acc@),
                        entry_view(e),
                        parse_entries_at(
                            rd.plain(),
                            cur + 10,
                            n - i - 1,
                            dir_path@,
                            fuel as nat,
                        ),
                    );
                }
                acc.push(e);
            },
            Err(e) => {
                return Err(e);
            },
        }
        i = i + 1;
    }
    proof {
        assert(entry_views(acc@) + Seq::<EntryV>::empty() =~= entry_views(acc@));
    }
    Ok(acc)
}

} // verus!
