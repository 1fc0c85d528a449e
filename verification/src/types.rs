use vstd::prelude::*;

verus! {

/// How a file's payload is stored: verbatim, as custom-LZ77 chunks, or as
/// zlib chunks.
#[derive(Clone, Copy, PartialEq, Eq, Structural, Debug)]
pub enum HapiCompressionType {
    Uncompressed,
    Lz77,
    Zlib,
}

/// A file within an archive.
#[derive(Clone, Debug)]
pub struct HapiFile {
    /// The file's full path within the archive, relative to the archive
    /// root, which is written `.`.
    pub path: String,
    /// Just the file's name, the last segment of `path`.
    pub name: String,
    /// Where the file's payload starts, absolute from archive start.
    pub contents_offset: u32,
    /// The size of the extracted file in bytes, as the archive declares it.
    pub extracted_size: u32,
    /// How the payload is compressed, if at all.
    pub compression: HapiCompressionType,
}

/// A directory within an archive.
#[derive(Debug)]
pub struct HapiDirectory {
    /// The directory's full path within the archive, relative to the
    /// archive root, which is written `.`.
    pub path: String,
    /// Just the directory's name; empty for the root.
    pub name: String,
    /// The entries under this directory, in the order the archive stores
    /// them.
    pub contents: Vec<HapiEntry>,
}

/// An entry within an archive: either a file or a directory.
#[derive(Debug)]
pub enum HapiEntry {
    File(HapiFile),
    Directory(HapiDirectory),
}

/// The mathematical shape of a file entry.
pub struct FileV {
    pub path: Seq<char>,
    pub name: Seq<char>,
    pub contents_offset: u32,
    pub extracted_size: u32,
    pub compression: HapiCompressionType,
}

/// The mathematical shape of a directory: its paths and its entries.
pub struct DirV {
    pub path: Seq<char>,
    pub name: Seq<char>,
    pub entries: Seq<EntryV>,
}

/// The mathematical shape of an entry.
pub enum EntryV {
    File(FileV),
    Directory(DirV),
}

/// The shape of a file value.
pub open spec fn file_view(f: HapiFile) -> FileV {
    FileV {
        path: f.path@,
        name: f.name@,
        contents_offset: f.contents_offset,
        extracted_size: f.extracted_size,
        compression: f.compression,
    }
}

/// The shape of an entry value.
pub open spec fn entry_view(e: HapiEntry) -> EntryV
    decreases e,
{
    match e {
        HapiEntry::File(f) => EntryV::File(file_view(f)),
        HapiEntry::Directory(d) => EntryV::Directory(
            DirV { path: d.path@, name: d.name@, entries: entry_views(d.contents@) },
        ),
    }
}

/// The shapes of a sequence of entry values, in order.
pub open spec fn entry_views(s: Seq<HapiEntry>) -> Seq<EntryV>
    decreases s,
{
    if s.len() == 0 {
        Seq::empty()
    } else {
        entry_views(s.drop_last()).push(entry_view(s.last()))
    }
}

/// Appending an entry appends its shape.
pub proof fn lemma_entry_views_push(s: Seq<HapiEntry>, e: HapiEntry)
    ensures
        entry_views(s.push(e)) == entry_views(s).push(entry_view(e)),
{
    assert(s.push(e).drop_last() =~= s);
    assert(s.push(e).last() == e);
}

/// `entry_views` maps the sequence elementwise.
pub proof fn lemma_entry_views(s: Seq<HapiEntry>)
    ensures
        entry_views(s).len() == s.len(),
        forall|i: int| 0 <= i < s.len() ==> entry_views(s)[i] == entry_view(s[i]),
    decreases s.len(),
{
    if s.len() > 0 {
        lemma_entry_views(s.drop_last());
    }
}

/// The shape of a directory value.
pub open spec fn dir_view(d: HapiDirectory) -> DirV {
    DirV { path: d.path@, name: d.name@, entries: entry_views(d.contents@) }
}

impl View for HapiFile {
    type V = FileV;

    open spec fn view(&self) -> FileV {
        file_view(*self)
    }
}

impl View for HapiDirectory {
    type V = DirV;

    open spec fn view(&self) -> DirV {
        dir_view(*self)
    }
}

impl View for HapiEntry {
    type V = EntryV;

    open spec fn view(&self) -> EntryV {
        entry_view(*self)
    }
}

impl HapiEntry {
    /// Returns the file this entry holds, if it holds one.
    pub fn as_file(&self) -> (r: Option<&HapiFile>)
        ensures
            match self {
                HapiEntry::File(f) => r matches Some(g) && g == f,
                HapiEntry::Directory(_) => r is None,
            },
    {
        if let HapiEntry::File(file) = self {
            Some(file)
        } else {
            None
        }
    }

    /// Returns the directory this entry holds, if it holds one.
    pub fn as_dir(&self) -> (r: Option<&HapiDirectory>)
        ensures
            match self {
                HapiEntry::Directory(d) => r matches Some(g) && g == d,
                HapiEntry::File(_) => r is None,
            },
    {
        if let HapiEntry::Directory(dir) = self {
            Some(dir)
        } else {
            None
        }
    }
}

} // verus!
