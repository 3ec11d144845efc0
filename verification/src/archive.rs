//! Files that hold other files: ZIP archives and compound files.
//!
//! Both are read from memory. What an entry holds is a matter of the
//! format and is left to the crates that read it; here it has a name only.

use vstd::prelude::*;

verus! {

// ---------------------------------------------------------------------------
// The outside types
// ---------------------------------------------------------------------------

#[verifier::external_type_specification]
#[verifier::external_body]
#[verifier::reject_recursive_types(T)]
pub struct ExCursor<T>(std::io::Cursor<T>);

#[verifier::external_type_specification]
#[verifier::external_body]
#[verifier::reject_recursive_types(R)]
pub struct ExZipArchive<R>(zip::ZipArchive<R>);

#[verifier::external_type_specification]
#[verifier::external_body]
#[verifier::reject_recursive_types(F)]
pub struct ExCompoundFile<F>(cfb::CompoundFile<F>);

// ---------------------------------------------------------------------------
// ZIP archives
// ---------------------------------------------------------------------------

/// The entries of the ZIP archive that bytes are, by name: nothing where
/// the bytes are no archive that can be opened, and else for each name
/// that an entry is found under the bytes of that entry, as far as they
/// could be unpacked.
pub uninterp spec fn zip_entries(archive: Seq<u8>) -> Option<Map<Seq<char>, Seq<u8>>>;

/// The entries that an opened archive holds, by name.
pub uninterp spec fn entries_held(zip: zip::ZipArchive<std::io::Cursor<&[u8]>>) -> Map<
    Seq<char>,
    Seq<u8>,
>;

/// What the ZIP archive `archive` holds under `name`: nothing at all where
/// the bytes are no archive, no entry where the archive has none of that
/// name, and else the bytes of the entry as far as they could be unpacked.
pub open spec fn zip_entry_content(archive: Seq<u8>, name: Seq<char>) -> Option<
    Option<Seq<u8>>,
> {
    match zip_entries(archive) {
        None => None,
        Some(entries) => if entries.contains_key(name) {
            Some(Some(entries[name]))
        } else {
            Some(None)
        },
    }
}

/// `zip::ZipArchive::new` over the bytes: the archive, or nothing where the
/// bytes are none that can be opened. Whether they are, and what the
/// archive then holds, depends on the bytes alone; what it is, is not
/// stated.
#[verifier::external_body]
fn open_zip<'a>(archive: &'a [u8]) -> (r: Option<zip::ZipArchive<std::io::Cursor<&'a [u8]>>>)
    ensures
        match r {
            Some(zip) => zip_entries(archive@) == Some(entries_held(zip)),
            None => zip_entries(archive@) is None,
        },
{
    zip::ZipArchive::new(std::io::Cursor::new(archive)).ok()
}

/// `ZipArchive::by_name` for the entry, read to its end: the bytes that the
/// archive holds under the name, or nothing where no entry is found under
/// it. Where reading stops on a fault, the bytes read until then are the
/// content.
#[verifier::external_body]
fn read_zip_entry(zip: &mut zip::ZipArchive<std::io::Cursor<&[u8]>>, name: &str) -> (r: Option<
    Vec<u8>,
>)
    ensures
        match r {
            Some(data) => entries_held(*old(zip)).contains_key(name@) && entries_held(
                *old(zip),
            )[name@] == data@,
            None => !entries_held(*old(zip)).contains_key(name@),
        },
{
    let mut entry = zip.by_name(name).ok()?;
    let mut data = Vec::new();
    let _ = std::io::Read::read_to_end(&mut entry, &mut data);
    Some(data)
}

/// Looks an entry up in a ZIP archive, given the bytes of the archive.
pub(crate) fn zip_entry(archive: &[u8], name: &str) -> (r: Option<Option<Vec<u8>>>)
    ensures
        lookup_view(r) == zip_entry_content(archive@, name@),
{
    match open_zip(archive) {
        None => None,
        Some(zip) => {
            let mut zip = zip;
            Some(read_zip_entry(&mut zip, name))
        },
    }
}

// ---------------------------------------------------------------------------
// Compound files
// ---------------------------------------------------------------------------

/// Whether `name` is the path of a stream at the top of a compound file,
/// written so that it means the same everywhere: a slash, and behind it
/// letters and digits of ASCII, at least one.
pub open spec fn is_stream_path(name: Seq<char>) -> bool {
    &&& name.len() >= 2
    &&& name[0] == '/'
    &&& forall|i: int|
        1 <= i < name.len() ==> {
            let c = #[trigger] name[i];
            ('a' <= c <= 'z') || ('A' <= c <= 'Z') || ('0' <= c <= '9')
        }
}

/// The streams of the compound file that bytes are, by their paths:
/// nothing where the bytes are no compound file that can be opened, and
/// else for each path that a stream is found at and can be read the bytes
/// of that stream.
pub uninterp spec fn compound_streams(file: Seq<u8>) -> Option<Map<Seq<char>, Seq<u8>>>;

/// The streams that an opened compound file holds, by their paths.
pub uninterp spec fn streams_held(compound: cfb::CompoundFile<std::io::Cursor<&[u8]>>) -> Map<
    Seq<char>,
    Seq<u8>,
>;

/// What the compound file `file` holds in the stream `name`: nothing at all
/// where the bytes are no compound file, no stream where there is none of
/// that name or it cannot be read, and else the bytes of the stream.
pub open spec fn compound_stream_content(file: Seq<u8>, name: Seq<char>) -> Option<
    Option<Seq<u8>>,
> {
    match compound_streams(file) {
        None => None,
        Some(streams) => if streams.contains_key(name) {
            Some(Some(streams[name]))
        } else {
            Some(None)
        },
    }
}

/// `cfb::CompoundFile::open` over the bytes: the compound file, or nothing
/// where the bytes are none that can be opened. Whether they are, and what
/// the file then holds, depends on the bytes alone; what it is, is not
/// stated.
#[verifier::external_body]
fn open_compound<'a>(file: &'a [u8]) -> (r: Option<cfb::CompoundFile<std::io::Cursor<&'a [u8]>>>)
    ensures
        match r {
            Some(compound) => compound_streams(file@) == Some(streams_held(compound)),
            None => compound_streams(file@) is None,
        },
{
    cfb::CompoundFile::open(std::io::Cursor::new(file)).ok()
}

/// `CompoundFile::open_stream` for the stream, read to its end: the bytes
/// that the file holds at the path, or nothing where no stream is found
/// there or it cannot be read to its end. The name is taken as a path,
/// which the platform reads; for a path of a slash, letters and digits it
/// is the same on all of them.
#[verifier::external_body]
fn read_compound_stream(
    compound: &mut cfb::CompoundFile<std::io::Cursor<&[u8]>>,
    name: &str,
) -> (r: Option<Vec<u8>>)
    requires
        is_stream_path(name@),
    ensures
        match r {
            Some(data) => streams_held(*old(compound)).contains_key(name@) && streams_held(
                *old(compound),
            )[name@] == data@,
            None => !streams_held(*old(compound)).contains_key(name@),
        },
{
    let mut stream = compound.open_stream(name).ok()?;
    let mut data = Vec::new();
    std::io::Read::read_to_end(&mut stream, &mut data).ok()?;
    Some(data)
}

/// Looks a stream up in a compound file, given the bytes of the file.
pub(crate) fn compound_stream(file: &[u8], name: &str) -> (r: Option<Option<Vec<u8>>>)
    requires
        is_stream_path(name@),
    ensures
        lookup_view(r) == compound_stream_content(file@, name@),
{
    match open_compound(file) {
        None => None,
        Some(compound) => {
            let mut compound = compound;
            Some(read_compound_stream(&mut compound, name))
        },
    }
}

/// The bytes of a lookup, as mathematical values.
pub open spec fn lookup_view(found: Option<Option<Vec<u8>>>) -> Option<Option<Seq<u8>>> {
    match found {
        None => None,
        Some(None) => Some(None),
        Some(Some(data)) => Some(Some(data@)),
    }
}

} // verus!
