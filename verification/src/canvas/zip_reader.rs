//! Reading an in-memory ZIP archive with the `zip` crate, entry by entry.
//! An open archive remembers the bytes it was opened from; only the
//! functions of this module build or change one, so what they state of an
//! archive is stated of the bytes it was really opened from.

use vstd::prelude::*;

verus! {

/// Whether `zip::ZipArchive::new` accepts these bytes as an archive.
pub uninterp spec fn zip_opens(bytes: Seq<u8>) -> bool;

/// The number of entries `zip::ZipArchive::len` reports for the archive
/// these bytes hold.
pub uninterp spec fn zip_entry_count(bytes: Seq<u8>) -> usize;

/// Entry `index` of the archive these bytes hold, as `by_index` opens it:
/// its `name()`, `is_dir()` and declared uncompressed `size()`; `None` when
/// the entry cannot be opened.
pub uninterp spec fn zip_entry_header(bytes: Seq<u8>, index: usize) -> Option<(Seq<char>, bool, u64)>;

/// The decompressed bytes of entry `index`, at most `limit` of them, as
/// `by_index`, `take(limit)` and `read_to_end` give them; `None` when the
/// entry cannot be opened, and `Some(None)` when decompression fails.
pub uninterp spec fn zip_entry_data(bytes: Seq<u8>, index: usize, limit: u64) -> Option<Option<Seq<u8>>>;

/// An archive opened from some bytes, read entry by entry.
pub struct OpenArchive<'a> {
    archive: zip::ZipArchive<std::io::Cursor<&'a [u8]>>,
    bytes: Ghost<Seq<u8>>,
}

impl<'a> OpenArchive<'a> {
    /// The bytes the archive was opened from.
    pub closed spec fn source(&self) -> Seq<u8> {
        self.bytes@
    }
}

/// Opens an in-memory archive with `zip::ZipArchive::new`; `None` when the
/// `zip` crate refuses it. The archive remembers `bytes`.
#[verifier::external_body]
pub(crate) fn open_archive<'a>(bytes: &'a [u8]) -> (r: Option<OpenArchive<'a>>)
    ensures
        r is Some <==> zip_opens(bytes@),
        r matches Some(open) ==> open.source() == bytes@,
{
    let archive = zip::ZipArchive::new(std::io::Cursor::new(bytes)).ok()?;
    Some(OpenArchive { archive, bytes: Ghost(bytes@) })
}

/// `zip::ZipArchive::len`: the number of entries the archive lists.
#[verifier::external_body]
pub(crate) fn entry_count(open: &OpenArchive) -> (n: usize)
    ensures
        n == zip_entry_count(open.source()),
{
    open.archive.len()
}

/// `zip::ZipArchive::by_index`, then the entry's `name()`, `is_dir()` and
/// `size()` (its uncompressed size as declared); `None` when the entry
/// cannot be opened. The archive still holds the same bytes.
#[verifier::external_body]
pub(crate) fn entry_header(open: &mut OpenArchive, index: usize) -> (r: Option<(String, bool, u64)>)
    ensures
        final(open).source() == old(open).source(),
        match zip_entry_header(old(open).source(), index) {
            None => r is None,
            Some((name, is_dir, size)) => r matches Some((n, d, z)) && n@ == name && d == is_dir && z
                == size,
        },
{
    let entry = open.archive.by_index(index).ok()?;
    Some((entry.name().to_owned(), entry.is_dir(), entry.size()))
}

/// `zip::ZipArchive::by_index`, then `std::io::Read::take` with `limit` and
/// `std::io::Read::read_to_end`: the entry's decompressed bytes, of which
/// `take` lets at most `limit` through; `None` when the entry cannot be
/// opened, and the read error when decompression fails. The archive still
/// holds the same bytes.
#[verifier::external_body]
pub(crate) fn entry_data(open: &mut OpenArchive, index: usize, limit: u64) -> (r: Option<
    Result<Vec<u8>, std::io::Error>,
>)
    ensures
        final(open).source() == old(open).source(),
        match zip_entry_data(old(open).source(), index, limit) {
            None => r is None,
            Some(None) => r matches Some(Err(_)),
            Some(Some(data)) => r matches Some(Ok(v)) && v@ == data,
        },
        r matches Some(Ok(data)) ==> data@.len() <= limit,
{
    let entry = open.archive.by_index(index).ok()?;
    let mut data = Vec::new();
    match std::io::Read::read_to_end(&mut std::io::Read::take(entry, limit), &mut data) {
        Ok(_) => Some(Ok(data)),
        Err(error) => Some(Err(error)),
    }
}

} // verus!
