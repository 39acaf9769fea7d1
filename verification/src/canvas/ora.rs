//! OpenRaster archive checks: the ZIP central directory is validated from raw
//! bytes before any entry is decompressed.

use vstd::prelude::*;
use vstd::string::StringExecFns;
use vstd::utf8::{encode_utf8, valid_utf8};

use crate::canvas::document::{BlendMode, LayerId, NodeKind};
use crate::canvas::formats::{FormatWarning, LossPolicy};
use crate::canvas::error::{CoreError, FormatError};
use crate::canvas::svg::{find_folded, holds_folded};
use crate::canvas::zip_reader::{
    entry_count, entry_data, entry_header, open_archive, zip_entry_count, zip_entry_data, zip_entry_header,
    zip_opens,
};
use crate::text::{is_utf8, push_char, push_chars, text_of_encoding, lemma_encode_utf8_concat};

verus! {

/// The canonical `mimetype` entry of an ORA archive: `image/openraster`.
pub const MIMETYPE: [u8; 16] = [105, 109, 97, 103, 101, 47, 111, 112, 101, 110, 114, 97, 115, 116, 101, 114];
pub const MAX_ARCHIVE_ENTRIES: usize = 8_192;
pub const MAX_EXPANDED_BYTES: u64 = 512 * 1024 * 1024;
pub const MAX_ENTRY_BYTES: u64 = 256 * 1024 * 1024;
pub const MAX_XML_BYTES: usize = 4 * 1024 * 1024;

/// Little-endian 16-bit value at `offset`.
pub open spec fn le16(s: Seq<u8>, offset: int) -> int {
    s[offset] as int + 256 * (s[offset + 1] as int)
}

/// Little-endian 32-bit value at `offset`.
pub open spec fn le32(s: Seq<u8>, offset: int) -> int {
    le16(s, offset) + 65536 * le16(s, offset + 2)
}

/// The four bytes at `offset` are `a b c d`.
pub open spec fn signature_at(s: Seq<u8>, offset: int, a: u8, b: u8, c: u8, d: u8) -> bool {
    &&& 0 <= offset
    &&& offset + 4 <= s.len()
    &&& s[offset] == a
    &&& s[offset + 1] == b
    &&& s[offset + 2] == c
    &&& s[offset + 3] == d
}

/// Reads a little-endian `u16` when two bytes are available at `offset`.
pub fn little_u16(bytes: &[u8], offset: usize) -> (r: Option<u16>)
    ensures
        offset + 2 <= bytes@.len() ==> r == Some(le16(bytes@, offset as int) as u16),
        offset + 2 > bytes@.len() ==> r is None,
{
    if offset > bytes.len() || bytes.len() - offset < 2 {
        return None;
    }
    Some((bytes[offset] as u16) + 256 * (bytes[offset + 1] as u16))
}

/// Reads a little-endian `u32` when four bytes are available at `offset`.
pub fn little_u32(bytes: &[u8], offset: usize) -> (r: Option<u32>)
    ensures
        offset + 4 <= bytes@.len() ==> r == Some(le32(bytes@, offset as int) as u32),
        offset + 4 > bytes@.len() ==> r is None,
{
    if offset > bytes.len() || bytes.len() - offset < 4 {
        return None;
    }
    let low = (bytes[offset] as u32) + 256 * (bytes[offset + 1] as u32);
    let high = (bytes[offset + 2] as u32) + 256 * (bytes[offset + 3] as u32);
    Some(low + 65536 * high)
}

fn signature(bytes: &[u8], offset: usize, a: u8, b: u8, c: u8, d: u8) -> (r: bool)
    ensures
        r == signature_at(bytes@, offset as int, a, b, c, d),
{
    offset <= bytes.len() && bytes.len() - offset >= 4 && bytes[offset] == a && bytes[offset
        + 1] == b && bytes[offset + 2] == c && bytes[offset + 3] == d
}

/// Scans a ZIP extra-field block from `position`: `Ok(true)` when a ZIP64
/// record (id 1) is found, `Ok(false)` at the end, and an error when a record
/// header or body runs past the block.
pub open spec fn zip64_scan(extra: Seq<u8>, position: int) -> Result<bool, FormatError>
    decreases extra.len() - position,
{
    if position < 0 || position >= extra.len() {
        Ok(false)
    } else if position + 4 > extra.len() {
        Err(FormatError::Malformed("invalid ORA ZIP extra field"))
    } else {
        let next = position + 4 + le16(extra, position + 2);
        if next > extra.len() {
            Err(FormatError::Malformed("invalid ORA ZIP extra field"))
        } else if le16(extra, position) == 1 {
            Ok(true)
        } else {
            zip64_scan(extra, next)
        }
    }
}

/// Whether a ZIP extra-field block declares a ZIP64 record.
pub fn has_zip64_extra(extra: &[u8]) -> (r: Result<bool, FormatError>)
    ensures
        r == zip64_scan(extra@, 0),
{
    let mut position: usize = 0;
    while position < extra.len()
        invariant
            position <= extra@.len(),
            zip64_scan(extra@, position as int) == zip64_scan(extra@, 0),
        decreases extra@.len() - position,
    {
        let id = match little_u16(extra, position) {
            Some(id) => id,
            None => return Err(FormatError::Malformed("invalid ORA ZIP extra field")),
        };
        let size = match little_u16(extra, position + 2) {
            Some(size) => size as usize,
            None => return Err(FormatError::Malformed("invalid ORA ZIP extra field")),
        };
        if size > extra.len() - (position + 4) {
            return Err(FormatError::Malformed("invalid ORA ZIP extra field"));
        }
        let next = position + 4 + size;
        if id == 1 {
            return Ok(true);
        }
        position = next;
    }
    Ok(false)
}

/// `/`, `\`, and `.` as bytes.
pub open spec fn is_slash(b: u8) -> bool {
    b == 47u8
}

/// A path component starts at `i`.
pub open spec fn component_starts(p: Seq<u8>, i: int) -> bool {
    i == 0 || is_slash(p[i - 1])
}

/// A path component ends just before `i`.
pub open spec fn component_ends(p: Seq<u8>, i: int) -> bool {
    i == p.len() || is_slash(p[i])
}

/// A `.` component starts at `i`.
pub open spec fn dot_component_at(p: Seq<u8>, i: int) -> bool {
    &&& 0 <= i < p.len()
    &&& component_starts(p, i)
    &&& p[i] == 46u8
    &&& component_ends(p, i + 1)
}

/// A `..` component starts at `i`.
pub open spec fn dot_dot_component_at(p: Seq<u8>, i: int) -> bool {
    &&& 0 <= i
    &&& i + 1 < p.len()
    &&& component_starts(p, i)
    &&& p[i] == 46u8
    &&& p[i + 1] == 46u8
    &&& component_ends(p, i + 2)
}

/// A relative path of non-empty `/`-separated components, none of them `.`
/// or `..`, without backslashes.
pub open spec fn safe_path_spec(p: Seq<u8>) -> bool {
    &&& p.len() > 0
    &&& !is_slash(p[0])
    &&& !is_slash(p.last())
    &&& forall|i: int| 0 <= i < p.len() ==> #[trigger] p[i] != 92u8
    &&& forall|i: int| 0 <= i < p.len() - 1 ==> !(is_slash(#[trigger] p[i]) && is_slash(p[i + 1]))
    &&& forall|i: int| !#[trigger] dot_component_at(p, i)
    &&& forall|i: int| !#[trigger] dot_dot_component_at(p, i)
}

/// Whether an archive path is relative and free of traversal, with every
/// `/`-separated component non-empty and neither `.` nor `..`.
pub fn safe_path(path: &[u8]) -> (r: bool)
    ensures
        r == safe_path_spec(path@),
{
    let n = path.len();
    if n == 0 || path[0] == 47u8 || path[n - 1] == 47u8 {
        return false;
    }
    let mut i: usize = 0;
    while i < n
        invariant
            n == path@.len(),
            0 < n,
            !is_slash(path@[0]),
            !is_slash(path@.last()),
            i <= n,
            forall|j: int| 0 <= j < i ==> #[trigger] path@[j] != 92u8,
            forall|j: int| 0 <= j < i && j < n - 1 ==> !(is_slash(#[trigger] path@[j]) && is_slash(path@[j + 1])),
            forall|j: int| 0 <= j < i ==> !#[trigger] dot_component_at(path@, j),
            forall|j: int| 0 <= j < i ==> !#[trigger] dot_dot_component_at(path@, j),
        decreases n - i,
    {
        let b = path[i];
        if b == 92u8 {
            return false;
        }
        if b == 47u8 && i + 1 < n && path[i + 1] == 47u8 {
            return false;
        }
        let starts = i == 0 || path[i - 1] == 47u8;
        if starts && b == 46u8 && (i + 1 == n || path[i + 1] == 47u8) {
            proof {
                assert(dot_component_at(path@, i as int));
            }
            return false;
        }
        if starts && b == 46u8 && i + 1 < n && path[i + 1] == 46u8 && (i + 2 == n || path[i + 2]
            == 47u8) {
            proof {
                assert(dot_dot_component_at(path@, i as int));
            }
            return false;
        }
        i = i + 1;
    }
    proof {
        assert forall|j: int| !#[trigger] dot_component_at(path@, j) by {
            if 0 <= j < n {
            }
        }
        assert forall|j: int| !#[trigger] dot_dot_component_at(path@, j) by {
            if 0 <= j < n {
            }
        }
    }
    true
}


/// Offset of the last end-of-central-directory signature at or below
/// `offset` and at or above `start`.
pub open spec fn eocd_search(s: Seq<u8>, offset: int, start: int) -> Option<int>
    decreases offset - start + 1,
{
    if offset < start || offset < 0 {
        None
    } else if signature_at(s, offset, 0x50, 0x4b, 0x05, 0x06) {
        Some(offset)
    } else {
        eocd_search(s, offset - 1, start)
    }
}

/// The end-of-central-directory record: the last signature within the final
/// 65557 bytes.
pub open spec fn eocd_offset(s: Seq<u8>) -> Option<int> {
    let start = if s.len() > 65557 { s.len() - 65557 } else { 0 };
    let end = if s.len() > 3 { s.len() - 3 } else { 0 };
    eocd_search(s, end - 1, start)
}

pub open spec fn entry_error() -> FormatError {
    FormatError::Malformed("invalid ORA ZIP directory entry")
}

pub open spec fn local_error() -> FormatError {
    FormatError::Malformed("invalid ORA ZIP local entry")
}

pub open spec fn zip64_error() -> FormatError {
    FormatError::UnsupportedFeature("multi-disk or ZIP64 ORA archive")
}

pub open spec fn directory_error() -> FormatError {
    FormatError::Malformed("invalid ORA ZIP directory")
}

/// Central-directory fields an entry's local header is checked against.
pub struct CentralFields {
    pub flags: int,
    pub compression: int,
    pub checksum: int,
    pub compressed: int,
    pub uncompressed: int,
    pub name: Seq<u8>,
}

/// Checks the local header at `local` against the central fields.
pub open spec fn local_spec(s: Seq<u8>, local: int, central: CentralFields, central_offset: int) -> Result<
    (),
    FormatError,
> {
    if !signature_at(s, local, 0x50, 0x4b, 0x03, 0x04) || local + 30 > s.len() {
        Err(local_error())
    } else {
        let name_end = local + 30 + le16(s, local + 26);
        let extra_end = name_end + le16(s, local + 28);
        if name_end > s.len() || extra_end > s.len() {
            Err(local_error())
        } else {
            match zip64_scan(s.subrange(name_end, extra_end), 0) {
                Err(e) => Err(e),
                Ok(true) => Err(zip64_error()),
                Ok(false) => {
                    let checksum = le32(s, local + 14);
                    let compressed = le32(s, local + 18);
                    let uncompressed = le32(s, local + 22);
                    let uses_descriptor = (central.flags / 8) % 2 == 1;
                    let descriptor_valid = (checksum == 0 || checksum == central.checksum) && (
                    compressed == 0 || compressed == central.compressed) && (uncompressed == 0
                        || uncompressed == central.uncompressed);
                    if le16(s, local + 6) != central.flags || le16(s, local + 8)
                        != central.compression || s.subrange(local + 30, name_end) != central.name
                        || (!uses_descriptor && (checksum != central.checksum || compressed
                        != central.compressed || uncompressed != central.uncompressed)) || (
                    uses_descriptor && !descriptor_valid) || extra_end + central.compressed
                        > central_offset {
                        Err(FormatError::Malformed("ORA ZIP local/central mismatch"))
                    } else {
                        Ok(())
                    }
                },
            }
        }
    }
}

/// Checks the central-directory entry at `pos`, given the names seen so far
/// and the expanded size so far; yields the next position, the new expanded
/// size, and the entry's name.
#[verifier::opaque]
pub open spec fn entry_spec(
    s: Seq<u8>,
    pos: int,
    central_offset: int,
    names: Seq<Seq<u8>>,
    expanded: int,
) -> Result<(int, int, Seq<u8>), FormatError> {
    if !signature_at(s, pos, 0x50, 0x4b, 0x01, 0x02) || pos + 10 > s.len() {
        Err(entry_error())
    } else if le16(s, pos + 8) % 2 == 1 {
        Err(FormatError::UnsupportedFeature("encrypted ORA ZIP entry"))
    } else if pos + 46 > s.len() {
        Err(entry_error())
    } else {
        let compressed = le32(s, pos + 20);
        let uncompressed = le32(s, pos + 24);
        let local = le32(s, pos + 42);
        if compressed == 0xffff_ffff || uncompressed == 0xffff_ffff || local == 0xffff_ffff {
            Err(zip64_error())
        } else if uncompressed > MAX_ENTRY_BYTES {
            Err(FormatError::LimitExceeded("ORA entry bytes"))
        } else if expanded + uncompressed > MAX_EXPANDED_BYTES {
            Err(FormatError::LimitExceeded("ORA expanded bytes"))
        } else {
            let name_end = pos + 46 + le16(s, pos + 28);
            if name_end > s.len() {
                Err(entry_error())
            } else {
                let name = s.subrange(pos + 46, name_end);
                let extra_end = name_end + le16(s, pos + 30);
                if !valid_utf8(name) {
                    Err(FormatError::Malformed("non-UTF-8 ORA ZIP path"))
                } else if !safe_path_spec(name) || names.contains(name) {
                    Err(FormatError::Malformed("unsafe or duplicate ORA path"))
                } else if extra_end > s.len() {
                    Err(entry_error())
                } else {
                    match zip64_scan(s.subrange(name_end, extra_end), 0) {
                        Err(e) => Err(e),
                        Ok(true) => Err(zip64_error()),
                        Ok(false) => {
                            let central = CentralFields {
                                flags: le16(s, pos + 8),
                                compression: le16(s, pos + 10),
                                checksum: le32(s, pos + 16),
                                compressed,
                                uncompressed,
                                name,
                            };
                            match local_spec(s, local, central, central_offset) {
                                Err(e) => Err(e),
                                Ok(()) => {
                                    let next = extra_end + le16(s, pos + 32);
                                    if next > usize::MAX {
                                        Err(entry_error())
                                    } else {
                                        Ok((next, expanded + uncompressed, name))
                                    }
                                },
                            }
                        },
                    }
                }
            }
        }
    }
}

/// Checks `count` consecutive entries starting at `pos`; yields the position
/// after the last one.
pub open spec fn entries_spec(
    s: Seq<u8>,
    pos: int,
    count: nat,
    central_offset: int,
    names: Seq<Seq<u8>>,
    expanded: int,
) -> Result<int, FormatError>
    decreases count,
{
    if count == 0 {
        Ok(pos)
    } else {
        match entry_spec(s, pos, central_offset, names, expanded) {
            Err(e) => Err(e),
            Ok((next, total, name)) => entries_spec(
                s,
                next,
                (count - 1) as nat,
                central_offset,
                names.push(name),
                total,
            ),
        }
    }
}

/// The whole central-directory check of an ORA archive.
pub open spec fn central_directory_spec(s: Seq<u8>) -> Result<(), FormatError> {
    match eocd_offset(s) {
        None => Err(FormatError::Malformed("missing ORA ZIP directory")),
        Some(e) => if e + 12 > s.len() {
            Err(directory_error())
        } else {
            let entries = le16(s, e + 10);
            if le16(s, e + 4) != 0 || le16(s, e + 6) != 0 || le16(s, e + 8) != entries || entries
                == 0xffff {
                Err(zip64_error())
            } else if entries > MAX_ARCHIVE_ENTRIES {
                Err(FormatError::LimitExceeded("ORA entry count"))
            } else if e + 20 > s.len() {
                Err(directory_error())
            } else {
                let size = le32(s, e + 12);
                let offset = le32(s, e + 16);
                if size == 0xffff_ffff || offset == 0xffff_ffff {
                    Err(zip64_error())
                } else if offset + size > e {
                    Err(FormatError::Malformed("invalid ORA ZIP directory bounds"))
                } else {
                    match entries_spec(s, offset, entries as nat, offset, Seq::empty(), 0) {
                        Err(x) => Err(x),
                        Ok(end) => if end != offset + size {
                            Err(FormatError::Malformed("invalid ORA ZIP directory size"))
                        } else {
                            Ok(())
                        },
                    }
                }
            }
        },
    }
}

/// The names seen so far.
pub open spec fn names_view(names: Seq<Vec<u8>>) -> Seq<Seq<u8>> {
    names.map_values(|name: Vec<u8>| name@)
}

fn bytes_equal(a: &[u8], b: &[u8]) -> (r: bool)
    ensures
        r == (a@ == b@),
{
    if a.len() != b.len() {
        return false;
    }
    let mut i: usize = 0;
    while i < a.len()
        invariant
            a@.len() == b@.len(),
            i <= a@.len(),
            forall|j: int| 0 <= j < i ==> a@[j] == b@[j],
        decreases a@.len() - i,
    {
        if a[i] != b[i] {
            return false;
        }
        i = i + 1;
    }
    proof {
        assert(a@ =~= b@);
    }
    true
}

fn contains_name(names: &Vec<Vec<u8>>, name: &[u8]) -> (r: bool)
    ensures
        r == names_view(names@).contains(name@),
{
    let mut i: usize = 0;
    while i < names.len()
        invariant
            i <= names@.len(),
            forall|j: int| 0 <= j < i ==> names@[j]@ != name@,
        decreases names@.len() - i,
    {
        if bytes_equal(names[i].as_slice(), name) {
            proof {
                assert(names_view(names@)[i as int] == name@);
            }
            return true;
        }
        i = i + 1;
    }
    proof {
        if names_view(names@).contains(name@) {
            let j = choose|j: int| 0 <= j < names_view(names@).len() && names_view(names@)[j] == name@;
            assert(names@[j]@ == name@);
        }
    }
    false
}

fn check_local(
    bytes: &[u8],
    local: usize,
    flags: u16,
    compression: u16,
    checksum: u32,
    compressed: u32,
    uncompressed: u32,
    name: &[u8],
    central_offset: usize,
) -> (r: Result<(), FormatError>)
    requires
        local <= u32::MAX,
        central_offset <= u32::MAX,
    ensures
        r == local_spec(
            bytes@,
            local as int,
            CentralFields {
                flags: flags as int,
                compression: compression as int,
                checksum: checksum as int,
                compressed: compressed as int,
                uncompressed: uncompressed as int,
                name: name@,
            },
            central_offset as int,
        ),
{
    if !signature(bytes, local, 0x50, 0x4b, 0x03, 0x04) || bytes.len() - local < 30 {
        return Err(FormatError::Malformed("invalid ORA ZIP local entry"));
    }
    let local_flags = little_u16(bytes, local + 6).unwrap();
    let local_compression = little_u16(bytes, local + 8).unwrap();
    let local_checksum = little_u32(bytes, local + 14).unwrap();
    let local_compressed = little_u32(bytes, local + 18).unwrap();
    let local_uncompressed = little_u32(bytes, local + 22).unwrap();
    let local_name_len = little_u16(bytes, local + 26).unwrap() as usize;
    let local_extra_len = little_u16(bytes, local + 28).unwrap() as usize;
    let local_name_start = local + 30;
    if local_name_len > bytes.len() - local_name_start {
        return Err(FormatError::Malformed("invalid ORA ZIP local entry"));
    }
    let local_name_end = local_name_start + local_name_len;
    if local_extra_len > bytes.len() - local_name_end {
        return Err(FormatError::Malformed("invalid ORA ZIP local entry"));
    }
    let local_extra_end = local_name_end + local_extra_len;
    let local_name = &bytes[local_name_start..local_name_end];
    let local_extra = &bytes[local_name_end..local_extra_end];
    let uses_descriptor = flags & 0x0008 != 0;
    proof {
        assert((flags & 0x0008 != 0) == ((flags / 8) % 2 == 1)) by (bit_vector);
    }
    let descriptor_values_valid = (local_checksum == 0 || local_checksum == checksum) && (
    local_compressed == 0 || local_compressed == compressed) && (local_uncompressed == 0
        || local_uncompressed == uncompressed);
    match has_zip64_extra(local_extra) {
        Err(e) => return Err(e),
        Ok(true) => return Err(FormatError::UnsupportedFeature("multi-disk or ZIP64 ORA archive")),
        Ok(false) => {},
    }
    if local_flags != flags || local_compression != compression || !bytes_equal(local_name, name)
        || (!uses_descriptor && (local_checksum != checksum || local_compressed != compressed
        || local_uncompressed != uncompressed)) || (uses_descriptor && !descriptor_values_valid)
        || compressed as usize > central_offset || local_extra_end > central_offset
        - compressed as usize {
        return Err(FormatError::Malformed("ORA ZIP local/central mismatch"));
    }
    Ok(())
}

fn check_entry(
    bytes: &[u8],
    pos: usize,
    central_offset: usize,
    names: &Vec<Vec<u8>>,
    expanded: u64,
) -> (r: Result<(usize, u64, Vec<u8>), FormatError>)
    requires
        central_offset <= u32::MAX,
        expanded <= MAX_EXPANDED_BYTES,
    ensures
        match entry_spec(bytes@, pos as int, central_offset as int, names_view(names@), expanded as int) {
            Ok((next, total, name)) => r matches Ok((n, t, v)) && n == next && t == total && v@
                == name,
            Err(e) => r == Err::<(usize, u64, Vec<u8>), FormatError>(e),
        },
        r matches Ok((n, t, v)) ==> t <= MAX_EXPANDED_BYTES,
{
    reveal(entry_spec);
    if !signature(bytes, pos, 0x50, 0x4b, 0x01, 0x02) || bytes.len() - pos < 10 {
        return Err(FormatError::Malformed("invalid ORA ZIP directory entry"));
    }
    let flags = little_u16(bytes, pos + 8).unwrap();
    proof {
        assert((flags & 1 != 0) == (flags % 2 == 1)) by (bit_vector);
    }
    if flags & 1 != 0 {
        return Err(FormatError::UnsupportedFeature("encrypted ORA ZIP entry"));
    }
    if bytes.len() - pos < 46 {
        return Err(FormatError::Malformed("invalid ORA ZIP directory entry"));
    }
    let compression = little_u16(bytes, pos + 10).unwrap();
    let checksum = little_u32(bytes, pos + 16).unwrap();
    let compressed_size = little_u32(bytes, pos + 20).unwrap();
    let uncompressed_size = little_u32(bytes, pos + 24).unwrap();
    let local_offset = little_u32(bytes, pos + 42).unwrap();
    if compressed_size == u32::MAX || uncompressed_size == u32::MAX || local_offset == u32::MAX {
        return Err(FormatError::UnsupportedFeature("multi-disk or ZIP64 ORA archive"));
    }
    if uncompressed_size as u64 > MAX_ENTRY_BYTES {
        return Err(FormatError::LimitExceeded("ORA entry bytes"));
    }
    let total = expanded + uncompressed_size as u64;
    if total > MAX_EXPANDED_BYTES {
        return Err(FormatError::LimitExceeded("ORA expanded bytes"));
    }
    let name_len = little_u16(bytes, pos + 28).unwrap() as usize;
    let extra_len = little_u16(bytes, pos + 30).unwrap() as usize;
    let comment_len = little_u16(bytes, pos + 32).unwrap() as usize;
    let name_start = pos + 46;
    if name_len > bytes.len() - name_start {
        return Err(FormatError::Malformed("invalid ORA ZIP directory entry"));
    }
    let name_end = name_start + name_len;
    let name = &bytes[name_start..name_end];
    if !is_utf8(name) {
        return Err(FormatError::Malformed("non-UTF-8 ORA ZIP path"));
    }
    if !safe_path(name) || contains_name(names, name) {
        return Err(FormatError::Malformed("unsafe or duplicate ORA path"));
    }
    if extra_len > bytes.len() - name_end {
        return Err(FormatError::Malformed("invalid ORA ZIP directory entry"));
    }
    let extra_end = name_end + extra_len;
    let central_extra = &bytes[name_end..extra_end];
    match has_zip64_extra(central_extra) {
        Err(e) => return Err(e),
        Ok(true) => return Err(FormatError::UnsupportedFeature("multi-disk or ZIP64 ORA archive")),
        Ok(false) => {},
    }
    match check_local(
        bytes,
        local_offset as usize,
        flags,
        compression,
        checksum,
        compressed_size,
        uncompressed_size,
        name,
        central_offset,
    ) {
        Err(e) => return Err(e),
        Ok(()) => {},
    }
    if extra_end > usize::MAX - comment_len {
        return Err(FormatError::Malformed("invalid ORA ZIP directory entry"));
    }
    let mut owned: Vec<u8> = Vec::new();
    owned.extend_from_slice(name);
    proof {
        assert(owned@ =~= name@);
    }
    Ok((extra_end + comment_len, total, owned))
}

fn find_eocd(bytes: &[u8]) -> (r: Option<usize>)
    ensures
        match eocd_offset(bytes@) {
            Some(e) => r == Some(e as usize),
            None => r is None,
        },
        r matches Some(e) ==> signature_at(bytes@, e as int, 0x50, 0x4b, 0x05, 0x06)
            && eocd_offset(bytes@) == Some(e as int),
{
    let len = bytes.len();
    let start = if len > 65557 { len - 65557 } else { 0 };
    let end = if len > 3 { len - 3 } else { 0 };
    let mut offset = end;
    while offset > start
        invariant
            start <= offset <= end,
            end <= len,
            len == bytes@.len(),
            start == (if len > 65557 { len - 65557 } else { 0 }),
            end == (if len > 3 { len - 3 } else { 0 }),
            eocd_search(bytes@, offset - 1, start as int) == eocd_offset(bytes@),
        decreases offset,
    {
        let candidate = offset - 1;
        if signature(bytes, candidate, 0x50, 0x4b, 0x05, 0x06) {
            return Some(candidate);
        }
        offset = candidate;
    }
    None
}

/// Validates the ZIP central directory of an ORA archive from raw bytes:
/// single-disk, non-ZIP64, unencrypted entries with safe unique UTF-8 paths,
/// bounded declared sizes, and local headers that agree with the directory.
pub fn validate_central_paths(bytes: &[u8]) -> (r: Result<(), FormatError>)
    ensures
        r == central_directory_spec(bytes@),
{
    let eocd = match find_eocd(bytes) {
        Some(eocd) => eocd,
        None => return Err(FormatError::Malformed("missing ORA ZIP directory")),
    };
    assert(eocd_offset(bytes@) == Some(eocd as int));
    if bytes.len() - eocd < 12 {
        return Err(FormatError::Malformed("invalid ORA ZIP directory"));
    }
    let disk = little_u16(bytes, eocd + 4).unwrap();
    let central_disk = little_u16(bytes, eocd + 6).unwrap();
    let disk_entries = little_u16(bytes, eocd + 8).unwrap();
    let entries = little_u16(bytes, eocd + 10).unwrap();
    if disk != 0 || central_disk != 0 || disk_entries != entries || entries == u16::MAX {
        return Err(FormatError::UnsupportedFeature("multi-disk or ZIP64 ORA archive"));
    }
    if entries as usize > MAX_ARCHIVE_ENTRIES {
        return Err(FormatError::LimitExceeded("ORA entry count"));
    }
    if bytes.len() - eocd < 20 {
        return Err(FormatError::Malformed("invalid ORA ZIP directory"));
    }
    let central_size_raw = little_u32(bytes, eocd + 12).unwrap();
    let central_offset_raw = little_u32(bytes, eocd + 16).unwrap();
    if central_size_raw == u32::MAX || central_offset_raw == u32::MAX {
        return Err(FormatError::UnsupportedFeature("multi-disk or ZIP64 ORA archive"));
    }
    let central_size = central_size_raw as usize;
    let central_offset = central_offset_raw as usize;
    if central_size > eocd || central_offset > eocd - central_size {
        return Err(FormatError::Malformed("invalid ORA ZIP directory bounds"));
    }
    let mut names: Vec<Vec<u8>> = Vec::new();
    let mut expanded: u64 = 0;
    let mut position = central_offset;
    let mut remaining: u16 = entries;
    let ghost s = bytes@;
    proof {
        assert(names_view(names@) =~= Seq::<Seq<u8>>::empty());
    }
    let ghost whole = entries_spec(s, central_offset as int, entries as nat, central_offset as int, Seq::empty(), 0);
    assert(central_directory_spec(s) == match whole {
        Err(x) => Err(x),
        Ok(end) => if end != central_offset + central_size {
            Err(FormatError::Malformed("invalid ORA ZIP directory size"))
        } else {
            Ok(())
        },
    });
    while remaining > 0
        invariant
            s == bytes@,
            whole == entries_spec(s, central_offset as int, entries as nat, central_offset as int, Seq::empty(), 0),
            central_directory_spec(s) == match whole {
                Err(x) => Err(x),
                Ok(end) => if end != central_offset + central_size {
                    Err(FormatError::Malformed("invalid ORA ZIP directory size"))
                } else {
                    Ok(())
                },
            },
            central_offset <= u32::MAX,
            expanded <= MAX_EXPANDED_BYTES,
            entries_spec(s, position as int, remaining as nat, central_offset as int, names_view(names@), expanded as int)
                == entries_spec(s, central_offset as int, entries as nat, central_offset as int, Seq::empty(), 0),
        decreases remaining,
    {
        let ghost before = names_view(names@);
        match check_entry(bytes, position, central_offset, &names, expanded) {
            Err(e) => {
                proof {
                    assert(entries_spec(s, position as int, remaining as nat, central_offset as int, names_view(names@), expanded as int) == Err::<int, FormatError>(e));
                }
                return Err(e);
            },
            Ok((next, total, name)) => {
                position = next;
                expanded = total;
                names.push(name);
                proof {
                    assert(names_view(names@) =~= before.push(name@));
                }
            },
        }
        remaining = remaining - 1;
    }
    proof {
        assert(names_view(Seq::<Vec<u8>>::empty()) =~= Seq::<Seq<u8>>::empty());
    }
    if position != central_offset + central_size {
        return Err(FormatError::Malformed("invalid ORA ZIP directory size"));
    }
    Ok(())
}

/// What the `zip` crate reports for the first entry of an archive held in
/// `bytes`: its name and whether it is stored without compression; `None`
/// when the archive or that entry cannot be opened.
pub uninterp spec fn zip_first_entry_header(bytes: Seq<u8>) -> Option<(Seq<char>, bool)>;

/// The contents of the first entry of an archive as the `zip` crate reads
/// them; `None` when the archive or the entry cannot be opened or read.
pub uninterp spec fn zip_first_entry_content(bytes: Seq<u8>) -> Option<Seq<u8>>;

/// Opens `bytes` with `zip::ZipArchive::new`, takes `by_index(0)`, and reports
/// its `name()` and whether its `compression()` is `Stored`.
#[verifier::external_body]
fn first_entry_header(bytes: &[u8]) -> (r: Option<(String, bool)>)
    ensures
        zip_first_entry_header(bytes@) == match r {
            Some((name, stored)) => Some((name@, stored)),
            None => None::<(Seq<char>, bool)>,
        },
{
    let mut archive = zip::ZipArchive::new(std::io::Cursor::new(bytes)).ok()?;
    let first = archive.by_index(0).ok()?;
    let stored = match first.compression() {
        zip::CompressionMethod::Stored => true,
        _ => false,
    };
    Some((first.name().to_string(), stored))
}

/// Opens `bytes` with `zip::ZipArchive::new`, takes `by_index(0)`, and reads
/// the entry to its end with `std::io::Read::read_to_end`.
#[verifier::external_body]
fn first_entry_content(bytes: &[u8]) -> (r: Option<Vec<u8>>)
    ensures
        zip_first_entry_content(bytes@) == match r {
            Some(content) => Some(content@),
            None => None::<Seq<u8>>,
        },
{
    let mut archive = zip::ZipArchive::new(std::io::Cursor::new(bytes)).ok()?;
    let mut first = archive.by_index(0).ok()?;
    let mut content = Vec::new();
    std::io::Read::read_to_end(&mut first, &mut content).ok()?;
    Some(content)
}

/// Whether an archive starts with the canonical ORA marker: an uncompressed
/// first entry named `mimetype` that holds exactly `image/openraster`.
pub open spec fn canonical_mimetype_spec(bytes: Seq<u8>) -> bool {
    match zip_first_entry_header(bytes) {
        Some((name, stored)) => name == "mimetype"@ && stored && zip_first_entry_content(bytes) == Some(
            MIMETYPE@,
        ),
        None => false,
    }
}

/// Whether an archive carries the canonical ORA `mimetype` first entry.
pub fn has_canonical_mimetype(bytes: &[u8]) -> (r: bool)
    ensures
        r == canonical_mimetype_spec(bytes@),
{
    let (name, stored) = match first_entry_header(bytes) {
        Some(header) => header,
        None => return false,
    };
    let expected = String::from_str("mimetype");
    if name != expected || !stored {
        return false;
    }
    match first_entry_content(bytes) {
        Some(content) => bytes_equal(content.as_slice(), MIMETYPE.as_slice()),
        None => false,
    }
}

/// The XML text that stands for a character inside an attribute value.
pub open spec fn xml_entity(c: char) -> Seq<char> {
    if c == '&' {
        seq!['&', 'a', 'm', 'p', ';']
    } else if c == '<' {
        seq!['&', 'l', 't', ';']
    } else if c == '>' {
        seq!['&', 'g', 't', ';']
    } else if c == '"' {
        seq!['&', 'q', 'u', 'o', 't', ';']
    } else if c == '\'' {
        seq!['&', 'a', 'p', 'o', 's', ';']
    } else {
        seq![c]
    }
}

/// Text with every markup character replaced by its entity.
pub open spec fn xml_escaped(s: Seq<char>) -> Seq<char>
    decreases s.len(),
{
    if s.len() == 0 {
        seq![]
    } else {
        xml_escaped(s.drop_last()) + xml_entity(s.last())
    }
}

/// Escapes `&`, `<`, `>`, `"` and `'` for use in XML attribute values.
pub fn xml_escape(value: &str) -> (escaped: String)
    ensures
        escaped@ == xml_escaped(value@),
{
    broadcast use vstd::string::axiom_spec_iter;

    let mut out: Vec<u8> = Vec::new();
    for c in it: value.chars()
        invariant
            it.seq() == value@,
            out@ == encode_utf8(xml_escaped(value@.take(it.index() as int))),
    {
        let ghost i = it.index() as int;
        let ghost prefix = value@.take(i);
        assert(c == value@[i]);
        if c == '&' {
            push_chars(&mut out, ['&', 'a', 'm', 'p', ';'].as_slice());
        } else if c == '<' {
            push_chars(&mut out, ['&', 'l', 't', ';'].as_slice());
        } else if c == '>' {
            push_chars(&mut out, ['&', 'g', 't', ';'].as_slice());
        } else if c == '"' {
            push_chars(&mut out, ['&', 'q', 'u', 'o', 't', ';'].as_slice());
        } else if c == '\'' {
            push_chars(&mut out, ['&', 'a', 'p', 'o', 's', ';'].as_slice());
        } else {
            push_char(&mut out, c);
        }
        proof {
            let next = value@.take(i + 1);
            assert(next.drop_last() =~= prefix);
            assert(next.last() == c);
            lemma_encode_utf8_concat(xml_escaped(prefix), xml_entity(c));
            assert(xml_escaped(next) == xml_escaped(prefix) + xml_entity(c));
        }
    }
    proof {
        assert(value@.take(value@.len() as int) =~= value@);
    }
    text_of_encoding(out, Ghost(xml_escaped(value@)))
}

/// The blend mode named by an ORA `composite-op`, if it is one of the
/// supported ones.
pub open spec fn ora_blend_of(name: Seq<char>) -> Option<BlendMode> {
    if name == "svg:src-over"@ {
        Some(BlendMode::Normal)
    } else if name == "svg:multiply"@ {
        Some(BlendMode::Multiply)
    } else if name == "svg:screen"@ {
        Some(BlendMode::Screen)
    } else if name == "svg:overlay"@ {
        Some(BlendMode::Overlay)
    } else if name == "svg:plus"@ {
        Some(BlendMode::Add)
    } else {
        None
    }
}

/// The ORA `composite-op` of a blend mode.
pub open spec fn ora_blend_name(mode: BlendMode) -> &'static str {
    match mode {
        BlendMode::Normal => "svg:src-over",
        BlendMode::Multiply => "svg:multiply",
        BlendMode::Screen => "svg:screen",
        BlendMode::Overlay => "svg:overlay",
        BlendMode::Add => "svg:plus",
    }
}

/// Reads an ORA `composite-op`; a missing one means source-over.
pub fn parse_blend(value: Option<&String>) -> (r: Result<BlendMode, CoreError>)
    ensures
        match ora_blend_of(
            match value {
                Some(v) => v@,
                None => "svg:src-over"@,
            },
        ) {
            Some(mode) => r == Ok::<BlendMode, CoreError>(mode),
            None => (r matches Err(CoreError::Format(FormatError::UnsupportedFeature(m))) && m
                == "unknown ORA composite-op"),
        },
{
    let name = match value {
        Some(v) => v.clone(),
        None => String::from_str("svg:src-over"),
    };
    if name == String::from_str("svg:src-over") {
        Ok(BlendMode::Normal)
    } else if name == String::from_str("svg:multiply") {
        Ok(BlendMode::Multiply)
    } else if name == String::from_str("svg:screen") {
        Ok(BlendMode::Screen)
    } else if name == String::from_str("svg:overlay") {
        Ok(BlendMode::Overlay)
    } else if name == String::from_str("svg:plus") {
        Ok(BlendMode::Add)
    } else {
        Err(CoreError::Format(FormatError::UnsupportedFeature("unknown ORA composite-op")))
    }
}

/// The ORA `composite-op` of a blend mode.
pub fn blend_name(blend: BlendMode) -> (name: &'static str)
    ensures
        name == ora_blend_name(blend),
{
    match blend {
        BlendMode::Normal => "svg:src-over",
        BlendMode::Multiply => "svg:multiply",
        BlendMode::Screen => "svg:screen",
        BlendMode::Overlay => "svg:overlay",
        BlendMode::Add => "svg:plus",
    }
}

/// Writing a blend mode's `composite-op` and reading it back gives the
/// blend mode.
pub proof fn law_blend_name_round_trips(mode: BlendMode)
    ensures
        ora_blend_of(ora_blend_name(mode)@) == Some(mode),
{
    reveal_strlit("svg:src-over");
    reveal_strlit("svg:multiply");
    reveal_strlit("svg:screen");
    reveal_strlit("svg:overlay");
    reveal_strlit("svg:plus");
    let normal = "svg:src-over"@;
    let multiply = "svg:multiply"@;
    let screen = "svg:screen"@;
    let overlay = "svg:overlay"@;
    let plus = "svg:plus"@;
    assert(multiply[4] != normal[4]);
    assert(screen[5] != normal[5]);
    assert(screen[4] != multiply[4]);
    assert(overlay[4] != normal[4]);
    assert(overlay[4] != multiply[4]);
    assert(overlay[4] != screen[4]);
    assert(plus[4] != normal[4]);
    assert(plus[4] != multiply[4]);
    assert(plus[4] != screen[4]);
    assert(plus[4] != overlay[4]);
}

/// RGBA image `source` placed with its top-left corner at (`x`, `y`) on a
/// transparent `width` x `height` canvas; parts off the canvas are dropped.
pub open spec fn placed(
    source: Seq<u8>,
    source_width: int,
    source_height: int,
    width: int,
    i: int,
    x: int,
    y: int,
) -> u8 {
    let pixel = i / 4;
    let sx = pixel % width - x;
    let sy = pixel / width - y;
    if 0 <= sx < source_width && 0 <= sy < source_height {
        source[(sy * source_width + sx) * 4 + i % 4]
    } else {
        0u8
    }
}

/// Places a decoded layer at its offset on a transparent canvas.
pub fn place_layer(
    source: &[u8],
    source_width: u32,
    source_height: u32,
    width: u32,
    height: u32,
    x: i32,
    y: i32,
) -> (output: Vec<u8>)
    requires
        source@.len() >= source_width * source_height * 4,
        width * height * 4 <= usize::MAX,
    ensures
        output@.len() == width * height * 4,
        forall|i: int|
            0 <= i < output@.len() ==> output@[i] == #[trigger] placed(
                source@,
                source_width as int,
                source_height as int,
                width as int,
                i,
                x as int,
                y as int,
            ),
{
    let total = (width as usize) * (height as usize) * 4;
    let w = width as usize;
    let source_len = source.len();
    let mut output: Vec<u8> = Vec::with_capacity(total);
    let mut i: usize = 0;
    while i < total
        invariant
            total == width * height * 4,
            w == width,
            i <= total,
            output@.len() == i,
            source_len == source@.len(),
            source@.len() >= source_width * source_height * 4,
            forall|k: int|
                0 <= k < i ==> output@[k] == #[trigger] placed(
                    source@,
                    source_width as int,
                    source_height as int,
                    width as int,
                    k,
                    x as int,
                    y as int,
                ),
        decreases total - i,
    {
        let pixel = i / 4;
        assert(w > 0) by (nonlinear_arith)
            requires
                i < total,
                total == width * height * 4,
                w == width,
        ;
        let dx = (pixel % w) as i64;
        let dy = (pixel / w) as i64;
        assert(pixel / w <= pixel) by (nonlinear_arith)
            requires
                w > 0,
        ;
        let sx = dx - x as i64;
        let sy = dy - y as i64;
        let value = if sx >= 0 && sy >= 0 && sx < source_width as i64 && sy < source_height as i64 {
            let sxu = sx as usize;
            let syu = sy as usize;
            assert((syu * source_width + sxu) * 4 + i % 4 < source_width * source_height * 4 && syu
                * source_width <= syu * source_width + sxu) by (nonlinear_arith)
                requires
                    sxu < source_width,
                    syu < source_height,
            ;
            let row = syu * (source_width as usize);
            source[(row + sxu) * 4 + i % 4]
        } else {
            0u8
        };
        output.push(value);
        i = i + 1;
    }
    output
}

/// `<!doctype`, lower case.
pub open spec fn doctype_open() -> Seq<u8> {
    seq![60u8, 33u8, 100u8, 111u8, 99u8, 116u8, 121u8, 112u8, 101u8]
}

/// `<!entity`, lower case.
pub open spec fn entity_open() -> Seq<u8> {
    seq![60u8, 33u8, 101u8, 110u8, 116u8, 105u8, 116u8, 121u8]
}

/// The byte limit and DTD ban of ORA stack XML: document type and entity
/// declarations are matched without regard to ASCII case.
pub open spec fn stack_xml_guard_spec(xml: Seq<u8>) -> Result<(), FormatError> {
    if xml.len() > MAX_XML_BYTES {
        Err(FormatError::LimitExceeded("ORA XML bytes"))
    } else if holds_folded(xml, doctype_open()) || holds_folded(xml, entity_open()) {
        Err(FormatError::UnsupportedFeature("ORA DTD/entity content"))
    } else {
        Ok(())
    }
}

/// Rejects oversized ORA stack XML and stack XML that declares a document
/// type or entities, before any of it is parsed.
pub fn stack_xml_guard(xml: &[u8]) -> (r: Result<(), FormatError>)
    ensures
        r == stack_xml_guard_spec(xml@),
{
    if xml.len() > MAX_XML_BYTES {
        return Err(FormatError::LimitExceeded("ORA XML bytes"));
    }
    let doctype: [u8; 9] = [60, 33, 100, 111, 99, 116, 121, 112, 101];
    let entity: [u8; 8] = [60, 33, 101, 110, 116, 105, 116, 121];
    proof {
        assert(doctype@ =~= doctype_open());
        assert(entity@ =~= entity_open());
    }
    if find_folded(xml, doctype.as_slice()) || find_folded(xml, entity.as_slice()) {
        return Err(FormatError::UnsupportedFeature("ORA DTD/entity content"));
    }
    Ok(())
}

#[verifier::external_type_specification]
#[verifier::external_body]
#[verifier::reject_recursive_types(T)]
pub struct ExCursor<T>(std::io::Cursor<T>);

#[verifier::external_type_specification]
#[verifier::external_body]
#[verifier::reject_recursive_types(R)]
pub struct ExZipArchive<R>(zip::ZipArchive<R>);

/// Why reading an archive stopped: a format error, or a failure while
/// decompressing an entry.
pub enum ArchiveFault {
    Format(FormatError),
    Io,
}

/// The files as names and contents.
pub open spec fn files_view(files: Seq<(String, Vec<u8>)>) -> Seq<(Seq<char>, Seq<u8>)> {
    files.map_values(|f: (String, Vec<u8>)| (f.0@, f.1@))
}

/// Total bytes of the files read so far.
pub open spec fn read_bytes(files: Seq<(Seq<char>, Seq<u8>)>) -> int
    decreases files.len(),
{
    if files.len() == 0 {
        0
    } else {
        read_bytes(files.drop_last()) + files.last().1.len()
    }
}

/// Reading entry `index` after `files`: its header must open, its path be
/// safe and new, it must be a file within the entry limit and the expanded
/// limit, and it must decompress to exactly its declared size.
pub open spec fn entry_step(bytes: Seq<u8>, files: Seq<(Seq<char>, Seq<u8>)>, index: usize) -> Result<
    Seq<(Seq<char>, Seq<u8>)>,
    ArchiveFault,
> {
    match zip_entry_header(bytes, index) {
        None => Err(ArchiveFault::Format(FormatError::Malformed("invalid ORA ZIP entry"))),
        Some((name, is_dir, size)) => if !safe_path_spec(encode_utf8(name)) || exists|i: int|
            0 <= i < files.len() && #[trigger] files[i].0 == name {
            Err(ArchiveFault::Format(FormatError::Malformed("unsafe or duplicate ORA path")))
        } else if is_dir || size > MAX_ENTRY_BYTES {
            Err(ArchiveFault::Format(FormatError::LimitExceeded("ORA entry bytes")))
        } else if read_bytes(files) + size > MAX_EXPANDED_BYTES {
            Err(ArchiveFault::Format(FormatError::LimitExceeded("ORA expanded bytes")))
        } else {
            match zip_entry_data(bytes, index, (MAX_ENTRY_BYTES + 1) as u64) {
                None => Err(ArchiveFault::Format(FormatError::Malformed("invalid ORA ZIP entry"))),
                Some(None) => Err(ArchiveFault::Io),
                Some(Some(data)) => if data.len() > MAX_ENTRY_BYTES || data.len() != size {
                    Err(ArchiveFault::Format(FormatError::LimitExceeded("ORA entry bytes")))
                } else {
                    Ok(files.push((name, data)))
                },
            }
        },
    }
}

/// Reading the first `n` entries in order.
pub open spec fn entries_read(bytes: Seq<u8>, n: int) -> Result<Seq<(Seq<char>, Seq<u8>)>, ArchiveFault>
    decreases n,
{
    if n <= 0 {
        Ok(seq![])
    } else {
        match entries_read(bytes, n - 1) {
            Err(f) => Err(f),
            Ok(files) => entry_step(bytes, files, (n - 1) as usize),
        }
    }
}

/// Whether the files hold the canonical `mimetype` and a `stack.xml`.
pub open spec fn canonical_files(files: Seq<(Seq<char>, Seq<u8>)>) -> bool {
    &&& exists|i: int| 0 <= i < files.len() && #[trigger] files[i].0 == "mimetype"@ && files[i].1
        == MIMETYPE@
    &&& exists|i: int| 0 <= i < files.len() && #[trigger] files[i].0 == "stack.xml"@
}

/// Reading an ORA archive: the central directory check, the archive must
/// open and list one to `MAX_ARCHIVE_ENTRIES` entries, every entry is read
/// in order, and the canonical files must be among them.
pub open spec fn archive_read_spec(bytes: Seq<u8>) -> Result<Seq<(Seq<char>, Seq<u8>)>, ArchiveFault> {
    match central_directory_spec(bytes) {
        Err(e) => Err(ArchiveFault::Format(e)),
        Ok(()) => if !zip_opens(bytes) {
            Err(ArchiveFault::Format(FormatError::Malformed("invalid ORA ZIP")))
        } else if zip_entry_count(bytes) == 0 || zip_entry_count(bytes) > MAX_ARCHIVE_ENTRIES {
            Err(ArchiveFault::Format(FormatError::LimitExceeded("ORA entry count")))
        } else {
            match entries_read(bytes, zip_entry_count(bytes) as int) {
                Err(f) => Err(f),
                Ok(files) => if canonical_files(files) {
                    Ok(files)
                } else {
                    Err(ArchiveFault::Format(FormatError::Malformed("missing canonical ORA files")))
                },
            }
        },
    }
}

proof fn lemma_entries_read_sticks(bytes: Seq<u8>, m: int, n: int)
    requires
        0 <= m <= n,
        entries_read(bytes, m) is Err,
    ensures
        entries_read(bytes, n) == entries_read(bytes, m),
    decreases n - m,
{
    if m < n {
        lemma_entries_read_sticks(bytes, m, n - 1);
    }
}

/// Total bytes held by the files.
pub open spec fn files_bytes(files: Seq<(String, Vec<u8>)>) -> int
    decreases files.len(),
{
    if files.len() == 0 {
        0
    } else {
        files_bytes(files.drop_last()) + files.last().1@.len()
    }
}

/// The name of file `i` is `name`.
pub open spec fn file_named(files: Seq<(String, Vec<u8>)>, i: int, name: Seq<char>) -> bool {
    0 <= i < files.len() && files[i].0@ == name
}

/// Files read from an ORA archive: at least one and at most the entry limit,
/// each under a safe path and within the entry size limit, no name twice,
/// within the expanded size limit altogether, with the canonical `mimetype`
/// file and a `stack.xml`.
pub open spec fn archive_files_ok(files: Seq<(String, Vec<u8>)>) -> bool {
    &&& 1 <= files.len() <= MAX_ARCHIVE_ENTRIES
    &&& forall|i: int|
        0 <= i < files.len() ==> safe_path_spec(encode_utf8(#[trigger] files[i].0@)) && files[i].1@.len()
            <= MAX_ENTRY_BYTES
    &&& forall|i: int, j: int| 0 <= i < j < files.len() ==> files[i].0@ != files[j].0@
    &&& files_bytes(files) <= MAX_EXPANDED_BYTES
    &&& exists|i: int| #[trigger] file_named(files, i, "mimetype"@) && files[i].1@ == MIMETYPE@
    &&& exists|i: int| #[trigger] file_named(files, i, "stack.xml"@)
}

/// Position of the file called `name`, if any.
fn find_file(files: &Vec<(String, Vec<u8>)>, name: &String) -> (r: Option<usize>)
    ensures
        r matches Some(i) ==> file_named(files@, i as int, name@),
        r is None ==> forall|i: int| 0 <= i < files@.len() ==> files@[i].0@ != name@,
{
    let mut i: usize = 0;
    while i < files.len()
        invariant
            i <= files@.len(),
            forall|k: int| 0 <= k < i ==> files@[k].0@ != name@,
        decreases files@.len() - i,
    {
        if files[i].0 == *name {
            return Some(i);
        }
        i = i + 1;
    }
    None
}

/// Reads every entry of an ORA archive after its central directory has been
/// validated from raw bytes, enforcing entry-count, per-entry,
/// expanded-size, path-safety and uniqueness limits before and while each
/// entry is decompressed. Files come in archive order.
pub fn read_archive(bytes: &[u8]) -> (r: Result<Vec<(String, Vec<u8>)>, CoreError>)
    ensures
        match archive_read_spec(bytes@) {
            Ok(files) => r matches Ok(v) && files_view(v@) == files,
            Err(ArchiveFault::Format(e)) => r == Err::<Vec<(String, Vec<u8>)>, CoreError>(
                CoreError::Format(e),
            ),
            Err(ArchiveFault::Io) => r matches Err(CoreError::Io(_)),
        },
        r matches Ok(files) ==> archive_files_ok(files@),
{
    if let Err(e) = validate_central_paths(bytes) {
        return Err(CoreError::Format(e));
    }
    let mut open = match open_archive(bytes) {
        Some(open) => open,
        None => return Err(CoreError::Format(FormatError::Malformed("invalid ORA ZIP"))),
    };
    let count = entry_count(&open);
    if count == 0 || count > MAX_ARCHIVE_ENTRIES {
        return Err(CoreError::Format(FormatError::LimitExceeded("ORA entry count")));
    }
    let mut files: Vec<(String, Vec<u8>)> = Vec::new();
    let mut expanded: u64 = 0;
    let mut index: usize = 0;
    proof {
        assert(files_view(files@) =~= Seq::<(Seq<char>, Seq<u8>)>::empty());
    }
    while index < count
        invariant
            central_directory_spec(bytes@) is Ok,
            zip_opens(bytes@),
            open.source() == bytes@,
            count == zip_entry_count(bytes@),
            1 <= count <= MAX_ARCHIVE_ENTRIES,
            index <= count,
            files@.len() == index,
            entries_read(bytes@, index as int) == Ok::<Seq<(Seq<char>, Seq<u8>)>, ArchiveFault>(
                files_view(files@),
            ),
            forall|i: int|
                0 <= i < files@.len() ==> safe_path_spec(encode_utf8(#[trigger] files@[i].0@))
                    && files@[i].1@.len() <= MAX_ENTRY_BYTES,
            forall|i: int, j: int| 0 <= i < j < files@.len() ==> files@[i].0@ != files@[j].0@,
            expanded == files_bytes(files@),
            expanded == read_bytes(files_view(files@)),
            expanded <= MAX_EXPANDED_BYTES,
        decreases count - index,
    {
        let ghost view = files_view(files@);
        let (name, is_dir, size) = match entry_header(&mut open, index) {
            Some(header) => header,
            None => {
                proof {
                    lemma_entries_read_sticks(bytes@, index + 1, count as int);
                }
                return Err(CoreError::Format(FormatError::Malformed("invalid ORA ZIP entry")));
            },
        };
        let found = find_file(&files, &name);
        proof {
            if found is None {
                assert forall|i: int| 0 <= i < view.len() implies #[trigger] view[i].0 != name@ by {
                    assert(view[i].0 == files@[i].0@);
                }
            } else {
                let i = found->Some_0 as int;
                assert(view[i].0 == name@);
            }
        }
        if !safe_path(name.as_str().as_bytes()) || found.is_some() {
            proof {
                lemma_entries_read_sticks(bytes@, index + 1, count as int);
            }
            return Err(CoreError::Format(FormatError::Malformed("unsafe or duplicate ORA path")));
        }
        if is_dir || size > MAX_ENTRY_BYTES {
            proof {
                lemma_entries_read_sticks(bytes@, index + 1, count as int);
            }
            return Err(CoreError::Format(FormatError::LimitExceeded("ORA entry bytes")));
        }
        if size > MAX_EXPANDED_BYTES - expanded {
            proof {
                lemma_entries_read_sticks(bytes@, index + 1, count as int);
            }
            return Err(CoreError::Format(FormatError::LimitExceeded("ORA expanded bytes")));
        }
        let data = match entry_data(&mut open, index, MAX_ENTRY_BYTES + 1) {
            Some(Ok(data)) => data,
            Some(Err(error)) => {
                proof {
                    lemma_entries_read_sticks(bytes@, index + 1, count as int);
                }
                return Err(CoreError::Io(error));
            },
            None => {
                proof {
                    lemma_entries_read_sticks(bytes@, index + 1, count as int);
                }
                return Err(CoreError::Format(FormatError::Malformed("invalid ORA ZIP entry")));
            },
        };
        if data.len() as u64 > MAX_ENTRY_BYTES || data.len() as u64 != size {
            proof {
                lemma_entries_read_sticks(bytes@, index + 1, count as int);
            }
            return Err(CoreError::Format(FormatError::LimitExceeded("ORA entry bytes")));
        }
        let ghost before = files@;
        let ghost entry = (name@, data@);
        files.push((name, data));
        proof {
            assert(files@.drop_last() =~= before);
            assert(files_view(files@) =~= view.push(entry));
            assert(files_view(files@).drop_last() =~= view);
        }
        expanded = expanded + size;
        index = index + 1;
    }
    let mimetype = String::from_str("mimetype");
    let stack = String::from_str("stack.xml");
    let ghost view = files_view(files@);
    let found = find_file(&files, &mimetype);
    let canonical = match found {
        Some(i) => bytes_equal(files[i].1.as_slice(), MIMETYPE.as_slice()),
        None => false,
    };
    let stack_found = find_file(&files, &stack);
    let has_stack = stack_found.is_some();
    proof {
        reveal_strlit("mimetype");
        reveal_strlit("stack.xml");
        assert forall|i: int| 0 <= i < view.len() implies #[trigger] view[i] == (files@[i].0@, files@[i].1@) by {}
        if canonical {
            let i = found->Some_0 as int;
            assert(view[i].0 == "mimetype"@ && view[i].1 == MIMETYPE@);
        }
        if has_stack {
            let k = stack_found->Some_0 as int;
            assert(view[k].0 == "stack.xml"@);
        }
        if canonical_files(view) {
            let i = choose|i: int| 0 <= i < view.len() && #[trigger] view[i].0 == "mimetype"@ && view[i].1 == MIMETYPE@;
            assert(files@[i].0@ == "mimetype"@);
            assert(found is Some);
            let f = found->Some_0 as int;
            if f != i {
                if f < i {
                    assert(files@[f].0@ != files@[i].0@);
                } else {
                    assert(files@[i].0@ != files@[f].0@);
                }
            }
            assert(canonical);
            let k = choose|k: int| 0 <= k < view.len() && #[trigger] view[k].0 == "stack.xml"@;
            assert(files@[k].0@ == "stack.xml"@);
            assert(has_stack);
        }
    }
    if !canonical || !has_stack {
        return Err(CoreError::Format(FormatError::Malformed("missing canonical ORA files")));
    }
    Ok(files)
}

/// What an OpenRaster export needs to know of a node: its identifier, its
/// kind, and whether it has a mask and whether that mask is enabled.
#[derive(Clone, Copy, Debug, PartialEq, Eq)]
pub struct ExportNode {
    pub id: LayerId,
    pub kind: NodeKind,
    pub mask: Option<bool>,
}

/// What exporting one node loses: the warnings it adds, or the error that
/// refuses the export.
pub open spec fn node_loss(node: ExportNode, policy: LossPolicy) -> Result<Seq<FormatWarning>, CoreError> {
    if node.kind == NodeKind::Group {
        match node.mask {
            None => Ok(seq![]),
            Some(true) => Err(
                CoreError::Format(
                    FormatError::UnsupportedFeature("masked ORA groups cannot be represented safely"),
                ),
            ),
            Some(false) => if policy == LossPolicy::RejectLoss {
                Err(
                    CoreError::Format(
                        FormatError::LossRequired("ORA cannot preserve disabled group mask source"),
                    ),
                )
            } else {
                Ok(seq![FormatWarning::OmittedDisabledMask { node: node.id }])
            },
        }
    } else {
        let semantic = node.kind == NodeKind::Text || node.kind == NodeKind::Vector;
        if semantic && policy == LossPolicy::RejectLoss {
            Err(CoreError::Format(FormatError::LossRequired("ORA cannot preserve semantic source nodes")))
        } else {
            let rasterized = if semantic {
                seq![FormatWarning::RasterizedSemanticNode { node: node.id }]
            } else {
                seq![]
            };
            match node.mask {
                None => Ok(rasterized),
                Some(enabled) => if policy == LossPolicy::RejectLoss {
                    Err(
                        CoreError::Format(
                            FormatError::LossRequired("ORA cannot preserve raster mask source"),
                        ),
                    )
                } else if enabled {
                    Ok(rasterized.push(FormatWarning::BakedRasterMask { node: node.id }))
                } else {
                    Ok(rasterized.push(FormatWarning::OmittedDisabledMask { node: node.id }))
                },
            }
        }
    }
}

/// What exporting the first `n` nodes loses: the warnings of the nodes
/// before the first refused one, and the refusal if there is one.
pub open spec fn nodes_loss(nodes: Seq<ExportNode>, policy: LossPolicy, n: int) -> (
    Seq<FormatWarning>,
    Option<CoreError>,
)
    decreases n,
{
    if n <= 0 {
        (seq![], None)
    } else {
        let (before, error) = nodes_loss(nodes, policy, n - 1);
        if error is Some {
            (before, error)
        } else {
            match node_loss(nodes[n - 1], policy) {
                Ok(added) => (before + added, None),
                Err(e) => (before, Some(e)),
            }
        }
    }
}

fn is_semantic(kind: NodeKind) -> (r: bool)
    ensures
        r == (kind == NodeKind::Text || kind == NodeKind::Vector),
{
    match kind {
        NodeKind::Text | NodeKind::Vector => true,
        _ => false,
    }
}

fn rejects(policy: LossPolicy) -> (r: bool)
    ensures
        r == (policy == LossPolicy::RejectLoss),
{
    match policy {
        LossPolicy::RejectLoss => true,
        LossPolicy::AllowLoss => false,
    }
}

/// Checks what an OpenRaster export would lose, node by node: a group
/// keeps no mask (an enabled one cannot be represented at all), semantic
/// nodes are rasterized, and raster masks are baked in or dropped. Each
/// loss is refused under `RejectLoss` and reported as a warning otherwise.
pub fn preflight_nodes(nodes: &[ExportNode], policy: LossPolicy, warnings: &mut Vec<FormatWarning>) -> (r:
    Result<(), CoreError>)
    ensures
        final(warnings)@ == old(warnings)@ + nodes_loss(nodes@, policy, nodes@.len() as int).0,
        match nodes_loss(nodes@, policy, nodes@.len() as int).1 {
            None => r is Ok,
            Some(e) => r == Err::<(), CoreError>(e),
        },
{
    let ghost start = warnings@;
    let mut i: usize = 0;
    while i < nodes.len()
        invariant
            i <= nodes@.len(),
            nodes_loss(nodes@, policy, i as int).1 is None,
            start == old(warnings)@,
            warnings@ == start + nodes_loss(nodes@, policy, i as int).0,
        decreases nodes@.len() - i,
    {
        let node = nodes[i];
        let ghost before = warnings@;
        let outcome = match node.kind {
            NodeKind::Group => match node.mask {
                None => Ok(()),
                Some(true) => Err(
                    CoreError::Format(
                        FormatError::UnsupportedFeature("masked ORA groups cannot be represented safely"),
                    ),
                ),
                Some(false) => if rejects(policy) {
                    Err(
                        CoreError::Format(
                            FormatError::LossRequired("ORA cannot preserve disabled group mask source"),
                        ),
                    )
                } else {
                    warnings.push(FormatWarning::OmittedDisabledMask { node: node.id });
                    Ok(())
                },
            },
            kind => {
                let semantic = is_semantic(kind);
                if semantic && rejects(policy) {
                    Err(
                        CoreError::Format(
                            FormatError::LossRequired("ORA cannot preserve semantic source nodes"),
                        ),
                    )
                } else {
                    if semantic {
                        warnings.push(FormatWarning::RasterizedSemanticNode { node: node.id });
                    }
                    match node.mask {
                        None => Ok(()),
                        Some(enabled) => if rejects(policy) {
                            Err(
                                CoreError::Format(
                                    FormatError::LossRequired("ORA cannot preserve raster mask source"),
                                ),
                            )
                        } else {
                            if enabled {
                                warnings.push(FormatWarning::BakedRasterMask { node: node.id });
                            } else {
                                warnings.push(FormatWarning::OmittedDisabledMask { node: node.id });
                            }
                            Ok(())
                        },
                    }
                }
            },
        };
        proof {
            match node_loss(nodes@[i as int], policy) {
                Ok(added) => {
                    assert(outcome is Ok);
                    assert(warnings@ =~= before + added);
                },
                Err(e) => {
                    assert(outcome == Err::<(), CoreError>(e));
                    assert(warnings@ =~= before);
                },
            }
        }
        match outcome {
            Ok(()) => {},
            Err(e) => {
                proof {
                    assert(nodes_loss(nodes@, policy, i + 1).0 == nodes_loss(nodes@, policy, i as int).0);
                    assert(nodes_loss(nodes@, policy, i + 1).1 == Some(e));
                    lemma_nodes_loss_sticks(nodes@, policy, i + 1, nodes@.len() as int);
                }
                return Err(e);
            },
        }
        proof {
            assert(warnings@ =~= start + nodes_loss(nodes@, policy, i + 1).0);
        }
        i = i + 1;
    }
    Ok(())
}

/// Once a node refuses the export, later nodes change nothing.
proof fn lemma_nodes_loss_sticks(nodes: Seq<ExportNode>, policy: LossPolicy, m: int, n: int)
    requires
        0 <= m <= n,
        nodes_loss(nodes, policy, m).1 is Some,
    ensures
        nodes_loss(nodes, policy, n) == nodes_loss(nodes, policy, m),
    decreases n - m,
{
    if m < n {
        lemma_nodes_loss_sticks(nodes, policy, m, n - 1);
    }
}

} // verus!
