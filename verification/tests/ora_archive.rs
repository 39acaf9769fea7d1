use std::io::Write;

use redrob::canvas::error::{CoreError, FormatError};
use redrob::canvas::ora::{
    little_u16, little_u32, read_archive, safe_path, validate_central_paths, MAX_ARCHIVE_ENTRIES,
    MAX_ENTRY_BYTES,
};

#[derive(Clone)]
struct MetadataEntry {
    name: String,
    flags: u16,
    checksum: u32,
    compressed: u32,
    uncompressed: u32,
    local_extra: Vec<u8>,
    central_extra: Vec<u8>,
}

impl MetadataEntry {
    fn empty(name: impl Into<String>) -> Self {
        Self {
            name: name.into(),
            flags: 0,
            checksum: 0,
            compressed: 0,
            uncompressed: 0,
            local_extra: Vec::new(),
            central_extra: Vec::new(),
        }
    }

    fn declared(name: impl Into<String>, uncompressed: u32) -> Self {
        Self {
            uncompressed,
            ..Self::empty(name)
        }
    }
}

fn metadata_zip(entries: &[MetadataEntry]) -> Vec<u8> {
    assert!(entries.len() <= u16::MAX as usize);
    let mut bytes = Vec::new();
    let mut central = Vec::new();
    for entry in entries {
        let offset = bytes.len() as u32;
        let name = entry.name.as_bytes();
        bytes.extend_from_slice(&0x0403_4b50_u32.to_le_bytes());
        bytes.extend_from_slice(&20_u16.to_le_bytes());
        bytes.extend_from_slice(&entry.flags.to_le_bytes());
        bytes.extend_from_slice(&0_u16.to_le_bytes());
        bytes.extend_from_slice(&0_u16.to_le_bytes());
        bytes.extend_from_slice(&0_u16.to_le_bytes());
        bytes.extend_from_slice(&entry.checksum.to_le_bytes());
        bytes.extend_from_slice(&entry.compressed.to_le_bytes());
        bytes.extend_from_slice(&entry.uncompressed.to_le_bytes());
        bytes.extend_from_slice(&(name.len() as u16).to_le_bytes());
        bytes.extend_from_slice(&(entry.local_extra.len() as u16).to_le_bytes());
        bytes.extend_from_slice(name);
        bytes.extend_from_slice(&entry.local_extra);

        central.extend_from_slice(&0x0201_4b50_u32.to_le_bytes());
        central.extend_from_slice(&20_u16.to_le_bytes());
        central.extend_from_slice(&20_u16.to_le_bytes());
        central.extend_from_slice(&entry.flags.to_le_bytes());
        central.extend_from_slice(&0_u16.to_le_bytes());
        central.extend_from_slice(&0_u16.to_le_bytes());
        central.extend_from_slice(&0_u16.to_le_bytes());
        central.extend_from_slice(&entry.checksum.to_le_bytes());
        central.extend_from_slice(&entry.compressed.to_le_bytes());
        central.extend_from_slice(&entry.uncompressed.to_le_bytes());
        central.extend_from_slice(&(name.len() as u16).to_le_bytes());
        central.extend_from_slice(&(entry.central_extra.len() as u16).to_le_bytes());
        central.extend_from_slice(&0_u16.to_le_bytes());
        central.extend_from_slice(&0_u16.to_le_bytes());
        central.extend_from_slice(&0_u16.to_le_bytes());
        central.extend_from_slice(&0_u32.to_le_bytes());
        central.extend_from_slice(&offset.to_le_bytes());
        central.extend_from_slice(name);
        central.extend_from_slice(&entry.central_extra);
    }
    let central_offset = bytes.len() as u32;
    bytes.extend_from_slice(&central);
    bytes.extend_from_slice(&0x0605_4b50_u32.to_le_bytes());
    bytes.extend_from_slice(&0_u16.to_le_bytes());
    bytes.extend_from_slice(&0_u16.to_le_bytes());
    bytes.extend_from_slice(&(entries.len() as u16).to_le_bytes());
    bytes.extend_from_slice(&(entries.len() as u16).to_le_bytes());
    bytes.extend_from_slice(&(central.len() as u32).to_le_bytes());
    bytes.extend_from_slice(&central_offset.to_le_bytes());
    bytes.extend_from_slice(&0_u16.to_le_bytes());
    bytes
}

fn assert_format_error(result: Result<(), FormatError>, expected: FormatError) {
    let error = result.unwrap_err();
    assert_eq!(error, expected, "unexpected error: {error:?}");
}

#[test]
fn central_directory_entry_count_limit_is_exact() {
    let entries = (0..MAX_ARCHIVE_ENTRIES)
        .map(|index| MetadataEntry::empty(format!("e{index}")))
        .collect::<Vec<_>>();
    let mut archive = metadata_zip(&entries);
    assert!(validate_central_paths(&archive).is_ok());
    let eocd = archive.len() - 22;
    let one_over = (MAX_ARCHIVE_ENTRIES as u16 + 1).to_le_bytes();
    archive[eocd + 8..eocd + 10].copy_from_slice(&one_over);
    archive[eocd + 10..eocd + 12].copy_from_slice(&one_over);
    assert_format_error(
        validate_central_paths(&archive),
        FormatError::LimitExceeded("ORA entry count"),
    );
}

#[test]
fn central_directory_declared_size_limits_are_checked_without_allocation() {
    let exact_entry = metadata_zip(&[MetadataEntry::declared("exact", MAX_ENTRY_BYTES as u32)]);
    assert!(validate_central_paths(&exact_entry).is_ok());
    let over_entry = metadata_zip(&[MetadataEntry::declared("over", MAX_ENTRY_BYTES as u32 + 1)]);
    assert_format_error(
        validate_central_paths(&over_entry),
        FormatError::LimitExceeded("ORA entry bytes"),
    );

    let exact_expanded = metadata_zip(&[
        MetadataEntry::declared("a", MAX_ENTRY_BYTES as u32),
        MetadataEntry::declared("b", MAX_ENTRY_BYTES as u32),
    ]);
    assert!(validate_central_paths(&exact_expanded).is_ok());
    let over_expanded = metadata_zip(&[
        MetadataEntry::declared("a", MAX_ENTRY_BYTES as u32),
        MetadataEntry::declared("b", MAX_ENTRY_BYTES as u32),
        MetadataEntry::declared("c", 1),
    ]);
    assert_format_error(
        validate_central_paths(&over_expanded),
        FormatError::LimitExceeded("ORA expanded bytes"),
    );
}

#[test]
fn central_directory_rejects_encryption_zip64_and_multidisk_markers() {
    let encrypted = metadata_zip(&[MetadataEntry {
        flags: 1,
        ..MetadataEntry::empty("encrypted")
    }]);
    assert_format_error(
        validate_central_paths(&encrypted),
        FormatError::UnsupportedFeature("encrypted ORA ZIP entry"),
    );

    let mut zip64_eocd = metadata_zip(&[MetadataEntry::empty("zip64-eocd")]);
    let eocd = zip64_eocd.len() - 22;
    zip64_eocd[eocd + 8..eocd + 12].fill(0xff);
    assert_format_error(
        validate_central_paths(&zip64_eocd),
        FormatError::UnsupportedFeature("multi-disk or ZIP64 ORA archive"),
    );

    let mut zip64_offset = metadata_zip(&[MetadataEntry::empty("zip64-offset")]);
    let eocd = zip64_offset.len() - 22;
    zip64_offset[eocd + 16..eocd + 20].fill(0xff);
    assert_format_error(
        validate_central_paths(&zip64_offset),
        FormatError::UnsupportedFeature("multi-disk or ZIP64 ORA archive"),
    );

    let mut zip64_entry = metadata_zip(&[MetadataEntry::empty("zip64-entry")]);
    let eocd = zip64_entry.len() - 22;
    let central = little_u32(&zip64_entry, eocd + 16).unwrap() as usize;
    zip64_entry[central + 24..central + 28].fill(0xff);
    assert_format_error(
        validate_central_paths(&zip64_entry),
        FormatError::UnsupportedFeature("multi-disk or ZIP64 ORA archive"),
    );

    let zip64_local_extra = metadata_zip(&[MetadataEntry {
        local_extra: vec![1, 0, 0, 0],
        ..MetadataEntry::empty("zip64-local-extra")
    }]);
    assert_format_error(
        validate_central_paths(&zip64_local_extra),
        FormatError::UnsupportedFeature("multi-disk or ZIP64 ORA archive"),
    );
    let zip64_central_extra = metadata_zip(&[MetadataEntry {
        central_extra: vec![1, 0, 0, 0],
        ..MetadataEntry::empty("zip64-central-extra")
    }]);
    assert_format_error(
        validate_central_paths(&zip64_central_extra),
        FormatError::UnsupportedFeature("multi-disk or ZIP64 ORA archive"),
    );

    for field in [4_usize, 6] {
        let mut multidisk = metadata_zip(&[MetadataEntry::empty("multidisk")]);
        let eocd = multidisk.len() - 22;
        multidisk[eocd + field..eocd + field + 2].copy_from_slice(&1_u16.to_le_bytes());
        assert_format_error(
            validate_central_paths(&multidisk),
            FormatError::UnsupportedFeature("multi-disk or ZIP64 ORA archive"),
        );
    }
    let mut split_counts = metadata_zip(&[MetadataEntry::empty("split-counts")]);
    let eocd = split_counts.len() - 22;
    split_counts[eocd + 8..eocd + 10].copy_from_slice(&0_u16.to_le_bytes());
    assert_format_error(
        validate_central_paths(&split_counts),
        FormatError::UnsupportedFeature("multi-disk or ZIP64 ORA archive"),
    );
}

#[test]
fn central_directory_rejects_local_central_inconsistency() {
    for (offset, replacement) in [(6_usize, 2_u16.to_le_bytes()), (8, 8_u16.to_le_bytes())] {
        let mut mismatch = metadata_zip(&[MetadataEntry::empty("mismatch")]);
        mismatch[offset..offset + 2].copy_from_slice(&replacement);
        assert_format_error(
            validate_central_paths(&mismatch),
            FormatError::Malformed("ORA ZIP local/central mismatch"),
        );
    }
    for offset in [14_usize, 18, 22] {
        let mut mismatch = metadata_zip(&[MetadataEntry::empty("mismatch")]);
        mismatch[offset..offset + 4].copy_from_slice(&1_u32.to_le_bytes());
        assert_format_error(
            validate_central_paths(&mismatch),
            FormatError::Malformed("ORA ZIP local/central mismatch"),
        );
    }
    let mut name_mismatch = metadata_zip(&[MetadataEntry::empty("mismatch")]);
    name_mismatch[30] = b'M';
    assert_format_error(
        validate_central_paths(&name_mismatch),
        FormatError::Malformed("ORA ZIP local/central mismatch"),
    );

    let descriptor_mismatch = metadata_zip(&[MetadataEntry {
        flags: 0x0008,
        checksum: 1,
        ..MetadataEntry::empty("descriptor")
    }]);
    let mut descriptor_mismatch = descriptor_mismatch;
    descriptor_mismatch[14..18].copy_from_slice(&2_u32.to_le_bytes());
    assert_format_error(
        validate_central_paths(&descriptor_mismatch),
        FormatError::Malformed("ORA ZIP local/central mismatch"),
    );

    let payload_overrun = metadata_zip(&[MetadataEntry {
        compressed: 1,
        ..MetadataEntry::empty("overrun")
    }]);
    assert_format_error(
        validate_central_paths(&payload_overrun),
        FormatError::Malformed("ORA ZIP local/central mismatch"),
    );
}

#[test]
fn central_directory_rejects_unsafe_and_duplicate_paths() {
    let traversal = metadata_zip(&[MetadataEntry::empty("data/../x.png")]);
    assert_format_error(
        validate_central_paths(&traversal),
        FormatError::Malformed("unsafe or duplicate ORA path"),
    );
    let duplicate = metadata_zip(&[MetadataEntry::empty("a.png"), MetadataEntry::empty("a.png")]);
    assert_format_error(
        validate_central_paths(&duplicate),
        FormatError::Malformed("unsafe or duplicate ORA path"),
    );
    assert!(validate_central_paths(&[]).is_err());
}

#[test]
fn safe_paths_reject_absolute_backslash_and_dot_components() {
    assert!(safe_path(b"data/layer.png"));
    assert!(safe_path(b"stack.xml"));
    assert!(!safe_path(b""));
    assert!(!safe_path(b"/abs.png"));
    assert!(!safe_path(b"data\\x.png"));
    assert!(!safe_path(b"data//x.png"));
    assert!(!safe_path(b"./x.png"));
    assert!(!safe_path(b"data/.."));
    assert!(safe_path(b"data/...png"));
}

#[test]
fn little_endian_reads_need_enough_bytes() {
    assert_eq!(little_u16(&[0x34, 0x12], 0), Some(0x1234));
    assert_eq!(little_u16(&[0x34, 0x12], 1), None);
    assert_eq!(little_u32(&[0, 0x78, 0x56, 0x34, 0x12], 1), Some(0x1234_5678));
    assert_eq!(little_u32(&[0x78, 0x56, 0x34], 0), None);
    assert_eq!(little_u16(&[1, 2], usize::MAX), None);
}

fn written_archive(entries: &[(&str, &[u8], bool)]) -> Vec<u8> {
    let mut writer = zip::ZipWriter::new(std::io::Cursor::new(Vec::new()));
    for (name, content, stored) in entries {
        let method = if *stored {
            zip::CompressionMethod::Stored
        } else {
            zip::CompressionMethod::Deflated
        };
        let options = zip::write::SimpleFileOptions::default().compression_method(method);
        writer.start_file(*name, options).unwrap();
        writer.write_all(content).unwrap();
    }
    writer.finish().unwrap().into_inner()
}

fn archive_format_error(bytes: &[u8]) -> FormatError {
    match read_archive(bytes) {
        Err(CoreError::Format(error)) => error,
        Err(other) => panic!("unexpected {other:?}"),
        Ok(files) => panic!("unexpected success with {} files", files.len()),
    }
}

#[test]
fn archive_reader_returns_every_entry_decompressed_in_order() {
    let layer = vec![7u8; 5000];
    let bytes = written_archive(&[
        ("mimetype", b"image/openraster", true),
        ("stack.xml", b"<image w=\"1\" h=\"1\"/>", false),
        ("data/layer0.png", &layer, false),
    ]);
    let files = read_archive(&bytes).unwrap();
    let names: Vec<&str> = files.iter().map(|(name, _)| name.as_str()).collect();
    assert_eq!(names, vec!["mimetype", "stack.xml", "data/layer0.png"]);
    assert_eq!(files[0].1, b"image/openraster");
    assert_eq!(files[1].1, b"<image w=\"1\" h=\"1\"/>");
    assert_eq!(files[2].1, layer);
}

#[test]
fn archive_reader_requires_the_canonical_files() {
    let missing_stack = written_archive(&[("mimetype", b"image/openraster", true)]);
    assert_eq!(
        archive_format_error(&missing_stack),
        FormatError::Malformed("missing canonical ORA files")
    );
    let wrong_mimetype = written_archive(&[
        ("mimetype", b"image/png", true),
        ("stack.xml", b"<image/>", true),
    ]);
    assert_eq!(
        archive_format_error(&wrong_mimetype),
        FormatError::Malformed("missing canonical ORA files")
    );
}

#[test]
fn archive_reader_reports_directory_problems_first() {
    let traversal = written_archive(&[
        ("mimetype", b"image/openraster", true),
        ("../stack.xml", b"<image/>", true),
    ]);
    assert_eq!(
        archive_format_error(&traversal),
        validate_central_paths(&traversal).unwrap_err()
    );
    assert_eq!(
        archive_format_error(b"not a zip"),
        FormatError::Malformed("missing ORA ZIP directory")
    );
}
