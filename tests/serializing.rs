use rexif::exif::tag_to_exif;
use rexif::{
    parse_buffer, parse_tiff, ExifData, ExifEntry, ExifError, ExifTag, FileType, IfdEntry,
    IfdFormat, IfdKind, Namespace, TagValue,
};

fn entry(tag: u16, format: IfdFormat, count: u32, data: Vec<u8>, kind: IfdKind, le: bool) -> ExifEntry {
    ExifEntry {
        namespace: Namespace::Standard,
        ifd: IfdEntry {
            namespace: Namespace::Standard,
            tag,
            format,
            count,
            data,
            ifd_data: vec![0; 4],
            ext_data: vec![],
            le,
        },
        tag: tag_to_exif(tag).0,
        value: TagValue::Unknown(vec![], le),
        unit: String::new(),
        value_more_readable: String::new(),
        kind,
    }
}

#[test]
fn one_inline_entry_little_endian() {
    let d = ExifData::new(
        FileType::TIFF,
        vec![entry(0x0112, IfdFormat::U16, 1, vec![1, 0], IfdKind::Ifd0, true)],
        true,
    );
    let out = d.serialize().unwrap();
    assert_eq!(
        out,
        vec![
            0x49, 0x49, 0x2a, 0x00, 0x08, 0x00, 0x00, 0x00, 0x01, 0x00, 0x12, 0x01, 0x03, 0x00,
            0x01, 0x00, 0x00, 0x00, 0x01, 0x00, 0x00, 0x00, 0x00, 0x00, 0x00, 0x00
        ]
    );
}

#[test]
fn one_inline_entry_big_endian() {
    let d = ExifData::new(
        FileType::TIFF,
        vec![entry(0x0112, IfdFormat::U16, 1, vec![0, 1], IfdKind::Ifd0, false)],
        false,
    );
    let out = d.serialize().unwrap();
    assert_eq!(
        out,
        vec![
            0x4d, 0x4d, 0x00, 0x2a, 0x00, 0x00, 0x00, 0x08, 0x00, 0x01, 0x01, 0x12, 0x00, 0x03,
            0x00, 0x00, 0x00, 0x01, 0x00, 0x01, 0x00, 0x00, 0x00, 0x00, 0x00, 0x00
        ]
    );
}

#[test]
fn external_payload_is_patched() {
    let d = ExifData::new(
        FileType::TIFF,
        vec![
            entry(0x0112, IfdFormat::U16, 1, vec![1, 0], IfdKind::Ifd0, true),
            entry(0x011a, IfdFormat::URational, 1, vec![72, 0, 0, 0, 1, 0, 0, 0], IfdKind::Ifd0, true),
        ],
        true,
    );
    let out = d.serialize().unwrap();
    let mut want = vec![0x49, 0x49, 0x2a, 0x00, 0x08, 0x00, 0x00, 0x00, 0x02, 0x00];
    want.extend_from_slice(&[0x12, 0x01, 0x03, 0x00, 0x01, 0x00, 0x00, 0x00, 0x01, 0x00, 0x00, 0x00]);
    want.extend_from_slice(&[0x1a, 0x01, 0x05, 0x00, 0x01, 0x00, 0x00, 0x00, 0x26, 0x00, 0x00, 0x00]);
    want.extend_from_slice(&[0, 0, 0, 0]);
    want.extend_from_slice(&[72, 0, 0, 0, 1, 0, 0, 0]);
    assert_eq!(out, want);
}

fn with_exif_subdirectory(mime: FileType) -> ExifData {
    ExifData::new(
        mime,
        vec![
            entry(0x8769, IfdFormat::U32, 1, vec![0, 0, 0, 0], IfdKind::Ifd0, true),
            entry(0x8827, IfdFormat::U16, 1, vec![100, 0], IfdKind::Exif, true),
        ],
        true,
    )
}

fn exif_subdirectory_bytes() -> Vec<u8> {
    let mut want = vec![0x49, 0x49, 0x2a, 0x00, 0x08, 0x00, 0x00, 0x00, 0x01, 0x00];
    want.extend_from_slice(&[0x69, 0x87, 0x04, 0x00, 0x01, 0x00, 0x00, 0x00, 0x1a, 0x00, 0x00, 0x00]);
    want.extend_from_slice(&[0, 0, 0, 0, 0x01, 0x00]);
    want.extend_from_slice(&[0x27, 0x88, 0x03, 0x00, 0x01, 0x00, 0x00, 0x00, 0x64, 0x00, 0x00, 0x00]);
    want.extend_from_slice(&[0, 0, 0, 0]);
    want
}

#[test]
fn sub_directory_pointer_is_backfilled() {
    let out = with_exif_subdirectory(FileType::TIFF).serialize().unwrap();
    assert_eq!(out, exif_subdirectory_bytes());
}

#[test]
fn jpeg_output_carries_exif_tag() {
    let out = with_exif_subdirectory(FileType::JPEG).serialize().unwrap();
    let mut want = b"Exif\0\0".to_vec();
    want.extend_from_slice(&exif_subdirectory_bytes());
    assert_eq!(out, want);
}

#[test]
fn gps_without_pointer_is_refused() {
    let d = ExifData::new(
        FileType::TIFF,
        vec![
            entry(0x0112, IfdFormat::U16, 1, vec![1, 0], IfdKind::Ifd0, true),
            entry(0x0001, IfdFormat::Ascii, 2, vec![b'N', 0], IfdKind::Gps, true),
        ],
        true,
    );
    assert_eq!(d.serialize().unwrap_err(), ExifError::MissingExifOffset);
}

#[test]
fn thumbnail_entry_is_refused() {
    let d = ExifData::new(
        FileType::TIFF,
        vec![
            entry(0x0112, IfdFormat::U16, 1, vec![1, 0], IfdKind::Ifd0, true),
            entry(0x0103, IfdFormat::U16, 1, vec![6, 0], IfdKind::Ifd1, true),
        ],
        true,
    );
    assert_eq!(d.serialize().unwrap_err(), ExifError::UnsupportedNamespace);
}

#[test]
fn maker_namespace_is_refused() {
    let mut e = entry(0x0001, IfdFormat::U16, 1, vec![1, 0], IfdKind::Ifd0, true);
    e.ifd.namespace = Namespace::Canon;
    let d = ExifData::new(FileType::TIFF, vec![e], true);
    assert_eq!(d.serialize().unwrap_err(), ExifError::UnsupportedNamespace);
}

#[test]
fn makernote_entries_are_left_out() {
    let d = ExifData::new(
        FileType::TIFF,
        vec![
            entry(0x0112, IfdFormat::U16, 1, vec![1, 0], IfdKind::Ifd0, true),
            entry(0x0001, IfdFormat::U16, 1, vec![5, 0], IfdKind::Makernote, true),
        ],
        true,
    );
    assert_eq!(d.serialize().unwrap().len(), 26);
}

#[test]
fn empty_set_serializes_to_header_and_empty_directory() {
    let d = ExifData::new(FileType::TIFF, vec![], false);
    assert_eq!(
        d.serialize().unwrap(),
        vec![0x4d, 0x4d, 0x00, 0x2a, 0, 0, 0, 8, 0, 0, 0, 0, 0, 0]
    );
}

fn reserialize(d: &ExifData) -> (Vec<u8>, Vec<u8>) {
    let first = d.serialize().unwrap();
    let (entries, le) = parse_tiff(&first).unwrap();
    let again = ExifData::new(d.mime, entries, le);
    (first, again.serialize().unwrap())
}

#[test]
fn round_trip_is_byte_identical() {
    let d = ExifData::new(
        FileType::TIFF,
        vec![
            entry(0x010f, IfdFormat::Ascii, 6, b"Canon\0".to_vec(), IfdKind::Ifd0, true),
            entry(0x8769, IfdFormat::U32, 1, vec![0, 0, 0, 0], IfdKind::Ifd0, true),
            entry(0x8825, IfdFormat::U32, 1, vec![9, 9, 9, 9], IfdKind::Ifd0, true),
            entry(0x829a, IfdFormat::URational, 1, vec![1, 0, 0, 0, 100, 0, 0, 0], IfdKind::Exif, true),
            entry(0x8827, IfdFormat::U16, 1, vec![200, 0], IfdKind::Exif, true),
            entry(0x0002, IfdFormat::URational, 3, (0u8..24).collect(), IfdKind::Gps, true),
        ],
        true,
    );
    let (first, second) = reserialize(&d);
    assert_eq!(first, second);
}

#[test]
fn round_trip_big_endian() {
    let d = ExifData::new(
        FileType::TIFF,
        vec![
            entry(0x0110, IfdFormat::Ascii, 3, b"X1\0".to_vec(), IfdKind::Ifd0, false),
            entry(0x011a, IfdFormat::URational, 1, vec![0, 0, 0, 72, 0, 0, 0, 1], IfdKind::Ifd0, false),
        ],
        false,
    );
    let (first, second) = reserialize(&d);
    assert_eq!(first, second);
}

#[test]
fn parses_tiff_buffer() {
    let out = with_exif_subdirectory(FileType::TIFF).serialize().unwrap();
    let d = parse_buffer(&out).unwrap();
    assert!(d.mime == FileType::TIFF);
    assert!(d.le);
    assert_eq!(d.entries.len(), 2);
    assert_eq!(d.entries[0].tag, ExifTag::ExifOffset);
    assert_eq!(d.entries[0].value, TagValue::U32(vec![0x1a]));
    assert_eq!(d.entries[1].kind, IfdKind::Exif);
    assert_eq!(d.entries[1].tag, ExifTag::ISOSpeedRatings);
    assert_eq!(d.entries[1].value, TagValue::U16(vec![100]));
    assert_eq!(d.entries[1].value().to_i64(0), Some(100));
    assert_eq!(d.entries[1].unit(), "ISO");
}

#[test]
fn parses_jpeg_buffer() {
    let tiff = with_exif_subdirectory(FileType::TIFF).serialize().unwrap();
    let size = tiff.len() + 8;
    let mut jpeg = vec![0xff, 0xd8, 0xff, 0xe1, (size >> 8) as u8, size as u8];
    jpeg.extend_from_slice(b"Exif\0\0");
    jpeg.extend_from_slice(&tiff);
    jpeg.extend_from_slice(&[0xff, 0xd9]);
    let d = parse_buffer(&jpeg).unwrap();
    assert!(d.mime == FileType::JPEG);
    assert_eq!(d.entries.len(), 2);
    let again = d.serialize().unwrap();
    assert_eq!(&again[..6], b"Exif\0\0");
    assert_eq!(&again[6..], &tiff[..]);
}

#[test]
fn parse_errors() {
    assert_eq!(parse_buffer(&[0; 20]).unwrap_err(), ExifError::FileTypeUnknown);
    assert_eq!(parse_tiff(&[0x49, 0x49, 0x2a]).unwrap_err(), ExifError::TiffTruncated);
    assert!(matches!(parse_tiff(&[0x49, 0x49, 0x2b, 0, 8, 0, 0, 0]), Err(ExifError::TiffBadPreamble(_))));
    assert_eq!(parse_tiff(&[0x49, 0x49, 0x2a, 0, 8, 0, 0, 0, 1, 0]).unwrap_err(), ExifError::IfdTruncated);
    let mut bad_sub = exif_subdirectory_bytes();
    bad_sub[18] = 0xf0;
    assert!(matches!(parse_tiff(&bad_sub), Err(ExifError::ExifIfdTruncated(_))));
}

#[test]
fn pointer_entries_compare_without_their_offsets() {
    let a = entry(0x8769, IfdFormat::U32, 1, vec![0x1a, 0, 0, 0], IfdKind::Ifd0, true);
    let b = entry(0x8769, IfdFormat::U32, 1, vec![0x40, 0, 0, 0], IfdKind::Ifd0, true);
    assert!(a.ifd == b.ifd);
    let c = entry(0x0112, IfdFormat::U16, 1, vec![1, 0], IfdKind::Ifd0, true);
    let e = entry(0x0112, IfdFormat::U16, 1, vec![3, 0], IfdKind::Ifd0, true);
    assert!(c.ifd != e.ifd);
    assert!(c != e);
    assert!(c == c.clone());
}

#[test]
fn reading_back_twice_gives_equal_sets() {
    let first = with_exif_subdirectory(FileType::TIFF).serialize().unwrap();
    let a = parse_buffer(&first).unwrap();
    let second = a.serialize().unwrap();
    let b = parse_buffer(&second).unwrap();
    assert!(a == b);
    assert_eq!(first, second);
}

#[test]
fn pointer_is_found_by_tag_not_by_code() {
    let mut unnamed = entry(0x8825, IfdFormat::U32, 1, vec![0, 0, 0, 0], IfdKind::Ifd0, true);
    unnamed.tag = ExifTag::UnknownToMe;
    let d = ExifData::new(
        FileType::TIFF,
        vec![unnamed, entry(0x0001, IfdFormat::Ascii, 2, vec![b'N', 0], IfdKind::Gps, true)],
        true,
    );
    assert_eq!(d.serialize().unwrap_err(), ExifError::MissingExifOffset);
}

#[test]
fn pointer_tag_with_other_code_gets_the_offset() {
    let mut named = entry(0x9999, IfdFormat::U32, 1, vec![0, 0, 0, 0], IfdKind::Ifd0, true);
    named.tag = ExifTag::ExifOffset;
    let d = ExifData::new(
        FileType::TIFF,
        vec![named, entry(0x8827, IfdFormat::U16, 1, vec![100, 0], IfdKind::Exif, true)],
        true,
    );
    let out = d.serialize().unwrap();
    assert_eq!(&out[10..22], &[0x99, 0x99, 0x04, 0x00, 0x01, 0x00, 0x00, 0x00, 0x1a, 0x00, 0x00, 0x00]);
}

#[test]
fn record_equality_ignores_format() {
    let a = entry(0x0112, IfdFormat::U16, 1, vec![1, 0], IfdKind::Ifd0, true);
    let mut b = a.clone();
    b.ifd.format = IfdFormat::I16;
    assert!(a.ifd == b.ifd);
    b.ifd.count = 2;
    assert!(a.ifd != b.ifd);
}

#[test]
fn error_texts() {
    assert_eq!(ExifError::TiffTruncated.text(), "TIFF truncated at start");
    assert_eq!(
        ExifError::JpegWithoutExif("no APP1".to_string()).text(),
        "JPEG without EXIF section: no APP1"
    );
    assert_eq!(ExifError::MissingExifOffset.text(), "Expected to have seen ExifOffset tag in IFD0");
}
