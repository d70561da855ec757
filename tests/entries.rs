use rexif::exif::tag_to_exif;
use rexif::value::tag_value_new;
use rexif::{ifdformat_new, parse_ifd, ExifTag, IfdEntry, IfdFormat, IfdKind, Namespace, TagValue};

fn raw_entry(format: IfdFormat, count: u32, ifd_data: Vec<u8>, le: bool) -> IfdEntry {
    IfdEntry {
        namespace: Namespace::Standard,
        tag: 0x0112,
        format,
        count,
        data: vec![],
        ifd_data,
        ext_data: vec![],
        le,
    }
}

#[test]
fn in_ifd_follows_payload_length() {
    let one = raw_entry(IfdFormat::U32, 1, vec![0; 4], true);
    assert_eq!(one.size(), 4);
    assert_eq!(one.length(), 4);
    assert!(one.in_ifd());
    let two = raw_entry(IfdFormat::U32, 2, vec![0; 4], true);
    assert_eq!(two.length(), 8);
    assert!(!two.in_ifd());
    let big = raw_entry(IfdFormat::F64, u32::MAX, vec![0; 4], true);
    assert_eq!(big.length(), 8 * u32::MAX as u64);
}

#[test]
fn element_sizes() {
    let sizes = [
        (IfdFormat::U8, 1), (IfdFormat::Ascii, 1), (IfdFormat::U16, 2), (IfdFormat::U32, 4),
        (IfdFormat::URational, 8), (IfdFormat::I8, 1), (IfdFormat::Undefined, 1),
        (IfdFormat::I16, 2), (IfdFormat::I32, 4), (IfdFormat::IRational, 8),
        (IfdFormat::F32, 4), (IfdFormat::F64, 8), (IfdFormat::Unknown, 1),
    ];
    for (f, s) in sizes {
        assert_eq!(raw_entry(f, 1, vec![], true).size(), s);
    }
}

#[test]
fn format_codes() {
    assert_eq!(IfdFormat::new(3), IfdFormat::U16);
    assert_eq!(IfdFormat::new(12), IfdFormat::F64);
    assert_eq!(IfdFormat::new(0), IfdFormat::Unknown);
    assert_eq!(IfdFormat::new(13), IfdFormat::Unknown);
    assert_eq!(ifdformat_new(5), IfdFormat::URational);
    for code in 0u16..13 {
        assert_eq!(IfdFormat::new(code).code(), code);
    }
}

#[test]
fn data_as_offset_reads_value_field() {
    let e = raw_entry(IfdFormat::U32, 2, vec![0x10, 0, 0, 0], true);
    assert_eq!(e.try_data_as_offset(), Some(16));
    assert_eq!(e.data_as_offset(), 16);
    let b = raw_entry(IfdFormat::U32, 2, vec![0, 0, 0x01, 0x00], false);
    assert_eq!(b.try_data_as_offset(), Some(256));
    let short = raw_entry(IfdFormat::U32, 2, vec![0, 0], false);
    assert_eq!(short.try_data_as_offset(), None);
}

#[test]
fn copy_data_inline_truncates_to_length() {
    let mut e = raw_entry(IfdFormat::U16, 1, vec![1, 0, 9, 9], true);
    assert!(e.copy_data(&[]));
    assert_eq!(e.data, vec![1, 0]);
    assert!(e.ext_data.is_empty());
}

#[test]
fn copy_data_external() {
    let file = [0u8, 1, 2, 3, 4, 5, 6, 7, 8, 9, 10, 11];
    let mut e = raw_entry(IfdFormat::U32, 2, vec![2, 0, 0, 0], true);
    assert!(e.copy_data(&file));
    assert_eq!(e.data, vec![2, 3, 4, 5, 6, 7, 8, 9]);
    assert_eq!(e.ext_data, e.data);
    let mut past = raw_entry(IfdFormat::U32, 2, vec![5, 0, 0, 0], true);
    assert!(!past.copy_data(&file));
    assert!(past.data.is_empty());
}

#[test]
fn orientation_record_decodes_to_u16() {
    // tag 0x0112, format 3, count 1, value field 01 00 00 00, little-endian
    let record = [0x01, 0x00, 0x12, 0x01, 0x03, 0x00, 0x01, 0x00, 0x00, 0x00, 0x01, 0x00, 0x00, 0x00];
    let es = parse_ifd(&record, 0, true, IfdKind::Ifd0).unwrap();
    assert_eq!(es.len(), 1);
    assert_eq!(es[0].ifd.tag, 0x0112);
    assert_eq!(es[0].ifd.format, IfdFormat::U16);
    assert_eq!(es[0].value, TagValue::U16(vec![1]));
    assert_eq!(es[0].tag, ExifTag::Orientation);
    assert_eq!(es[0].unit, "none");
    assert_eq!(es[0].kind, IfdKind::Ifd0);
}

#[test]
fn truncated_directory_is_refused() {
    assert!(parse_ifd(&[0x02, 0x00, 0, 0], 0, true, IfdKind::Ifd0).is_none());
    assert!(parse_ifd(&[0x00], 0, true, IfdKind::Ifd0).is_none());
    assert!(parse_ifd(&[0, 0], 3, true, IfdKind::Ifd0).is_none());
}

fn with_data(format: IfdFormat, count: u32, data: Vec<u8>, le: bool) -> IfdEntry {
    let mut e = raw_entry(format, count, vec![0; 4], le);
    e.data = data;
    e
}

#[test]
fn values_by_format() {
    assert_eq!(tag_value_new(&with_data(IfdFormat::U16, 2, vec![0, 1, 0, 2], false)), TagValue::U16(vec![1, 2]));
    assert_eq!(tag_value_new(&with_data(IfdFormat::I16, 1, vec![0xff, 0xff], true)), TagValue::I16(vec![-1]));
    assert_eq!(tag_value_new(&with_data(IfdFormat::U8, 2, vec![7, 8, 9], true)), TagValue::U8(vec![7, 8]));
    assert_eq!(
        tag_value_new(&with_data(IfdFormat::Ascii, 6, b"Canon\0".to_vec(), true)),
        TagValue::Ascii("Canon".to_string())
    );
    assert_eq!(
        tag_value_new(&with_data(IfdFormat::Undefined, 2, vec![0x30, 0x32], false)),
        TagValue::Undefined(vec![0x30, 0x32], false)
    );
    assert_eq!(
        tag_value_new(&with_data(IfdFormat::F32, 1, 1.5f32.to_le_bytes().to_vec(), true)),
        TagValue::F32(vec![1.5f32.to_bits()])
    );
    assert_eq!(
        tag_value_new(&with_data(IfdFormat::Unknown, 2, vec![1, 2], true)),
        TagValue::Unknown(vec![1, 2], true)
    );
}

#[test]
fn short_payload_is_invalid() {
    assert_eq!(
        tag_value_new(&with_data(IfdFormat::U32, 2, vec![1, 2, 3], true)),
        TagValue::Invalid(vec![1, 2, 3], true, 4, 2)
    );
}

#[test]
fn to_i64_reads_integer_elements() {
    assert_eq!(TagValue::U16(vec![3, 4]).to_i64(1), Some(4));
    assert_eq!(TagValue::I32(vec![-5]).to_i64(0), Some(-5));
    assert_eq!(TagValue::I32(vec![-5]).to_i64(1), None);
    assert_eq!(TagValue::Ascii("x".to_string()).to_i64(0), None);
}

#[test]
fn tag_table_lookup() {
    let (tag, unit, format, min, max) = tag_to_exif(0x8769);
    assert_eq!(tag, ExifTag::ExifOffset);
    assert_eq!(unit, "byte offset");
    assert_eq!(format, IfdFormat::U32);
    assert_eq!((min, max), (1, 1));
    assert_eq!(tag_to_exif(0x0002).0, ExifTag::GPSLatitude);
    assert_eq!(tag_to_exif(0xbeef).0, ExifTag::UnknownToMe);
    assert_eq!(ExifTag::GPSOffset.code(), 0x8825);
    assert_eq!(ExifTag::UnknownToMe.code(), 0xffff);
}
