use rexif::{detect_type, find_embedded_tiff_in_jpeg, ExifError, FileType};

fn jpeg_with_app1(payload: &[u8]) -> Vec<u8> {
    let size = payload.len() + 8;
    let mut v = vec![0xff, 0xd8, 0xff, 0xe1, (size >> 8) as u8, size as u8];
    v.extend_from_slice(b"Exif\0\0");
    v.extend_from_slice(payload);
    v
}

#[test]
fn classifies_tiff_headers() {
    let mut le = b"II*\0".to_vec();
    le.extend_from_slice(&[0; 7]);
    assert!(detect_type(&le) == FileType::TIFF);
    let mut be = b"MM\0*".to_vec();
    be.extend_from_slice(&[0; 7]);
    assert!(detect_type(&be) == FileType::TIFF);
}

#[test]
fn classifies_jpeg_headers() {
    let jfif = [0xff, 0xd8, 0xff, 0xe0, 0, 16, b'J', b'F', b'I', b'F', 0];
    assert!(detect_type(&jfif) == FileType::JPEG);
    let exif = [0xff, 0xd8, 0xff, 0xe1, 0, 16, b'E', b'x', b'i', b'f', 0];
    assert!(detect_type(&exif) == FileType::JPEG);
    let other = [0xff, 0xd8, 0xff, 0xe1, 0, 16, b'X', b'x', b'i', b'f', 0];
    assert!(detect_type(&other) == FileType::Unknown);
}

#[test]
fn short_buffers_are_unknown() {
    assert!(detect_type(b"II*\0") == FileType::Unknown);
    assert!(detect_type(&[]) == FileType::Unknown);
    assert!(detect_type(&[0xff, 0xd8, 0xff, 0xe0, 0, 16, b'J', b'F', b'I', b'F']) == FileType::Unknown);
}

#[test]
fn mime_strings() {
    assert_eq!(FileType::JPEG.as_str(), "image/jpeg");
    assert_eq!(FileType::TIFF.as_str(), "image/tiff");
    assert_eq!(FileType::Unknown.as_str(), "application/octet-stream");
}

#[test]
fn finds_tiff_block_after_exif_tag() {
    let v = jpeg_with_app1(&[1, 2, 3, 4, 5]);
    assert_eq!(find_embedded_tiff_in_jpeg(&v).unwrap(), (12, 5));
}

#[test]
fn steps_over_other_segments() {
    let mut v = vec![0xff, 0xd8, 0xff, 0xe0, 0, 4, 9, 9];
    let rest = jpeg_with_app1(&[7, 7]);
    v.extend_from_slice(&rest[2..]);
    assert_eq!(find_embedded_tiff_in_jpeg(&v).unwrap(), (18, 2));
}

#[test]
fn scan_marker_first_means_no_exif() {
    let v = [0xff, 0xd8, 0xff, 0xda, 0, 4, 0, 0, 0xff, 0xe1];
    assert!(matches!(find_embedded_tiff_in_jpeg(&v), Err(ExifError::JpegWithoutExif(_))));
}

#[test]
fn malformed_segments_fail() {
    // truncated marker header
    assert!(matches!(find_embedded_tiff_in_jpeg(&[0xff, 0xd8, 0xff]), Err(ExifError::JpegWithoutExif(_))));
    // invalid marker
    assert!(matches!(find_embedded_tiff_in_jpeg(&[0xff, 0xd8, 0x12, 0x34, 0, 4, 0, 0]), Err(ExifError::JpegWithoutExif(_))));
    // size below 2
    assert!(matches!(find_embedded_tiff_in_jpeg(&[0xff, 0xd8, 0xff, 0xe0, 0, 1]), Err(ExifError::JpegWithoutExif(_))));
    // body past the end
    assert!(matches!(find_embedded_tiff_in_jpeg(&[0xff, 0xd8, 0xff, 0xe0, 0, 9, 0]), Err(ExifError::JpegWithoutExif(_))));
    // APP1 without the EXIF tag
    assert!(matches!(
        find_embedded_tiff_in_jpeg(&[0xff, 0xd8, 0xff, 0xe1, 0, 8, b'J', b'F', b'I', b'F', 0, 0]),
        Err(ExifError::JpegWithoutExif(_))
    ));
    // APP1 too short for the tag
    assert!(matches!(find_embedded_tiff_in_jpeg(&[0xff, 0xd8, 0xff, 0xe1, 0, 4, 0, 0]), Err(ExifError::JpegWithoutExif(_))));
    // end of data without APP1
    assert!(matches!(find_embedded_tiff_in_jpeg(&[0xff, 0xd8, 0xff, 0xe0, 0, 2]), Err(ExifError::JpegWithoutExif(_))));
}
