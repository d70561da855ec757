//! Recognising the container of an image and finding the TIFF block that a
//! JPEG carries in its APP1 segment.
use crate::types::ExifError;
use vstd::prelude::*;

verus! {

/// The kinds of container this library reads.
#[derive(Copy, Clone, Debug, PartialEq, Eq, Structural)]
pub enum FileType {
    Unknown,
    JPEG,
    TIFF,
}

impl FileType {
    /// The MIME type of the container.
    pub fn as_str(&self) -> (r: &'static str)
        ensures
            *self == FileType::Unknown ==> r@ == "application/octet-stream"@,
            *self == FileType::JPEG ==> r@ == "image/jpeg"@,
            *self == FileType::TIFF ==> r@ == "image/tiff"@,
    {
        match self {
            FileType::Unknown => "application/octet-stream",
            FileType::JPEG => "image/jpeg",
            FileType::TIFF => "image/tiff",
        }
    }
}

/// The tag that opens the payload of an EXIF APP1 segment: `Exif\0\0`.
pub open spec fn exif_tag() -> Seq<u8> {
    seq![0x45u8, 0x78, 0x69, 0x66, 0x00, 0x00]
}

/// The JPEG start-of-image marker and the first byte of the next marker.
pub open spec fn jpeg_prefix(c: Seq<u8>) -> bool {
    c[0] == 0xff && c[1] == 0xd8 && c[2] == 0xff
}

/// `JFIF\0` or `Exif\0` at byte 6.
pub open spec fn jpeg_app_tag(c: Seq<u8>) -> bool {
    ||| (c[6] == 0x4a && c[7] == 0x46 && c[8] == 0x49 && c[9] == 0x46 && c[10] == 0)
    ||| (c[6] == 0x45 && c[7] == 0x78 && c[8] == 0x69 && c[9] == 0x66 && c[10] == 0)
}

/// The little-endian (`II*\0`) or big-endian (`MM\0*`) TIFF byte-order mark.
pub open spec fn tiff_mark(c: Seq<u8>) -> bool {
    ||| (c[0] == 0x49 && c[1] == 0x49 && c[2] == 42 && c[3] == 0)
    ||| (c[0] == 0x4d && c[1] == 0x4d && c[2] == 0 && c[3] == 42)
}

/// The container that the leading bytes of `c` announce.
pub open spec fn file_type_of(c: Seq<u8>) -> FileType {
    if c.len() < 11 {
        FileType::Unknown
    } else if jpeg_prefix(c) && jpeg_app_tag(c) {
        FileType::JPEG
    } else if tiff_mark(c) {
        FileType::TIFF
    } else {
        FileType::Unknown
    }
}

/// Detects the type of an image from its leading bytes.
pub fn detect_type(contents: &[u8]) -> (r: FileType)
    ensures
        r == file_type_of(contents@),
{
    if contents.len() < 11 {
        return FileType::Unknown;
    }
    let c = contents;
    if c[0] == 0xff && c[1] == 0xd8 && c[2] == 0xff {
        if c[6] == 0x4a && c[7] == 0x46 && c[8] == 0x49 && c[9] == 0x46 && c[10] == 0 {
            return FileType::JPEG;
        }
        if c[6] == 0x45 && c[7] == 0x78 && c[8] == 0x69 && c[9] == 0x66 && c[10] == 0 {
            return FileType::JPEG;
        }
    }
    if c[0] == 0x49 && c[1] == 0x49 && c[2] == 42 && c[3] == 0 {
        return FileType::TIFF;
    }
    if c[0] == 0x4d && c[1] == 0x4d && c[2] == 0 && c[3] == 42 {
        return FileType::TIFF;
    }
    FileType::Unknown
}

/// The big-endian 16-bit value of `c[i]` and `c[i + 1]`.
pub open spec fn be16_at(c: Seq<u8>, i: int) -> int {
    c[i] as int * 256 + c[i + 1] as int
}

/// The result of walking the JPEG segments of `c` from `offset`: the offset and
/// length of the TIFF block that follows `Exif\0\0` in the first APP1 segment,
/// or `None` where the walk stops at a truncated or invalid segment, at the
/// start-of-scan marker, or at the end of the data.
pub open spec fn jpeg_exif_span_from(c: Seq<u8>, offset: int) -> Option<(int, int)>
    decreases c.len() - offset,
{
    if offset < 0 || offset >= c.len() || c.len() < offset + 4 {
        None
    } else {
        let marker = be16_at(c, offset);
        let size = be16_at(c, offset + 2);
        if marker < 0xff00 || size < 2 || c.len() < offset + 2 + size {
            None
        } else if marker == 0xffe1 {
            if size >= 8 && c.subrange(offset + 4, offset + 10) == exif_tag() {
                Some((offset + 10, size - 8))
            } else {
                None
            }
        } else if marker == 0xffda {
            None
        } else {
            jpeg_exif_span_from(c, offset + 2 + size)
        }
    }
}

/// The span of the TIFF block inside a JPEG image, the walk starting after the
/// start-of-image marker.
pub open spec fn jpeg_exif_span(c: Seq<u8>) -> Option<(int, int)> {
    jpeg_exif_span_from(c, 2)
}

/// Finds the TIFF block (which holds the EXIF data) embedded in a JPEG image:
/// its offset and its length.
pub fn find_embedded_tiff_in_jpeg(contents: &[u8]) -> (r: Result<(usize, usize), ExifError>)
    ensures
        r is Ok <==> jpeg_exif_span(contents@) is Some,
        r matches Ok((o, n)) ==> jpeg_exif_span(contents@) == Some((o as int, n as int)),
        r matches Err(e) ==> e is JpegWithoutExif,
{
    let mut offset: usize = 2;
    while offset < contents.len()
        invariant
            2 <= offset,
            jpeg_exif_span(contents@) == jpeg_exif_span_from(contents@, offset as int),
        decreases contents.len() - offset,
    {
        if contents.len() - offset < 4 {
            return Err(ExifError::JpegWithoutExif("JPEG truncated in marker header".to_string()));
        }
        let marker: u16 = contents[offset] as u16 * 256 + contents[offset + 1] as u16;
        if marker < 0xff00 {
            return Err(ExifError::JpegWithoutExif("Invalid marker".to_string()));
        }
        let size: usize = contents[offset + 2] as usize * 256 + contents[offset + 3] as usize;
        if size < 2 {
            return Err(
                ExifError::JpegWithoutExif(
                    "JPEG marker size must be at least 2 (because of the size word)".to_string(),
                ),
            );
        }
        if contents.len() - offset - 2 < size {
            return Err(ExifError::JpegWithoutExif("JPEG truncated in marker body".to_string()));
        }
        if marker == 0xffe1 {
            if size < 8 {
                return Err(ExifError::JpegWithoutExif("EXIF preamble truncated".to_string()));
            }
            let b = offset + 4;
            if contents[b] == 0x45 && contents[b + 1] == 0x78 && contents[b + 2] == 0x69
                && contents[b + 3] == 0x66 && contents[b + 4] == 0 && contents[b + 5] == 0 {
                assert(contents@.subrange(b as int, b + 6) =~= exif_tag());
                return Ok((offset + 10, size - 8));
            }
            assert(contents@.subrange(b as int, b + 6)[0] == contents@[b as int]);
            assert(contents@.subrange(b as int, b + 6) != exif_tag()) by {
                let s = contents@.subrange(b as int, b + 6);
                assert(s[0] == contents@[b as int]);
                assert(s[1] == contents@[b + 1]);
                assert(s[2] == contents@[b + 2]);
                assert(s[3] == contents@[b + 3]);
                assert(s[4] == contents@[b + 4]);
                assert(s[5] == contents@[b + 5]);
            }
            return Err(ExifError::JpegWithoutExif("EXIF preamble unrecognized".to_string()));
        }
        if marker == 0xffda {
            return Err(ExifError::JpegWithoutExif("Last mark found and no EXIF".to_string()));
        }
        offset = offset + 2 + size;
    }
    Err(ExifError::JpegWithoutExif("Scan past EOF and no EXIF found".to_string()))
}


/// Classification by leading bytes: any buffer of at least 11 bytes that opens
/// with a TIFF byte-order mark is TIFF; any that opens with the JPEG
/// start-of-image marker and carries `JFIF\0` or `Exif\0` at byte 6 is JPEG;
/// any buffer shorter than 11 bytes is unknown.
pub proof fn lemma_classify(c: Seq<u8>)
    ensures
        c.len() >= 11 && c.subrange(0, 4) == seq![0x49u8, 0x49, 42, 0] ==> file_type_of(c)
            == FileType::TIFF,
        c.len() >= 11 && c.subrange(0, 4) == seq![0x4du8, 0x4d, 0, 42] ==> file_type_of(c)
            == FileType::TIFF,
        c.len() >= 11 && c.subrange(0, 3) == seq![0xffu8, 0xd8, 0xff] && (c.subrange(6, 11)
            == seq![0x4au8, 0x46, 0x49, 0x46, 0] || c.subrange(6, 11) == seq![
            0x45u8,
            0x78,
            0x69,
            0x66,
            0,
        ]) ==> file_type_of(c) == FileType::JPEG,
        c.len() < 11 ==> file_type_of(c) == FileType::Unknown,
{
    if c.len() >= 11 {
        let h = c.subrange(0, 4);
        let t = c.subrange(6, 11);
        assert(h[0] == c[0] && h[1] == c[1] && h[2] == c[2] && h[3] == c[3]);
        assert(t[0] == c[6] && t[1] == c[7] && t[2] == c[8] && t[3] == c[9] && t[4] == c[10]);
        assert(c.subrange(0, 3)[0] == c[0] && c.subrange(0, 3)[1] == c[1] && c.subrange(0, 3)[2]
            == c[2]);
    }
}

/// A JPEG whose first segment is an APP1 segment holding `Exif\0\0` and then
/// `n` bytes yields the span starting right after the tag, `n` bytes long.
pub proof fn lemma_exif_segment_found(c: Seq<u8>, n: int)
    requires
        0 <= n,
        n + 8 <= 0xffff,
        c.len() >= 12 + n,
        c.subrange(0, 4) == seq![0xffu8, 0xd8, 0xff, 0xe1],
        be16_at(c, 4) == n + 8,
        c.subrange(6, 12) == exif_tag(),
    ensures
        jpeg_exif_span(c) == Some((12int, n)),
{
    let h = c.subrange(0, 4);
    assert(h[2] == c[2] && h[3] == c[3]);
    assert(c.subrange(2int + 4, 2int + 10) == c.subrange(6, 12));
}

/// A segment other than APP1 and the start of scan, whole and well formed, is
/// stepped over.
pub proof fn lemma_skip_segment(c: Seq<u8>, offset: int)
    requires
        0 <= offset,
        offset + 4 <= c.len(),
        be16_at(c, offset) >= 0xff00,
        be16_at(c, offset) != 0xffe1,
        be16_at(c, offset) != 0xffda,
        be16_at(c, offset + 2) >= 2,
        offset + 2 + be16_at(c, offset + 2) <= c.len(),
    ensures
        jpeg_exif_span_from(c, offset) == jpeg_exif_span_from(c, offset + 2 + be16_at(c, offset + 2)),
{
}

/// A JPEG whose first marker is the start of scan holds no EXIF span.
pub proof fn lemma_scan_first_fails(c: Seq<u8>)
    requires
        c.len() >= 4,
        be16_at(c, 2) == 0xffda,
    ensures
        jpeg_exif_span(c) is None,
{
}

} // verus!
