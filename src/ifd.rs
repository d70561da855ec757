//! Reading the directories of a TIFF block: the top-level directory, and the
//! Exif and GPS sub-directories that its pointer entries lead to.
use crate::exif::{tag_info, tag_to_exif};
use crate::image::{
    detect_type, file_type_of, find_embedded_tiff_in_jpeg, jpeg_exif_span, jpeg_exif_span_from,
    tiff_mark, FileType,
};
use crate::lowlevel::{read_u16, read_u32, u16_of, u32_of};
use crate::serialize::{EXIF_OFFSET_TAG, GPS_OFFSET_TAG};
use crate::types::{ExifData, ExifEntry, ExifError, IfdEntry, IfdFormat, IfdKind, Namespace};
use crate::types_impl::{format_of, format_size};
use crate::value::{decoded_value, tag_value_new};
use vstd::prelude::*;
use vstd::slice::slice_to_vec;

verus! {

/// The entry count of the directory at `off`.
pub open spec fn dir_count(c: Seq<u8>, off: int, le: bool) -> nat {
    u16_of(le, c.subrange(off, off + 2)) as nat
}

/// The directory at `off` lies within `c`: its count and all its records.
pub open spec fn dir_fits(c: Seq<u8>, off: int, le: bool) -> bool {
    0 <= off && off + 2 <= c.len() && off + 2 + 12 * dir_count(c, off, le) <= c.len()
}

pub open spec fn tag_at(c: Seq<u8>, r: int, le: bool) -> u16 {
    u16_of(le, c.subrange(r, r + 2))
}

pub open spec fn format_at(c: Seq<u8>, r: int, le: bool) -> IfdFormat {
    format_of(u16_of(le, c.subrange(r + 2, r + 4)))
}

pub open spec fn count_at(c: Seq<u8>, r: int, le: bool) -> u32 {
    u32_of(le, c.subrange(r + 4, r + 8))
}

/// The payload of the record at `r`: the leading bytes of its value field when
/// it fits there, else the bytes at the offset that the field holds; empty
/// when those lie beyond `c`.
pub open spec fn payload_at(c: Seq<u8>, r: int, le: bool) -> Seq<u8> {
    let len = format_size(format_at(c, r, le)) * (count_at(c, r, le) as nat);
    if len <= 4 {
        c.subrange(r + 8, r + 8 + len)
    } else {
        let off = u32_of(le, c.subrange(r + 8, r + 12)) as int;
        if off + len <= c.len() {
            c.subrange(off, off + len)
        } else {
            Seq::empty()
        }
    }
}

/// `e` is the record at `r`, read in byte order `le`, its payload resolved.
pub open spec fn record_read(c: Seq<u8>, r: int, le: bool, e: IfdEntry) -> bool {
    &&& e.namespace == Namespace::Standard
    &&& e.tag == tag_at(c, r, le)
    &&& e.format == format_at(c, r, le)
    &&& e.count == count_at(c, r, le)
    &&& e.ifd_data@ == c.subrange(r + 8, r + 12)
    &&& e.le == le
    &&& e.data@ == payload_at(c, r, le)
    &&& e.ext_data@ == (if e.spec_in_ifd() {
        Seq::empty()
    } else {
        payload_at(c, r, le)
    })
}

/// `x` is the entry decoded from the record at `r`, in a directory of `kind`.
pub open spec fn entry_read(c: Seq<u8>, r: int, le: bool, kind: IfdKind, x: ExifEntry) -> bool {
    &&& record_read(c, r, le, x.ifd)
    &&& x.kind == kind
    &&& x.namespace == Namespace::Standard
    &&& x.tag == tag_info(x.ifd.tag).0
    &&& x.unit@ == tag_info(x.ifd.tag).1@
    &&& decoded_value(x.ifd, x.value)
    &&& x.value_more_readable@ == Seq::<char>::empty()
}

/// `es` are the entries of the directory at `off`, in record order.
pub open spec fn dir_read(c: Seq<u8>, off: int, le: bool, kind: IfdKind, es: Seq<ExifEntry>) -> bool {
    &&& es.len() == dir_count(c, off, le)
    &&& forall|k: int|
        0 <= k < es.len() ==> #[trigger] entry_read(c, off + 2 + 12 * k, le, kind, es[k])
}

/// Reads the directory at `offset`: its entry count, then each 12-byte record
/// with its payload resolved against the whole of `contents` and its value
/// decoded. `None` when the count or the records run past the end.
pub fn parse_ifd(contents: &[u8], offset: usize, le: bool, kind: IfdKind) -> (r: Option<
    Vec<ExifEntry>,
>)
    ensures
        r is Some <==> dir_fits(contents@, offset as int, le),
        r matches Some(es) ==> dir_read(contents@, offset as int, le, kind, es@),
{
    let ghost c = contents@;
    if offset > contents.len() || contents.len() - offset < 2 {
        return None;
    }
    let n: usize = match read_u16(le, &contents[offset..offset + 2]) {
        Some(v) => v as usize,
        None => 0,
    };
    assert(n == dir_count(c, offset as int, le));
    if (contents.len() - offset - 2) / 12 < n {
        return None;
    }
    assert(offset + 2 + 12 * n <= c.len()) by (nonlinear_arith)
        requires
            n <= (c.len() - offset - 2) / 12,
            offset + 2 <= c.len(),
    ;
    let mut out: Vec<ExifEntry> = Vec::new();
    let mut k: usize = 0;
    while k < n
        invariant
            c == contents@,
            k <= n,
            n == dir_count(c, offset as int, le),
            offset + 2 + 12 * n <= contents.len(),
            out@.len() == k,
            forall|j: int|
                0 <= j < k ==> #[trigger] entry_read(c, offset + 2 + 12 * j, le, kind, out@[j]),
        decreases n - k,
    {
        assert(offset + 2 + 12 * k + 12 <= offset + 2 + 12 * n) by (nonlinear_arith)
            requires
                k < n,
        ;
        let r = offset + 2 + 12 * k;
        let tag = match read_u16(le, &contents[r..r + 2]) {
            Some(v) => v,
            None => 0,
        };
        let fmt = match read_u16(le, &contents[r + 2..r + 4]) {
            Some(v) => v,
            None => 0,
        };
        let count = match read_u32(le, &contents[r + 4..r + 8]) {
            Some(v) => v,
            None => 0,
        };
        let mut e = IfdEntry {
            namespace: Namespace::Standard,
            tag,
            format: IfdFormat::new(fmt),
            count,
            data: Vec::new(),
            ifd_data: slice_to_vec(&contents[r + 8..r + 12]),
            ext_data: Vec::new(),
            le,
        };
        let ghost e0 = e;
        let ok = e.copy_data(contents);
        proof {
            let p = payload_at(c, r as int, le);
            let len = e0.spec_length() as int;
            if len > 4 {
                assert(e0.ifd_data@ == c.subrange(r + 8, r + 12));
            }
            if ok {
                assert(e.data@ =~= p);
            } else {
                assert(e.data@ =~= p);
            }
        }
        let value = tag_value_new(&e);
        let info = tag_to_exif(e.tag);
        let x = ExifEntry {
            namespace: Namespace::Standard,
            ifd: e,
            tag: info.0,
            value,
            unit: info.1.to_owned(),
            value_more_readable: String::new(),
            kind,
        };
        out.push(x);
        proof {
            assert forall|j: int| 0 <= j < k + 1 implies #[trigger] entry_read(
                c,
                offset + 2 + 12 * j,
                le,
                kind,
                out@[j],
            ) by {
                if j == k {
                    assert(out@[j] == x);
                }
            }
        }
        k += 1;
    }
    Some(out)
}


/// The index of the last record with `tag` among the first `n` records of the
/// directory at `off`.
pub open spec fn last_tag_index(c: Seq<u8>, off: int, le: bool, tag: u16, n: nat) -> Option<int>
    decreases n,
{
    if n == 0 {
        None
    } else if tag_at(c, off + 2 + 12 * (n - 1), le) == tag {
        Some(n - 1)
    } else {
        last_tag_index(c, off, le, tag, (n - 1) as nat)
    }
}

/// The offset that the last entry with `tag` of the directory at `off` holds,
/// when there is one and its payload has four bytes or more.
pub open spec fn sub_dir_offset(c: Seq<u8>, off: int, le: bool, tag: u16) -> Option<int> {
    match last_tag_index(c, off, le, tag, dir_count(c, off, le)) {
        Some(k) => {
            let p = payload_at(c, off + 2 + 12 * k, le);
            if p.len() >= 4 {
                Some(u32_of(le, p) as int)
            } else {
                None
            }
        },
        None => None,
    }
}

/// The byte order that the TIFF header of `c` announces: little-endian for
/// `II`.
pub open spec fn tiff_le(c: Seq<u8>) -> bool {
    c[0] == 0x49
}

/// The offset of the top-level directory, from the TIFF header.
pub open spec fn ifd0_offset(c: Seq<u8>) -> int {
    u32_of(tiff_le(c), c.subrange(4, 8)) as int
}

/// What reading the TIFF block `c` gives: the entries of the top-level
/// directory, then those of the Exif and of the GPS sub-directory, with the
/// byte order; or the error for a short header, a bad byte-order mark, or a
/// directory that runs past the end.
pub open spec fn tiff_outcome(c: Seq<u8>, r: Result<(Seq<ExifEntry>, bool), ExifError>) -> bool {
    if c.len() < 8 {
        r == Err::<(Seq<ExifEntry>, bool), ExifError>(ExifError::TiffTruncated)
    } else if !tiff_mark(c) {
        r matches Err(e) && e is TiffBadPreamble
    } else {
        let le = tiff_le(c);
        let o0 = ifd0_offset(c);
        if !dir_fits(c, o0, le) {
            r == Err::<(Seq<ExifEntry>, bool), ExifError>(ExifError::IfdTruncated)
        } else {
            let px = sub_dir_offset(c, o0, le, EXIF_OFFSET_TAG);
            let pg = sub_dir_offset(c, o0, le, GPS_OFFSET_TAG);
            if px is Some && !dir_fits(c, px->0, le) {
                r matches Err(e) && e is ExifIfdTruncated
            } else if pg is Some && !dir_fits(c, pg->0, le) {
                r matches Err(e) && e is ExifIfdTruncated
            } else {
                let n0 = dir_count(c, o0, le) as int;
                let nx = if px is Some {
                    dir_count(c, px->0, le) as int
                } else {
                    0
                };
                let ng = if pg is Some {
                    dir_count(c, pg->0, le) as int
                } else {
                    0
                };
                r matches Ok((es, l)) && l == le && es.len() == n0 + nx + ng && dir_read(
                    c,
                    o0,
                    le,
                    IfdKind::Ifd0,
                    es.subrange(0, n0),
                ) && (px is Some ==> dir_read(
                    c,
                    px->0,
                    le,
                    IfdKind::Exif,
                    es.subrange(n0, n0 + nx),
                )) && (pg is Some ==> dir_read(
                    c,
                    pg->0,
                    le,
                    IfdKind::Gps,
                    es.subrange(n0 + nx, n0 + nx + ng),
                ))
            }
        }
    }
}

pub open spec fn tiff_view(r: Result<(Vec<ExifEntry>, bool), ExifError>) -> Result<
    (Seq<ExifEntry>, bool),
    ExifError,
> {
    match r {
        Ok((v, l)) => Ok((v@, l)),
        Err(e) => Err(e),
    }
}

pub open spec fn data_view(r: Result<ExifData, ExifError>) -> Result<(Seq<ExifEntry>, bool), ExifError> {
    match r {
        Ok(d) => Ok((d.entries@, d.le)),
        Err(e) => Err(e),
    }
}

/// The offset of the sub-directory that the last entry with `tag` of a parsed
/// top-level directory points to.
fn sub_dir_pointer(
    es: &Vec<ExifEntry>,
    c: Ghost<Seq<u8>>,
    off: Ghost<int>,
    le: bool,
    tag: u16,
) -> (r: Option<usize>)
    requires
        dir_read(c@, off@, le, IfdKind::Ifd0, es@),
    ensures
        r is Some <==> sub_dir_offset(c@, off@, le, tag) is Some,
        r is Some ==> r->0 == sub_dir_offset(c@, off@, le, tag)->0,
{
    let mut last: Option<usize> = None;
    let mut i: usize = 0;
    while i < es.len()
        invariant
            i <= es@.len(),
            dir_read(c@, off@, le, IfdKind::Ifd0, es@),
            last is Some <==> last_tag_index(c@, off@, le, tag, i as nat) is Some,
            last is Some ==> last->0 == last_tag_index(c@, off@, le, tag, i as nat)->0,
            last is Some ==> last->0 < i,
        decreases es@.len() - i,
    {
        assert(entry_read(c@, off@ + 2 + 12 * i, le, IfdKind::Ifd0, es@[i as int]));
        if es[i].ifd.tag == tag {
            last = Some(i);
        }
        i += 1;
    }
    match last {
        Some(k) => {
            assert(entry_read(c@, off@ + 2 + 12 * k, le, IfdKind::Ifd0, es@[k as int]));
            match read_u32(le, es[k].ifd.data.as_slice()) {
                Some(v) => Some(v as usize),
                None => None,
            }
        },
        None => None,
    }
}

/// Reads a TIFF block: the byte-order mark, the offset of the top-level
/// directory, that directory, and the Exif and GPS sub-directories that its
/// last pointer entries lead to. The link to a next top-level directory (the
/// thumbnail) is not followed.
pub fn parse_tiff(contents: &[u8]) -> (r: Result<(Vec<ExifEntry>, bool), ExifError>)
    ensures
        tiff_outcome(contents@, tiff_view(r)),
{
    let ghost c = contents@;
    if contents.len() < 8 {
        return Err(ExifError::TiffTruncated);
    }
    let le = if contents[0] == 0x49 && contents[1] == 0x49 && contents[2] == 42 && contents[3]
        == 0 {
        true
    } else if contents[0] == 0x4d && contents[1] == 0x4d && contents[2] == 0 && contents[3]
        == 42 {
        false
    } else {
        return Err(ExifError::TiffBadPreamble("no TIFF byte-order mark".to_string()));
    };
    let o0: usize = match read_u32(le, &contents[4..8]) {
        Some(v) => v as usize,
        None => 0,
    };
    assert(o0 == ifd0_offset(c));
    let mut entries = match parse_ifd(contents, o0, le, IfdKind::Ifd0) {
        Some(v) => v,
        None => return Err(ExifError::IfdTruncated),
    };
    let ghost e0 = entries@;
    let px = sub_dir_pointer(&entries, Ghost(c), Ghost(o0 as int), le, EXIF_OFFSET_TAG);
    let pg = sub_dir_pointer(&entries, Ghost(c), Ghost(o0 as int), le, GPS_OFFSET_TAG);
    let mut exif_entries = match px {
        Some(p) => match parse_ifd(contents, p, le, IfdKind::Exif) {
            Some(v) => v,
            None => return Err(ExifError::ExifIfdTruncated("Exif sub-directory".to_string())),
        },
        None => Vec::new(),
    };
    let mut gps_entries = match pg {
        Some(p) => match parse_ifd(contents, p, le, IfdKind::Gps) {
            Some(v) => v,
            None => return Err(ExifError::ExifIfdTruncated("GPS sub-directory".to_string())),
        },
        None => Vec::new(),
    };
    let ghost ex = exif_entries@;
    let ghost eg = gps_entries@;
    entries.append(&mut exif_entries);
    entries.append(&mut gps_entries);
    proof {
        let n0 = e0.len() as int;
        let nx = ex.len() as int;
        assert(entries@ == e0 + ex + eg);
        assert(entries@.subrange(0, n0) =~= e0);
        assert(entries@.subrange(n0, n0 + nx) =~= ex);
        assert(entries@.subrange(n0 + nx, n0 + nx + eg.len()) =~= eg);
    }
    Ok((entries, le))
}

/// The span of the TIFF block in a JPEG lies within the JPEG.
proof fn lemma_span_in_bounds(c: Seq<u8>, offset: int)
    ensures
        jpeg_exif_span_from(c, offset) matches Some((o, n)) ==> 0 <= o && 0 <= n && o + n
            <= c.len(),
    decreases c.len() - offset,
{
    if 0 <= offset < c.len() && c.len() >= offset + 4 {
        let size = crate::image::be16_at(c, offset + 2);
        if size >= 2 && offset + 2 + size <= c.len() {
            lemma_span_in_bounds(c, offset + 2 + size);
        }
    }
}

/// Reads the metadata of an image held whole in `contents`: a TIFF file, or a
/// JPEG whose APP1 segment carries the TIFF block.
pub fn parse_buffer(contents: &[u8]) -> (r: Result<ExifData, ExifError>)
    ensures
        file_type_of(contents@) == FileType::Unknown ==> r == Err::<ExifData, ExifError>(
            ExifError::FileTypeUnknown,
        ),
        file_type_of(contents@) == FileType::TIFF ==> tiff_outcome(contents@, data_view(r)) && (
        r matches Ok(d) ==> d.mime == FileType::TIFF),
        file_type_of(contents@) == FileType::JPEG ==> match jpeg_exif_span(contents@) {
            None => r matches Err(e) && e is JpegWithoutExif,
            Some((o, n)) => tiff_outcome(contents@.subrange(o, o + n), data_view(r)) && (
            r matches Ok(d) ==> d.mime == FileType::JPEG),
        },
{
    let mime = detect_type(contents);
    match mime {
        FileType::Unknown => Err(ExifError::FileTypeUnknown),
        FileType::TIFF => match parse_tiff(contents) {
            Ok((entries, le)) => Ok(ExifData { mime, entries, le }),
            Err(e) => Err(e),
        },
        FileType::JPEG => {
            let len = contents.len();
            let (o, n) = match find_embedded_tiff_in_jpeg(contents) {
                Ok(span) => span,
                Err(e) => return Err(e),
            };
            proof {
                lemma_span_in_bounds(contents@, 2);
                assert(jpeg_exif_span(contents@) == Some((o as int, n as int)));
                assert(o + n <= len);
            }
            match parse_tiff(&contents[o..o + n]) {
                Ok((entries, le)) => Ok(ExifData { mime, entries, le }),
                Err(e) => Err(e),
            }
        },
    }
}

} // verus!
