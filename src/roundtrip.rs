//! Reading back what the serializer writes.
use crate::ifd::{
    count_at, dir_count, dir_fits, dir_read, entry_read, format_at, ifd0_offset, last_tag_index,
    payload_at, sub_dir_offset, tag_at, tiff_le, tiff_outcome,
};
use crate::image::tiff_mark;
use crate::lowlevel::{u16_bytes, u16_of, u32_bytes, u32_of};
use crate::exif::lemma_pointer_tags;
use crate::serialize::{
    all_standard, dir_block, dir_fields, dir_len, ext_payloads, fields4, group, group_tags,
    inline_field, last_with_id, lemma_dir_fields4, lemma_group_no_kind, lemma_group_tags_len,
    lemma_records_at, lemma_records_len, lemma_with_pointer4, off32, record_bytes, records,
    serialize_error, serialized, serialized_tiff, sub_block, tiff_header, with_pointer, zeros4,
    EXIF_OFFSET_TAG, GPS_OFFSET_TAG,
};
use crate::types::{ExifData, ExifEntry, ExifError, ExifTag, IfdEntry, IfdKind, Namespace};
use crate::types_impl::lemma_format_code_round_trip;
use vstd::prelude::*;

verus! {

/// The index of the last record of `g` with the given tag code.
pub open spec fn last_with_tag(g: Seq<IfdEntry>, tag: u16) -> Option<int>
    decreases g.len(),
{
    if g.len() == 0 {
        None
    } else if g.last().tag == tag {
        Some(g.len() - 1)
    } else {
        last_with_tag(g.drop_last(), tag)
    }
}

/// The index that `last_with_tag` gives is that of a record with the tag.
pub proof fn lemma_last_with_tag(g: Seq<IfdEntry>, tag: u16)
    ensures
        last_with_tag(g, tag) matches Some(k) ==> 0 <= k < g.len() && g[k].tag == tag,
    decreases g.len(),
{
    if g.len() > 0 && g.last().tag != tag {
        lemma_last_with_tag(g.drop_last(), tag);
    }
}

/// Each entry is tagged as a sub-directory pointer exactly when its record
/// carries that pointer's code.
pub open spec fn tags_match_codes(s: Seq<ExifEntry>) -> bool {
    forall|i: int|
        0 <= i < s.len() ==> {
            &&& ((#[trigger] s[i]).tag == ExifTag::ExifOffset <==> s[i].ifd.tag == EXIF_OFFSET_TAG)
            &&& (s[i].tag == ExifTag::GPSOffset <==> s[i].ifd.tag == GPS_OFFSET_TAG)
        }
}

/// Where tags match codes, the last entry tagged as a pointer is the last
/// record with its code.
proof fn lemma_ids_codes(s: Seq<ExifEntry>, kind: IfdKind)
    requires
        tags_match_codes(s),
    ensures
        last_with_id(group_tags(s, kind), ExifTag::ExifOffset) == last_with_tag(
            group(s, kind),
            EXIF_OFFSET_TAG,
        ),
        last_with_id(group_tags(s, kind), ExifTag::GPSOffset) == last_with_tag(
            group(s, kind),
            GPS_OFFSET_TAG,
        ),
    decreases s.len(),
{
    lemma_group_tags_len(s, kind);
    if s.len() > 0 {
        let d = s.drop_last();
        assert forall|i: int| 0 <= i < d.len() implies {
            &&& ((#[trigger] d[i]).tag == ExifTag::ExifOffset <==> d[i].ifd.tag == EXIF_OFFSET_TAG)
            &&& (d[i].tag == ExifTag::GPSOffset <==> d[i].ifd.tag == GPS_OFFSET_TAG)
        } by {
            assert(d[i] == s[i]);
        }
        lemma_ids_codes(d, kind);
        lemma_group_tags_len(d, kind);
        let t = group_tags(s, kind);
        let g = group(s, kind);
        assert(s[s.len() - 1] == s.last());
        if s.last().kind == kind {
            assert(t.drop_last() =~= group_tags(d, kind));
            assert(g.drop_last() =~= group(d, kind));
        } else {
            assert(t =~= group_tags(d, kind));
            assert(g =~= group(d, kind));
        }
    }
}

pub proof fn lemma_u16_round_trip(le: bool, v: u16)
    ensures
        u16_of(le, u16_bytes(le, v)) == v,
        u16_bytes(le, v).len() == 2,
{
    assert(v == v % 256 + 256 * (v / 256));
}

pub proof fn lemma_u32_round_trip(le: bool, v: u32)
    ensures
        u32_of(le, u32_bytes(le, v)) == v,
        u32_bytes(le, v).len() == 4,
{
    let b0 = v % 256;
    let b1 = (v / 256) % 256;
    let b2 = (v / 65536) % 256;
    let b3 = v / 16777216;
    assert(v == b0 + 256 * b1 + 65536 * b2 + 16777216 * b3) by (nonlinear_arith)
        requires
            b0 == v % 256,
            b1 == (v / 256) % 256,
            b2 == (v / 65536) % 256,
            b3 == v / 16777216,
            v < 0x1_0000_0000,
    {
        assert(v / 256 == b1 + 256 * (v / 65536));
        assert(v / 65536 == b2 + 256 * b3);
    }
}

/// The records of a kind, when every entry is of that kind.
proof fn lemma_group_all(s: Seq<ExifEntry>, kind: IfdKind)
    requires
        forall|i: int| 0 <= i < s.len() ==> (#[trigger] s[i]).kind == kind,
    ensures
        group(s, kind) == Seq::new(s.len(), |i: int| s[i].ifd),
    decreases s.len(),
{
    if s.len() > 0 {
        let d = s.drop_last();
        assert forall|i: int| 0 <= i < d.len() implies (#[trigger] d[i]).kind == kind by {
            assert(d[i] == s[i]);
        }
        lemma_group_all(d, kind);
        assert(group(s, kind) =~= Seq::new(s.len(), |i: int| s[i].ifd));
    }
}

/// The payload of an external record lies in the data area at the sum of
/// the external payloads before it.
proof fn lemma_ext_slot(g: Seq<IfdEntry>, k: int)
    requires
        0 <= k < g.len(),
        !g[k].spec_in_ifd(),
    ensures
        ext_payloads(g.take(k)).len() + g[k].data@.len() <= ext_payloads(g).len(),
        ext_payloads(g).subrange(
            ext_payloads(g.take(k)).len() as int,
            ext_payloads(g.take(k)).len() + g[k].data@.len() as int,
        ) == g[k].data@,
    decreases g.len(),
{
    let d = g.drop_last();
    if k == g.len() - 1 {
        assert(g.take(k) =~= d);
    } else {
        assert(g.take(k) =~= d.take(k));
        lemma_ext_slot(d, k);
        assert(d[k] == g[k]);
        let p = ext_payloads(d.take(k)).len() as int;
        assert(ext_payloads(g).subrange(p, p + g[k].data@.len()) =~= ext_payloads(d).subrange(
            p,
            p + g[k].data@.len(),
        ));
    }
}

/// The fields of a record read back.
proof fn lemma_read_record(c: Seq<u8>, r: int, e: IfdEntry, fld: Seq<u8>)
    requires
        0 <= r,
        r + 12 <= c.len(),
        c.subrange(r, r + 12) == record_bytes(e, fld),
        fld.len() == 4,
    ensures
        tag_at(c, r, e.le) == e.tag,
        format_at(c, r, e.le) == e.format,
        count_at(c, r, e.le) == e.count,
        c.subrange(r + 8, r + 12) == fld,
{
    let rec = c.subrange(r, r + 12);
    lemma_u16_round_trip(e.le, e.tag);
    lemma_u16_round_trip(e.le, e.format.spec_code());
    lemma_u32_round_trip(e.le, e.count);
    lemma_format_code_round_trip(e.format);
    assert(c.subrange(r, r + 2) =~= rec.subrange(0, 2));
    assert(rec.subrange(0, 2) =~= u16_bytes(e.le, e.tag));
    let a = u16_bytes(e.le, e.tag);
    let b = u16_bytes(e.le, e.format.spec_code());
    let d = u32_bytes(e.le, e.count);
    assert(rec == a + b + d + fld);
    assert(c.subrange(r + 2, r + 4) =~= rec.subrange(2, 4));
    assert(rec.subrange(2, 4) =~= b);
    assert(c.subrange(r + 4, r + 8) =~= rec.subrange(4, 8));
    assert(rec.subrange(4, 8) =~= d);
    assert(c.subrange(r + 8, r + 12) =~= rec.subrange(8, 12));
    assert(rec.subrange(8, 12) =~= fld);
}


/// Records that a directory can be written from and read back as they were:
/// fewer than 65536, in byte order `le`, in the standard namespace, each with
/// a payload of `size * count` bytes.
pub open spec fn well_formed_dir(g: Seq<IfdEntry>, le: bool) -> bool {
    &&& g.len() < 0x10000
    &&& forall|k: int|
        0 <= k < g.len() ==> {
            &&& (#[trigger] g[k]).le == le
            &&& g[k].data@.len() == g[k].spec_length()
            &&& g[k].namespace == Namespace::Standard
        }
}

pub open spec fn ifds_of(es: Seq<ExifEntry>) -> Seq<IfdEntry> {
    Seq::new(es.len(), |i: int| es[i].ifd)
}

/// `c` holds, at `x.len()`, the directory of `g` with value fields `f`; the
/// field of each record whose payload lies outside is that payload's offset.
pub open spec fn dir_written(
    c: Seq<u8>,
    x: Seq<u8>,
    g: Seq<IfdEntry>,
    le: bool,
    f: Seq<Seq<u8>>,
    y: Seq<u8>,
) -> bool {
    &&& c == x + dir_block(g, le, f) + y
    &&& f.len() == g.len()
    &&& fields4(f)
    &&& forall|k: int|
        0 <= k < g.len() && !(#[trigger] g[k]).spec_in_ifd() ==> f[k] == dir_fields(
            g,
            x.len() as int,
            le,
        )[k]
}

/// The payload that record `k` reads back as: the leading bytes of its value
/// field when it fits there, else its own payload.
pub open spec fn payload_back(g: Seq<IfdEntry>, f: Seq<Seq<u8>>, k: int) -> Seq<u8> {
    if g[k].spec_in_ifd() {
        f[k].subrange(0, g[k].spec_length() as int)
    } else {
        g[k].data@
    }
}

/// `a` are the records read back from the directory of `g` written with the
/// value fields `f`.
pub open spec fn read_back(a: Seq<IfdEntry>, g: Seq<IfdEntry>, f: Seq<Seq<u8>>) -> bool {
    &&& a.len() == g.len()
    &&& f.len() == g.len()
    &&& forall|k: int|
        0 <= k < a.len() ==> {
            &&& (#[trigger] a[k]).namespace == Namespace::Standard
            &&& a[k].tag == g[k].tag
            &&& a[k].format == g[k].format
            &&& a[k].count == g[k].count
            &&& a[k].le == g[k].le
            &&& a[k].data@ == payload_back(g, f, k)
        }
}

/// The layout of a directory written at `x.len()`.
proof fn lemma_dir_layout(
    c: Seq<u8>,
    x: Seq<u8>,
    g: Seq<IfdEntry>,
    le: bool,
    f: Seq<Seq<u8>>,
    y: Seq<u8>,
)
    requires
        dir_written(c, x, g, le, f, y),
        well_formed_dir(g, le),
    ensures
        ({
            let p = x.len() as int;
            let rs = records(g, f);
            &&& rs.len() == 12 * g.len()
            &&& c == x + u16_bytes(le, (g.len() % 0x10000) as u16) + rs + zeros4() + ext_payloads(
                g,
            ) + y
            &&& dir_block(g, le, f).len() == 6 + 12 * g.len() + ext_payloads(g).len()
            &&& dir_fits(c, p, le)
            &&& dir_count(c, p, le) == g.len()
        }),
{
    let p = x.len() as int;
    let n = g.len();
    lemma_records_len(g, f);
    let rs = records(g, f);
    let cnt = u16_bytes(le, (n % 0x10000) as u16);
    lemma_u16_round_trip(le, (n % 0x10000) as u16);
    assert(c == x + cnt + rs + zeros4() + ext_payloads(g) + y);
    assert(c.subrange(p, p + 2) =~= cnt);
}

proof fn lemma_dir_field(g: Seq<IfdEntry>, p: int, le: bool, k: int)
    requires
        0 <= k < g.len(),
    ensures
        dir_fields(g, p, le)[k] == (if g[k].spec_in_ifd() {
            inline_field(g[k].data@)
        } else {
            u32_bytes(le, off32(p + 6 + 12 * g.len() + ext_payloads(g.take(k)).len()))
        }),
{
    reveal(dir_fields);
}

/// A directory written with its own value fields.
proof fn lemma_plain_dir_written(
    c: Seq<u8>,
    x: Seq<u8>,
    g: Seq<IfdEntry>,
    le: bool,
    y: Seq<u8>,
)
    requires
        c == x + dir_block(g, le, dir_fields(g, x.len() as int, le)) + y,
    ensures
        dir_written(c, x, g, le, dir_fields(g, x.len() as int, le), y),
{
    lemma_dir_fields4(g, x.len() as int, le);
}

/// The payload of an external record sits where its value field points.
proof fn lemma_ext_back(
    c: Seq<u8>,
    x: Seq<u8>,
    g: Seq<IfdEntry>,
    le: bool,
    f: Seq<Seq<u8>>,
    y: Seq<u8>,
    k: int,
)
    requires
        dir_written(c, x, g, le, f, y),
        well_formed_dir(g, le),
        0 <= k < g.len(),
        !g[k].spec_in_ifd(),
    ensures
        ({
            let off = x.len() + 6 + 12 * g.len() + ext_payloads(g.take(k)).len() as int;
            let len = g[k].data@.len() as int;
            &&& off + len <= x.len() + 6 + 12 * g.len() + ext_payloads(g).len()
            &&& c.subrange(off, off + len) == g[k].data@
        }),
{
    let p = x.len() as int;
    let n = g.len();
    lemma_dir_layout(c, x, g, le, f, y);
    let rs = records(g, f);
    let ea = p + 6 + 12 * n;
    let ext = ext_payloads(g);
    lemma_u16_round_trip(le, (n % 0x10000) as u16);
    assert(c == (x + u16_bytes(le, (n % 0x10000) as u16) + rs + zeros4()) + ext + y);
    let pk = ext_payloads(g.take(k)).len() as int;
    let len = g[k].data@.len() as int;
    lemma_ext_slot(g, k);
    assert(c.subrange(ea + pk, ea + pk + len) =~= ext.subrange(pk, pk + len));
}

proof fn lemma_payload_inline(c: Seq<u8>, r: int, le: bool, e: IfdEntry, fld: Seq<u8>)
    requires
        0 <= r,
        r + 12 <= c.len(),
        format_at(c, r, le) == e.format,
        count_at(c, r, le) == e.count,
        e.spec_in_ifd(),
        fld.len() == 4,
        c.subrange(r + 8, r + 12) == fld,
    ensures
        payload_at(c, r, le) == fld.subrange(0, e.spec_length() as int),
{
    let len = e.spec_length() as int;
    assert(c.subrange(r + 8, r + 8 + len) =~= c.subrange(r + 8, r + 12).subrange(0, len));
}

proof fn lemma_payload_ext(c: Seq<u8>, r: int, le: bool, e: IfdEntry, off: int)
    requires
        0 <= r,
        r + 12 <= c.len(),
        format_at(c, r, le) == e.format,
        count_at(c, r, le) == e.count,
        !e.spec_in_ifd(),
        e.data@.len() == e.spec_length(),
        0 <= off < 0x1_0000_0000,
        c.subrange(r + 8, r + 12) == u32_bytes(le, off32(off)),
        off + e.data@.len() <= c.len(),
        c.subrange(off, off + e.data@.len()) == e.data@,
    ensures
        payload_at(c, r, le) == e.data@,
{
    assert(off32(off) == off);
    lemma_u32_round_trip(le, off32(off));
}

/// Record `k` of a directory written at `x.len()` reads back.
proof fn lemma_record_back(
    c: Seq<u8>,
    x: Seq<u8>,
    g: Seq<IfdEntry>,
    le: bool,
    f: Seq<Seq<u8>>,
    y: Seq<u8>,
    k: int,
)
    requires
        dir_written(c, x, g, le, f, y),
        well_formed_dir(g, le),
        x.len() + 6 + 12 * g.len() + ext_payloads(g).len() < 0x1_0000_0000,
        0 <= k < g.len(),
    ensures
        ({
            let r = x.len() + 2 + 12 * k;
            &&& tag_at(c, r, le) == g[k].tag
            &&& format_at(c, r, le) == g[k].format
            &&& count_at(c, r, le) == g[k].count
            &&& payload_at(c, r, le) == payload_back(g, f, k)
        }),
{
    let p = x.len() as int;
    let n = g.len();
    lemma_dir_layout(c, x, g, le, f, y);
    let rs = records(g, f);
    let r = p + 2 + 12 * k;
    lemma_records_at(g, f, k);
    lemma_u16_round_trip(le, (n % 0x10000) as u16);
    let head = x + u16_bytes(le, (n % 0x10000) as u16);
    assert(c == head + rs + (zeros4() + ext_payloads(g) + y));
    assert(c.subrange(r, r + 12) =~= rs.subrange(12 * k, 12 * k + 12));
    assert(g[k].le == le);
    lemma_read_record(c, r, g[k], f[k]);
    if g[k].spec_in_ifd() {
        lemma_payload_inline(c, r, le, g[k], f[k]);
    } else {
        lemma_dir_field(g, p, le, k);
        lemma_ext_back(c, x, g, le, f, y, k);
        lemma_payload_ext(c, r, le, g[k], p + 6 + 12 * n + ext_payloads(g.take(k)).len());
    }
}

/// A directory written at `x.len()` reads back record for record.
proof fn lemma_dir_read_back(
    c: Seq<u8>,
    x: Seq<u8>,
    g: Seq<IfdEntry>,
    le: bool,
    f: Seq<Seq<u8>>,
    y: Seq<u8>,
    kind: IfdKind,
    es: Seq<ExifEntry>,
)
    requires
        dir_written(c, x, g, le, f, y),
        well_formed_dir(g, le),
        x.len() + 6 + 12 * g.len() + ext_payloads(g).len() < 0x1_0000_0000,
        dir_read(c, x.len() as int, le, kind, es),
    ensures
        read_back(ifds_of(es), g, f),
        forall|i: int| 0 <= i < es.len() ==> (#[trigger] es[i]).kind == kind,
{
    let p = x.len() as int;
    lemma_dir_layout(c, x, g, le, f, y);
    let fs = ifds_of(es);
    assert forall|k: int| 0 <= k < fs.len() implies {
        &&& (#[trigger] fs[k]).namespace == Namespace::Standard
        &&& fs[k].tag == g[k].tag
        &&& fs[k].format == g[k].format
        &&& fs[k].count == g[k].count
        &&& fs[k].le == g[k].le
        &&& fs[k].data@ == payload_back(g, f, k)
    } by {
        assert(entry_read(c, p + 2 + 12 * k, le, kind, es[k]));
        lemma_record_back(c, x, g, le, f, y, k);
    }
    assert forall|i: int| 0 <= i < es.len() implies (#[trigger] es[i]).kind == kind by {
        assert(entry_read(c, p + 2 + 12 * i, le, kind, es[i]));
    }
}

/// The last record with a tag is found where it was written.
proof fn lemma_tag_index_back(
    c: Seq<u8>,
    x: Seq<u8>,
    g: Seq<IfdEntry>,
    le: bool,
    f: Seq<Seq<u8>>,
    y: Seq<u8>,
    tag: u16,
    n: nat,
)
    requires
        dir_written(c, x, g, le, f, y),
        well_formed_dir(g, le),
        x.len() + 6 + 12 * g.len() + ext_payloads(g).len() < 0x1_0000_0000,
        n <= g.len(),
    ensures
        last_tag_index(c, x.len() as int, le, tag, n) == last_with_tag(g.take(n as int), tag),
    decreases n,
{
    if n > 0 {
        lemma_record_back(c, x, g, le, f, y, n - 1);
        lemma_tag_index_back(c, x, g, le, f, y, tag, (n - 1) as nat);
        assert(g.take(n as int).drop_last() =~= g.take(n - 1));
    }
}

/// Records read back serialize as the ones written.
proof fn lemma_rewritten_dir(a: Seq<IfdEntry>, g: Seq<IfdEntry>, f: Seq<Seq<u8>>, p: int, le: bool)
    requires
        read_back(a, g, f),
        well_formed_dir(g, le),
        f.len() == g.len(),
        fields4(f),
        forall|k: int|
            0 <= k < g.len() ==> (!(#[trigger] g[k]).spec_in_ifd() ==> f[k] == dir_fields(
                g,
                p,
                le,
            )[k]) && (g[k].spec_in_ifd() ==> f[k] == inline_field(g[k].data@)
                || g[k].spec_length() == 4),
    ensures
        ext_payloads(a) == ext_payloads(g),
        dir_fields(a, p, le) == f,
        dir_block(a, le, f) == dir_block(g, le, f),
        forall|t: u16| last_with_tag(a, t) == last_with_tag(g, t),
{
    lemma_read_back_ext(a, g, f);
    assert forall|k: int| 0 <= k < a.len() implies #[trigger] dir_fields(a, p, le)[k] == f[k] by {
        lemma_dir_field(a, p, le, k);
        lemma_dir_field(g, p, le, k);
        if !g[k].spec_in_ifd() {
            let ta = a.take(k);
            let tg = g.take(k);
            let tf = f.take(k);
            assert forall|j: int| 0 <= j < ta.len() implies {
                &&& (#[trigger] ta[j]).namespace == Namespace::Standard
                &&& ta[j].tag == tg[j].tag
                &&& ta[j].format == tg[j].format
                &&& ta[j].count == tg[j].count
                &&& ta[j].le == tg[j].le
                &&& ta[j].data@ == payload_back(tg, tf, j)
            } by {
                assert(a[j] == ta[j]);
                assert(g[j] == tg[j]);
                assert(f[j] == tf[j]);
            }
            assert forall|j: int| 0 <= j < tg.len() implies {
                &&& (#[trigger] tg[j]).le == le
                &&& tg[j].data@.len() == tg[j].spec_length()
                &&& tg[j].namespace == Namespace::Standard
            } by {
                assert(g[j] == tg[j]);
            }
            lemma_read_back_ext(ta, tg, tf);
        } else {
            let len = g[k].spec_length() as int;
            if f[k] == inline_field(g[k].data@) {
                assert(f[k].subrange(0, len) =~= g[k].data@);
            } else {
                assert(f[k].subrange(0, len) =~= f[k]);
                assert(inline_field(f[k]) =~= f[k]);
            }
        }
    }
    assert(dir_fields(a, p, le) =~= f) by {
        lemma_dir_fields4(a, p, le);
    }
    reveal(records);
    let sa = Seq::new(a.len(), |k: int| record_bytes(a[k], f[k]));
    let sg = Seq::new(g.len(), |k: int| record_bytes(g[k], f[k]));
    assert(sa =~= sg);
    assert forall|t: u16| last_with_tag(a, t) == last_with_tag(g, t) by {
        lemma_last_with_tag_same(a, g, f, t);
    }
}

proof fn lemma_read_back_ext(a: Seq<IfdEntry>, g: Seq<IfdEntry>, f: Seq<Seq<u8>>)
    requires
        read_back(a, g, f),
        forall|k: int|
            0 <= k < g.len() ==> (#[trigger] g[k]).data@.len() == g[k].spec_length(),
    ensures
        ext_payloads(a) == ext_payloads(g),
    decreases a.len(),
{
    if a.len() > 0 {
        let da = a.drop_last();
        let dg = g.drop_last();
        let df = f.drop_last();
        assert forall|k: int| 0 <= k < da.len() implies {
            &&& (#[trigger] da[k]).namespace == Namespace::Standard
            &&& da[k].tag == dg[k].tag
            &&& da[k].format == dg[k].format
            &&& da[k].count == dg[k].count
            &&& da[k].le == dg[k].le
            &&& da[k].data@ == payload_back(dg, df, k)
        } by {
            assert(a[k] == da[k]);
            assert(g[k] == dg[k]);
            assert(f[k] == df[k]);
        }
        assert forall|k: int| 0 <= k < dg.len() implies (#[trigger] dg[k]).data@.len()
            == dg[k].spec_length() by {
            assert(g[k] == dg[k]);
        }
        lemma_read_back_ext(da, dg, df);
        assert(a[a.len() - 1].data@ == payload_back(g, f, a.len() - 1));
    }
}

proof fn lemma_last_with_tag_same(a: Seq<IfdEntry>, g: Seq<IfdEntry>, f: Seq<Seq<u8>>, t: u16)
    requires
        read_back(a, g, f),
    ensures
        last_with_tag(a, t) == last_with_tag(g, t),
    decreases a.len(),
{
    if a.len() > 0 {
        let da = a.drop_last();
        let dg = g.drop_last();
        let df = f.drop_last();
        assert forall|k: int| 0 <= k < da.len() implies {
            &&& (#[trigger] da[k]).namespace == Namespace::Standard
            &&& da[k].tag == dg[k].tag
            &&& da[k].format == dg[k].format
            &&& da[k].count == dg[k].count
            &&& da[k].le == dg[k].le
            &&& da[k].data@ == payload_back(dg, df, k)
        } by {
            assert(a[k] == da[k]);
            assert(g[k] == dg[k]);
            assert(f[k] == df[k]);
        }
        lemma_last_with_tag_same(da, dg, df, t);
        assert(a[a.len() - 1].tag == g[g.len() - 1].tag);
    }
}

/// The TIFF header of a block read back.
proof fn lemma_header_back(c: Seq<u8>, le: bool, rest: Seq<u8>)
    requires
        c == tiff_header(le) + rest,
    ensures
        c.len() >= 8,
        tiff_mark(c),
        tiff_le(c) == le,
        ifd0_offset(c) == 8,
{
    lemma_u32_round_trip(le, 8);
    let h = tiff_header(le);
    assert(c.subrange(4, 8) =~= u32_bytes(le, 8));
    assert(c[0] == h[0] && c[1] == h[1] && c[2] == h[2] && c[3] == h[3]);
}


proof fn lemma_group_concat(a: Seq<ExifEntry>, b: Seq<ExifEntry>, kind: IfdKind)
    ensures
        group(a + b, kind) == group(a, kind) + group(b, kind),
    decreases b.len(),
{
    if b.len() == 0 {
        assert(a + b =~= a);
        assert(group(a, kind) + group(b, kind) =~= group(a, kind));
    } else {
        lemma_group_concat(a, b.drop_last(), kind);
        assert((a + b).drop_last() =~= a + b.drop_last());
        assert(group(a + b, kind) =~= group(a, kind) + group(b, kind));
    }
}

/// The records of a kind have what every entry has.
proof fn lemma_group_wf(s: Seq<ExifEntry>, kind: IfdKind, le: bool)
    requires
        forall|i: int|
            0 <= i < s.len() ==> {
                &&& (#[trigger] s[i]).ifd.namespace == Namespace::Standard
                &&& s[i].ifd.le == le
                &&& s[i].ifd.data@.len() == s[i].ifd.spec_length()
            },
    ensures
        forall|k: int|
            0 <= k < group(s, kind).len() ==> {
                &&& (#[trigger] group(s, kind)[k]).le == le
                &&& group(s, kind)[k].data@.len() == group(s, kind)[k].spec_length()
                &&& group(s, kind)[k].namespace == Namespace::Standard
            },
    decreases s.len(),
{
    if s.len() > 0 {
        let d = s.drop_last();
        assert forall|i: int| 0 <= i < d.len() implies {
            &&& (#[trigger] d[i]).ifd.namespace == Namespace::Standard
            &&& d[i].ifd.le == le
            &&& d[i].ifd.data@.len() == d[i].ifd.spec_length()
        } by {
            assert(d[i] == s[i]);
        }
        lemma_group_wf(d, kind, le);
        let g = group(s, kind);
        let gd = group(d, kind);
        assert forall|k: int| 0 <= k < g.len() implies {
            &&& (#[trigger] g[k]).le == le
            &&& g[k].data@.len() == g[k].spec_length()
            &&& g[k].namespace == Namespace::Standard
        } by {
            if k < gd.len() {
                assert(g[k] == gd[k]);
            } else {
                assert(s[s.len() - 1] == s.last());
            }
        }
    }
}

/// Where the Exif sub-directory is written.
pub open spec fn exif_pos(d: ExifData) -> int {
    8 + dir_len(group(d.entries@, IfdKind::Ifd0))
}

/// Where the GPS sub-directory is written.
pub open spec fn gps_pos(d: ExifData) -> int {
    exif_pos(d) + sub_block(group(d.entries@, IfdKind::Exif), d.le, exif_pos(d)).len()
}

/// The value fields of the top-level directory as written.
pub open spec fn top_fields(d: ExifData) -> Seq<Seq<u8>> {
    let g0 = group(d.entries@, IfdKind::Ifd0);
    with_pointer(
        with_pointer(
            dir_fields(g0, 8, d.le),
            last_with_tag(g0, EXIF_OFFSET_TAG),
            group(d.entries@, IfdKind::Exif).len() > 0,
            d.le,
            exif_pos(d),
        ),
        last_with_tag(g0, GPS_OFFSET_TAG),
        group(d.entries@, IfdKind::Gps).len() > 0,
        d.le,
        gps_pos(d),
    )
}

/// The pointer entry of a sub-directory: present exactly when the
/// sub-directory has entries, and then with a payload of four bytes.
pub open spec fn pointer_fits(g0: Seq<IfdEntry>, tag: u16, sub: Seq<IfdEntry>) -> bool {
    &&& (last_with_tag(g0, tag) is Some <==> sub.len() > 0)
    &&& last_with_tag(g0, tag) matches Some(k) ==> g0[k].spec_length() == 4
}

/// What a set may hold for its serialization to read back as it was written.
pub open spec fn round_trips(d: ExifData) -> bool {
    let s = d.entries@;
    let g0 = group(s, IfdKind::Ifd0);
    let gx = group(s, IfdKind::Exif);
    let gg = group(s, IfdKind::Gps);
    &&& forall|i: int|
        0 <= i < s.len() ==> {
            &&& (#[trigger] s[i]).kind != IfdKind::Ifd1
            &&& s[i].ifd.namespace == Namespace::Standard
            &&& s[i].ifd.le == d.le
            &&& s[i].ifd.data@.len() == s[i].ifd.spec_length()
        }
    &&& g0.len() < 0x10000
    &&& gx.len() < 0x10000
    &&& gg.len() < 0x10000
    &&& tags_match_codes(s)
    &&& pointer_fits(g0, EXIF_OFFSET_TAG, gx)
    &&& pointer_fits(g0, GPS_OFFSET_TAG, gg)
    &&& serialized_tiff(d).len() < 0x1_0000_0000
}

/// The layout of a serialized set.
proof fn lemma_serialized_layout(d: ExifData)
    requires
        round_trips(d),
    ensures
        ({
            let s = d.entries@;
            let le = d.le;
            let g0 = group(s, IfdKind::Ifd0);
            let gx = group(s, IfdKind::Exif);
            let gg = group(s, IfdKind::Gps);
            let h = tiff_header(le);
            let b0 = dir_block(g0, le, top_fields(d));
            let bx = sub_block(gx, le, exif_pos(d));
            let bg = sub_block(gg, le, gps_pos(d));
            let c = serialized_tiff(d);
            &&& c == h + b0 + bx + bg
            &&& well_formed_dir(g0, le)
            &&& well_formed_dir(gx, le)
            &&& well_formed_dir(gg, le)
            &&& group(s, IfdKind::Ifd1).len() == 0
            &&& dir_written(c, h, g0, le, top_fields(d), bx + bg)
            &&& (h + b0).len() == exif_pos(d)
            &&& (h + b0 + bx).len() == gps_pos(d)
            &&& c.len() == gps_pos(d) + bg.len()
            &&& gx.len() > 0 ==> dir_written(
                c,
                h + b0,
                gx,
                le,
                dir_fields(gx, exif_pos(d), le),
                bg,
            )
            &&& gg.len() > 0 ==> dir_written(
                c,
                h + b0 + bx,
                gg,
                le,
                dir_fields(gg, gps_pos(d), le),
                Seq::empty(),
            )
        }),
{
    reveal(serialized_tiff);
    let s = d.entries@;
    let le = d.le;
    let g0 = group(s, IfdKind::Ifd0);
    let gx = group(s, IfdKind::Exif);
    let gg = group(s, IfdKind::Gps);
    lemma_ids_codes(s, IfdKind::Ifd0);
    lemma_group_wf(s, IfdKind::Ifd0, le);
    lemma_group_wf(s, IfdKind::Exif, le);
    lemma_group_wf(s, IfdKind::Gps, le);
    assert forall|i: int| 0 <= i < s.len() implies (#[trigger] s[i]).kind != IfdKind::Ifd1 by {}
    lemma_group_no_kind(s, IfdKind::Ifd1);
    let h = tiff_header(le);
    let f = top_fields(d);
    let f00 = dir_fields(g0, 8, le);
    let kx = last_with_tag(g0, EXIF_OFFSET_TAG);
    let kg = last_with_tag(g0, GPS_OFFSET_TAG);
    lemma_last_with_tag(g0, EXIF_OFFSET_TAG);
    lemma_last_with_tag(g0, GPS_OFFSET_TAG);
    lemma_dir_fields4(g0, 8, le);
    let f01 = with_pointer(f00, kx, gx.len() > 0, le, exif_pos(d));
    lemma_with_pointer4(f00, kx, gx.len() > 0, le, exif_pos(d));
    lemma_with_pointer4(f01, kg, gg.len() > 0, le, gps_pos(d));
    assert forall|k: int| 0 <= k < g0.len() && !(#[trigger] g0[k]).spec_in_ifd() implies f[k]
        == f00[k] by {}
    let b0 = dir_block(g0, le, f);
    let bx = sub_block(gx, le, exif_pos(d));
    let bg = sub_block(gg, le, gps_pos(d));
    let c = serialized_tiff(d);
    assert(c == h + b0 + (bx + bg));
    assert(dir_written(c, h, g0, le, f, bx + bg));
    lemma_dir_layout(c, h, g0, le, f, bx + bg);
    if gx.len() > 0 {
        assert(c == (h + b0) + bx + bg);
        lemma_plain_dir_written(c, h + b0, gx, le, bg);
    }
    if gg.len() > 0 {
        assert(c =~= (h + b0 + bx) + bg + Seq::empty());
        lemma_plain_dir_written(c, h + b0 + bx, gg, le, Seq::empty());
    }
}


/// The value fields of the top-level directory: the pointers, and the
/// directory's own fields elsewhere.
proof fn lemma_top_fields(d: ExifData)
    ensures
        ({
            let s = d.entries@;
            let g0 = group(s, IfdKind::Ifd0);
            let f = top_fields(d);
            let kx = last_with_tag(g0, EXIF_OFFSET_TAG);
            let kg = last_with_tag(g0, GPS_OFFSET_TAG);
            let present_x = group(s, IfdKind::Exif).len() > 0;
            let present_g = group(s, IfdKind::Gps).len() > 0;
            &&& f.len() == g0.len()
            &&& fields4(f)
            &&& (present_x && kx is Some ==> f[kx->0] == u32_bytes(d.le, off32(exif_pos(d))))
            &&& (present_g && kg is Some ==> f[kg->0] == u32_bytes(d.le, off32(gps_pos(d))))
            &&& forall|k: int|
                0 <= k < g0.len() && !(present_x && kx == Some(k)) && !(present_g && kg == Some(
                    k,
                )) ==> #[trigger] f[k] == dir_fields(g0, 8, d.le)[k]
        }),
{
    let s = d.entries@;
    let le = d.le;
    let g0 = group(s, IfdKind::Ifd0);
    let kx = last_with_tag(g0, EXIF_OFFSET_TAG);
    let kg = last_with_tag(g0, GPS_OFFSET_TAG);
    lemma_last_with_tag(g0, EXIF_OFFSET_TAG);
    lemma_last_with_tag(g0, GPS_OFFSET_TAG);
    let f00 = dir_fields(g0, 8, le);
    lemma_dir_fields4(g0, 8, le);
    let gx = group(s, IfdKind::Exif);
    let gg = group(s, IfdKind::Gps);
    let f01 = with_pointer(f00, kx, gx.len() > 0, le, exif_pos(d));
    lemma_with_pointer4(f00, kx, gx.len() > 0, le, exif_pos(d));
    lemma_with_pointer4(f01, kg, gg.len() > 0, le, gps_pos(d));
}

/// The sub-directory offset that a pointer entry written with `pos` reads back
/// as.
#[verifier::rlimit(40)]
proof fn lemma_pointer_back(
    c: Seq<u8>,
    h: Seq<u8>,
    g0: Seq<IfdEntry>,
    le: bool,
    f: Seq<Seq<u8>>,
    y: Seq<u8>,
    tag: u16,
    pos: int,
)
    requires
        dir_written(c, h, g0, le, f, y),
        well_formed_dir(g0, le),
        h.len() == 8,
        h.len() + 6 + 12 * g0.len() + ext_payloads(g0).len() < 0x1_0000_0000,
        0 <= pos < 0x1_0000_0000,
        last_with_tag(g0, tag) matches Some(k) ==> f[k] == u32_bytes(le, off32(pos))
            && g0[k].spec_length() == 4,
    ensures
        sub_dir_offset(c, 8, le, tag) == (if last_with_tag(g0, tag) is Some {
            Some(pos)
        } else {
            None::<int>
        }),
{
    let n0 = g0.len();
    lemma_dir_layout(c, h, g0, le, f, y);
    assert(g0.take(n0 as int) =~= g0);
    lemma_last_with_tag(g0, tag);
    lemma_tag_index_back(c, h, g0, le, f, y, tag, n0);
    if last_with_tag(g0, tag) is Some {
        let k = last_with_tag(g0, tag)->0;
        lemma_record_back(c, h, g0, le, f, y, k);
        assert(f[k].subrange(0, 4) =~= f[k]);
        lemma_u32_round_trip(le, off32(pos));
        assert(off32(pos) == pos);
    }
}

/// Where the serialized set's sub-directory pointers lead when read back.
proof fn lemma_pointers_back(d: ExifData)
    requires
        round_trips(d),
    ensures
        ({
            let s = d.entries@;
            let le = d.le;
            let c = serialized_tiff(d);
            let gx = group(s, IfdKind::Exif);
            let gg = group(s, IfdKind::Gps);
            &&& c.len() >= 8
            &&& tiff_mark(c)
            &&& tiff_le(c) == le
            &&& ifd0_offset(c) == 8
            &&& dir_fits(c, 8, le)
            &&& dir_count(c, 8, le) == group(s, IfdKind::Ifd0).len()
            &&& sub_dir_offset(c, 8, le, EXIF_OFFSET_TAG) == (if gx.len() > 0 {
                Some(exif_pos(d))
            } else {
                None::<int>
            })
            &&& sub_dir_offset(c, 8, le, GPS_OFFSET_TAG) == (if gg.len() > 0 {
                Some(gps_pos(d))
            } else {
                None::<int>
            })
            &&& gx.len() > 0 ==> dir_fits(c, exif_pos(d), le) && dir_count(c, exif_pos(d), le)
                == gx.len()
            &&& gg.len() > 0 ==> dir_fits(c, gps_pos(d), le) && dir_count(c, gps_pos(d), le)
                == gg.len()
        }),
{
    lemma_serialized_layout(d);
    lemma_top_fields(d);
    let s = d.entries@;
    let le = d.le;
    let g0 = group(s, IfdKind::Ifd0);
    let gx = group(s, IfdKind::Exif);
    let gg = group(s, IfdKind::Gps);
    let h = tiff_header(le);
    let f = top_fields(d);
    let b0 = dir_block(g0, le, f);
    let bx = sub_block(gx, le, exif_pos(d));
    let bg = sub_block(gg, le, gps_pos(d));
    let c = serialized_tiff(d);
    assert(c == h + (b0 + bx + bg));
    lemma_header_back(c, le, b0 + bx + bg);
    lemma_dir_layout(c, h, g0, le, f, bx + bg);
    lemma_pointer_back(c, h, g0, le, f, bx + bg, EXIF_OFFSET_TAG, exif_pos(d));
    lemma_pointer_back(c, h, g0, le, f, bx + bg, GPS_OFFSET_TAG, gps_pos(d));
    if gx.len() > 0 {
        lemma_dir_layout(c, h + b0, gx, le, dir_fields(gx, exif_pos(d), le), bg);
    }
    if gg.len() > 0 {
        lemma_dir_layout(c, h + b0 + bx, gg, le, dir_fields(gg, gps_pos(d), le), Seq::empty());
    }
}


/// The parts of what reading a serialized set back gives.
proof fn lemma_outcome_parts(d: ExifData, d2: ExifData)
    requires
        round_trips(d),
        tiff_outcome(serialized_tiff(d), Ok((d2.entries@, d2.le))),
    ensures
        ({
            let s = d.entries@;
            let le = d.le;
            let c = serialized_tiff(d);
            let es = d2.entries@;
            let n0 = group(s, IfdKind::Ifd0).len() as int;
            let nx = group(s, IfdKind::Exif).len() as int;
            let ng = group(s, IfdKind::Gps).len() as int;
            &&& d2.le == le
            &&& es.len() == n0 + nx + ng
            &&& dir_read(c, 8, le, IfdKind::Ifd0, es.subrange(0, n0))
            &&& nx > 0 ==> dir_read(c, exif_pos(d), le, IfdKind::Exif, es.subrange(n0, n0 + nx))
            &&& ng > 0 ==> dir_read(
                c,
                gps_pos(d),
                le,
                IfdKind::Gps,
                es.subrange(n0 + nx, n0 + nx + ng),
            )
        }),
{
    lemma_pointers_back(d);
}

/// The top-level records of what reading a serialized set back gives.
#[verifier::spinoff_prover]
proof fn lemma_parsed_top(d: ExifData, d2: ExifData)
    requires
        round_trips(d),
        tiff_outcome(serialized_tiff(d), Ok((d2.entries@, d2.le))),
    ensures
        ({
            let s = d.entries@;
            let es = d2.entries@;
            let g0 = group(s, IfdKind::Ifd0);
            let gx = group(s, IfdKind::Exif);
            let gg = group(s, IfdKind::Gps);
            let n0 = g0.len() as int;
            let nx = gx.len() as int;
            let ng = gg.len() as int;
            let es0 = es.subrange(0, n0);
            &&& read_back(ifds_of(es0), g0, top_fields(d))
            &&& forall|i: int| 0 <= i < es0.len() ==> (#[trigger] es0[i]).kind == IfdKind::Ifd0
        }),
{
    lemma_serialized_layout(d);
    lemma_outcome_parts(d, d2);
    let s = d.entries@;
    let le = d.le;
    let g0 = group(s, IfdKind::Ifd0);
    let gx = group(s, IfdKind::Exif);
    let gg = group(s, IfdKind::Gps);
    let h = tiff_header(le);
    let f = top_fields(d);
    let b0 = dir_block(g0, le, f);
    let bx = sub_block(gx, le, exif_pos(d));
    let bg = sub_block(gg, le, gps_pos(d));
    let c = serialized_tiff(d);
    let es = d2.entries@;
    let n0 = g0.len() as int;
    let nx = gx.len() as int;
    let ng = gg.len() as int;
    lemma_dir_layout(c, h, g0, le, f, bx + bg);
    lemma_dir_read_back(c, h, g0, le, f, bx + bg, IfdKind::Ifd0, es.subrange(0, n0));
}

/// The Exif records of what reading a serialized set back gives.
#[verifier::spinoff_prover]
proof fn lemma_parsed_exif(d: ExifData, d2: ExifData)
    requires
        round_trips(d),
        tiff_outcome(serialized_tiff(d), Ok((d2.entries@, d2.le))),
    ensures
        ({
            let s = d.entries@;
            let es = d2.entries@;
            let g0 = group(s, IfdKind::Ifd0);
            let gx = group(s, IfdKind::Exif);
            let gg = group(s, IfdKind::Gps);
            let n0 = g0.len() as int;
            let nx = gx.len() as int;
            let ng = gg.len() as int;
            let esx = es.subrange(n0, n0 + nx);
            &&& nx > 0 ==> read_back(ifds_of(esx), gx, dir_fields(gx, exif_pos(d), d.le))
            &&& forall|i: int| 0 <= i < esx.len() ==> (#[trigger] esx[i]).kind == IfdKind::Exif
        }),
{
    lemma_serialized_layout(d);
    lemma_outcome_parts(d, d2);
    let s = d.entries@;
    let le = d.le;
    let g0 = group(s, IfdKind::Ifd0);
    let gx = group(s, IfdKind::Exif);
    let gg = group(s, IfdKind::Gps);
    let h = tiff_header(le);
    let f = top_fields(d);
    let b0 = dir_block(g0, le, f);
    let bx = sub_block(gx, le, exif_pos(d));
    let bg = sub_block(gg, le, gps_pos(d));
    let c = serialized_tiff(d);
    let es = d2.entries@;
    let n0 = g0.len() as int;
    let nx = gx.len() as int;
    let ng = gg.len() as int;
    if nx > 0 {
        lemma_dir_layout(c, h + b0, gx, le, dir_fields(gx, exif_pos(d), le), bg);
        lemma_dir_read_back(
            c,
            h + b0,
            gx,
            le,
            dir_fields(gx, exif_pos(d), le),
            bg,
            IfdKind::Exif,
            es.subrange(n0, n0 + nx),
        );
    }
}

/// The GPS records of what reading a serialized set back gives.
#[verifier::spinoff_prover]
proof fn lemma_parsed_gps(d: ExifData, d2: ExifData)
    requires
        round_trips(d),
        tiff_outcome(serialized_tiff(d), Ok((d2.entries@, d2.le))),
    ensures
        ({
            let s = d.entries@;
            let es = d2.entries@;
            let g0 = group(s, IfdKind::Ifd0);
            let gx = group(s, IfdKind::Exif);
            let gg = group(s, IfdKind::Gps);
            let n0 = g0.len() as int;
            let nx = gx.len() as int;
            let ng = gg.len() as int;
            let esg = es.subrange(n0 + nx, n0 + nx + ng);
            &&& ng > 0 ==> read_back(ifds_of(esg), gg, dir_fields(gg, gps_pos(d), d.le))
            &&& forall|i: int| 0 <= i < esg.len() ==> (#[trigger] esg[i]).kind == IfdKind::Gps
        }),
{
    lemma_serialized_layout(d);
    lemma_outcome_parts(d, d2);
    let s = d.entries@;
    let le = d.le;
    let g0 = group(s, IfdKind::Ifd0);
    let gx = group(s, IfdKind::Exif);
    let gg = group(s, IfdKind::Gps);
    let h = tiff_header(le);
    let f = top_fields(d);
    let b0 = dir_block(g0, le, f);
    let bx = sub_block(gx, le, exif_pos(d));
    let bg = sub_block(gg, le, gps_pos(d));
    let c = serialized_tiff(d);
    let es = d2.entries@;
    let n0 = g0.len() as int;
    let nx = gx.len() as int;
    let ng = gg.len() as int;
    if ng > 0 {
        lemma_dir_layout(c, h + b0 + bx, gg, le, dir_fields(gg, gps_pos(d), le), Seq::empty());
        lemma_dir_read_back(
            c,
            h + b0 + bx,
            gg,
            le,
            dir_fields(gg, gps_pos(d), le),
            Seq::empty(),
            IfdKind::Gps,
            es.subrange(n0 + nx, n0 + nx + ng),
        );
    }
}

/// The groups of what reading a serialized set back gives.
#[verifier::rlimit(40)]
proof fn lemma_parsed_groups(d: ExifData, d2: ExifData)
    requires
        round_trips(d),
        tiff_outcome(serialized_tiff(d), Ok((d2.entries@, d2.le))),
    ensures
        ({
            let s = d.entries@;
            let es = d2.entries@;
            let gx = group(s, IfdKind::Exif);
            let gg = group(s, IfdKind::Gps);
            &&& d2.le == d.le
            &&& read_back(group(es, IfdKind::Ifd0), group(s, IfdKind::Ifd0), top_fields(d))
            &&& gx.len() > 0 ==> read_back(
                group(es, IfdKind::Exif),
                gx,
                dir_fields(gx, exif_pos(d), d.le),
            )
            &&& gx.len() == 0 ==> group(es, IfdKind::Exif).len() == 0
            &&& gg.len() > 0 ==> read_back(
                group(es, IfdKind::Gps),
                gg,
                dir_fields(gg, gps_pos(d), d.le),
            )
            &&& gg.len() == 0 ==> group(es, IfdKind::Gps).len() == 0
            &&& group(es, IfdKind::Ifd1).len() == 0
        }),
{
    lemma_outcome_parts(d, d2);
    lemma_parsed_top(d, d2);
    lemma_parsed_exif(d, d2);
    lemma_parsed_gps(d, d2);
    let s = d.entries@;
    let es = d2.entries@;
    let n0 = group(s, IfdKind::Ifd0).len() as int;
    let nx = group(s, IfdKind::Exif).len() as int;
    let ng = group(s, IfdKind::Gps).len() as int;
    let es0 = es.subrange(0, n0);
    let esx = es.subrange(n0, n0 + nx);
    let esg = es.subrange(n0 + nx, n0 + nx + ng);
    assert(es =~= es0 + esx + esg);
    lemma_group_all(es0, IfdKind::Ifd0);
    lemma_group_all(esx, IfdKind::Exif);
    lemma_group_all(esg, IfdKind::Gps);
    assert forall|i: int| 0 <= i < es0.len() implies (#[trigger] es0[i]).kind != IfdKind::Exif
        && es0[i].kind != IfdKind::Gps && es0[i].kind != IfdKind::Ifd1 by {}
    assert forall|i: int| 0 <= i < esx.len() implies (#[trigger] esx[i]).kind != IfdKind::Ifd0
        && esx[i].kind != IfdKind::Gps && esx[i].kind != IfdKind::Ifd1 by {}
    assert forall|i: int| 0 <= i < esg.len() implies (#[trigger] esg[i]).kind != IfdKind::Ifd0
        && esg[i].kind != IfdKind::Exif && esg[i].kind != IfdKind::Ifd1 by {}
    lemma_group_no_kind(es0, IfdKind::Exif);
    lemma_group_no_kind(es0, IfdKind::Gps);
    lemma_group_no_kind(es0, IfdKind::Ifd1);
    lemma_group_no_kind(esx, IfdKind::Ifd0);
    lemma_group_no_kind(esx, IfdKind::Gps);
    lemma_group_no_kind(esx, IfdKind::Ifd1);
    lemma_group_no_kind(esg, IfdKind::Ifd0);
    lemma_group_no_kind(esg, IfdKind::Exif);
    lemma_group_no_kind(esg, IfdKind::Ifd1);
    lemma_group_concat(es0 + esx, esg, IfdKind::Ifd0);
    lemma_group_concat(es0, esx, IfdKind::Ifd0);
    lemma_group_concat(es0 + esx, esg, IfdKind::Exif);
    lemma_group_concat(es0, esx, IfdKind::Exif);
    lemma_group_concat(es0 + esx, esg, IfdKind::Gps);
    lemma_group_concat(es0, esx, IfdKind::Gps);
    lemma_group_concat(es0 + esx, esg, IfdKind::Ifd1);
    lemma_group_concat(es0, esx, IfdKind::Ifd1);
    assert(group(es, IfdKind::Ifd0) =~= ifds_of(es0));
    assert(group(es, IfdKind::Exif) =~= ifds_of(esx));
    assert(group(es, IfdKind::Gps) =~= ifds_of(esg));
}


/// What reading a serialized set back gives is tagged from the codes of its
/// records.
proof fn lemma_parsed_tags(d: ExifData, d2: ExifData)
    requires
        round_trips(d),
        tiff_outcome(serialized_tiff(d), Ok((d2.entries@, d2.le))),
    ensures
        tags_match_codes(d2.entries@),
{
    lemma_outcome_parts(d, d2);
    let s = d.entries@;
    let le = d.le;
    let c = serialized_tiff(d);
    let es = d2.entries@;
    let n0 = group(s, IfdKind::Ifd0).len() as int;
    let nx = group(s, IfdKind::Exif).len() as int;
    let ng = group(s, IfdKind::Gps).len() as int;
    let es0 = es.subrange(0, n0);
    let esx = es.subrange(n0, n0 + nx);
    let esg = es.subrange(n0 + nx, n0 + nx + ng);
    assert forall|i: int| 0 <= i < es.len() implies {
        &&& ((#[trigger] es[i]).tag == ExifTag::ExifOffset <==> es[i].ifd.tag == EXIF_OFFSET_TAG)
        &&& (es[i].tag == ExifTag::GPSOffset <==> es[i].ifd.tag == GPS_OFFSET_TAG)
    } by {
        if i < n0 {
            assert(es0[i] == es[i]);
            assert(entry_read(c, 8 + 2 + 12 * i, le, IfdKind::Ifd0, es0[i]));
        } else if i < n0 + nx {
            let j = i - n0;
            assert(esx[j] == es[i]);
            assert(entry_read(c, exif_pos(d) + 2 + 12 * j, le, IfdKind::Exif, esx[j]));
        } else {
            let j = i - n0 - nx;
            assert(esg[j] == es[i]);
            assert(entry_read(c, gps_pos(d) + 2 + 12 * j, le, IfdKind::Gps, esg[j]));
        }
        lemma_pointer_tags(es[i].ifd.tag);
    }
}

/// A sub-directory read back is written as before.
proof fn lemma_sub_rewritten(a: Seq<IfdEntry>, g: Seq<IfdEntry>, p: int, le: bool)
    requires
        read_back(a, g, dir_fields(g, p, le)),
        well_formed_dir(g, le),
    ensures
        sub_block(a, le, p) == sub_block(g, le, p),
        ext_payloads(a) == ext_payloads(g),
{
    let f = dir_fields(g, p, le);
    lemma_dir_fields4(g, p, le);
    assert forall|k: int| 0 <= k < g.len() implies (!(#[trigger] g[k]).spec_in_ifd() ==> f[k]
        == dir_fields(g, p, le)[k]) && (g[k].spec_in_ifd() ==> f[k] == inline_field(g[k].data@)
        || g[k].spec_length() == 4) by {
        lemma_dir_field(g, p, le, k);
    }
    lemma_rewritten_dir(a, g, f, p, le);
}

/// The top-level directory read back is written as before.
proof fn lemma_top_rewritten(d: ExifData, a: Seq<IfdEntry>)
    requires
        round_trips(d),
        read_back(a, group(d.entries@, IfdKind::Ifd0), top_fields(d)),
    ensures
        ({
            let g0 = group(d.entries@, IfdKind::Ifd0);
            &&& ext_payloads(a) == ext_payloads(g0)
            &&& dir_fields(a, 8, d.le) == top_fields(d)
            &&& dir_block(a, d.le, top_fields(d)) == dir_block(g0, d.le, top_fields(d))
            &&& last_with_tag(a, EXIF_OFFSET_TAG) == last_with_tag(g0, EXIF_OFFSET_TAG)
            &&& last_with_tag(a, GPS_OFFSET_TAG) == last_with_tag(g0, GPS_OFFSET_TAG)
        }),
{
    lemma_serialized_layout(d);
    lemma_top_fields(d);
    let s = d.entries@;
    let le = d.le;
    let g0 = group(s, IfdKind::Ifd0);
    let f = top_fields(d);
    lemma_last_with_tag(g0, EXIF_OFFSET_TAG);
    lemma_last_with_tag(g0, GPS_OFFSET_TAG);
    assert forall|k: int| 0 <= k < g0.len() implies (!(#[trigger] g0[k]).spec_in_ifd() ==> f[k]
        == dir_fields(g0, 8, le)[k]) && (g0[k].spec_in_ifd() ==> f[k] == inline_field(g0[k].data@)
        || g0[k].spec_length() == 4) by {
        lemma_dir_field(g0, 8, le, k);
    }
    lemma_rewritten_dir(a, g0, f, 8, le);
}

/// Round trip. Serialize a set whose entries are all in the standard
/// namespace and none in the thumbnail directory, each in the set's byte
/// order with a payload of `size * count` bytes, and each tagged as a
/// sub-directory pointer exactly when its record carries that pointer's
/// code; whose sub-directories each
/// have a pointer entry in the top-level directory exactly when they have
/// entries, that pointer's payload being four bytes; and whose output fits in
/// 32-bit offsets. Read the TIFF block back (what `parse_tiff` returns) and
/// serialize that again: the bytes are the same. The raw value of the
/// pointer entries is not kept; they are read back as the offsets written.
pub proof fn lemma_round_trip(d: ExifData, d2: ExifData)
    requires
        round_trips(d),
        tiff_outcome(serialized_tiff(d), Ok((d2.entries@, d2.le))),
        d2.mime == d.mime,
    ensures
        serialize_error(d) is None,
        serialize_error(d2) is None,
        serialized(d2) == serialized(d),
{
    lemma_serialized_layout(d);
    lemma_parsed_groups(d, d2);
    lemma_parsed_tags(d, d2);
    lemma_ids_codes(d.entries@, IfdKind::Ifd0);
    lemma_ids_codes(d2.entries@, IfdKind::Ifd0);
    lemma_top_fields(d);
    let s = d.entries@;
    let le = d.le;
    let g0 = group(s, IfdKind::Ifd0);
    let gx = group(s, IfdKind::Exif);
    let gg = group(s, IfdKind::Gps);
    let f = top_fields(d);
    let px = exif_pos(d);
    let pg = gps_pos(d);
    let es = d2.entries@;
    let a0 = group(es, IfdKind::Ifd0);
    let ax = group(es, IfdKind::Exif);
    let ag = group(es, IfdKind::Gps);
    lemma_top_rewritten(d, a0);
    assert(exif_pos(d2) == px);
    if gx.len() > 0 {
        lemma_sub_rewritten(ax, gx, px, le);
    }
    assert(sub_block(ax, le, px) == sub_block(gx, le, px));
    assert(gps_pos(d2) == pg);
    if gg.len() > 0 {
        lemma_sub_rewritten(ag, gg, pg, le);
    }
    assert(sub_block(ag, le, pg) == sub_block(gg, le, pg));
    lemma_last_with_tag(g0, EXIF_OFFSET_TAG);
    lemma_last_with_tag(g0, GPS_OFFSET_TAG);
    assert(top_fields(d2) =~= f);
    assert(serialized_tiff(d2) == serialized_tiff(d)) by {
        reveal(serialized_tiff);
    }
    assert(all_standard(g0));
    assert(all_standard(gx));
    assert(all_standard(gg));
    assert forall|k: int| 0 <= k < a0.len() implies #[trigger] a0[k].namespace
        == Namespace::Standard by {}
    assert forall|k: int| 0 <= k < ax.len() implies #[trigger] ax[k].namespace
        == Namespace::Standard by {}
    assert forall|k: int| 0 <= k < ag.len() implies #[trigger] ag[k].namespace
        == Namespace::Standard by {}
    reveal(serialize_error);
}


/// Reading back the TIFF block of a set that `round_trips` describes
/// succeeds: whatever `parse_tiff` returns on it is `Ok`.
pub proof fn lemma_read_back_succeeds(d: ExifData, r: Result<(Seq<ExifEntry>, bool), ExifError>)
    requires
        round_trips(d),
        tiff_outcome(serialized_tiff(d), r),
    ensures
        r is Ok,
{
    lemma_pointers_back(d);
}

} // verus!
