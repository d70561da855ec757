//! Writing a metadata set out as a TIFF block: the header, the top-level
//! directory, then the Exif and GPS sub-directories, each directory followed by
//! the payloads that do not fit in its records. A record whose payload lies
//! outside gets a placeholder first, which is backfilled once the payload has
//! been placed.
use crate::image::{exif_tag, FileType};
use crate::lowlevel::{push_bytes, push_u16, push_u32, u16_bytes, u32_bytes, write_u32_at};
use crate::types::{ExifData, ExifEntry, ExifError, ExifTag, IfdEntry, IfdKind, Namespace, Patch};
use vstd::prelude::*;

verus! {

/// Tag of the top-level entry that points to the Exif sub-directory.
pub const EXIF_OFFSET_TAG: u16 = 0x8769;

/// Tag of the top-level entry that points to the GPS sub-directory.
pub const GPS_OFFSET_TAG: u16 = 0x8825;

/// The byte sequences of `s`, one after another.
pub open spec fn concat_all(s: Seq<Seq<u8>>) -> Seq<u8>
    decreases s.len(),
{
    if s.len() == 0 {
        Seq::empty()
    } else {
        concat_all(s.drop_last()) + s.last()
    }
}

pub open spec fn zeros4() -> Seq<u8> {
    seq![0u8, 0, 0, 0]
}

/// The value field of a record whose payload fits in it: the payload, padded
/// with zeros to four bytes.
pub open spec fn inline_field(d: Seq<u8>) -> Seq<u8> {
    (d + zeros4()).subrange(0, 4)
}

/// A position as a 32-bit offset.
pub open spec fn off32(p: int) -> u32 {
    (p % 0x1_0000_0000) as u32
}

/// Tag, format code and count of a record, in the entry's byte order.
pub open spec fn record_head(e: IfdEntry) -> Seq<u8> {
    u16_bytes(e.le, e.tag) + u16_bytes(e.le, e.format.spec_code()) + u32_bytes(e.le, e.count)
}

/// A 12-byte record with the given value field.
pub open spec fn record_bytes(e: IfdEntry, field: Seq<u8>) -> Seq<u8> {
    record_head(e) + field
}

/// The value field as first written: the payload when it fits, else zeros
/// waiting for the payload's offset.
pub open spec fn placeholder(e: IfdEntry) -> Seq<u8> {
    if e.spec_in_ifd() {
        inline_field(e.data@)
    } else {
        zeros4()
    }
}

/// The payloads of `g` that do not fit in their records, in order.
pub open spec fn ext_payloads(g: Seq<IfdEntry>) -> Seq<u8>
    decreases g.len(),
{
    if g.len() == 0 {
        Seq::empty()
    } else {
        ext_payloads(g.drop_last()) + (if g.last().spec_in_ifd() {
            Seq::empty()
        } else {
            g.last().data@
        })
    }
}

/// The value fields of a directory written at `base`: each payload that fits,
/// or the offset of the payload in the data area after the records.
#[verifier::opaque]
pub open spec fn dir_fields(g: Seq<IfdEntry>, base: int, le: bool) -> Seq<Seq<u8>> {
    Seq::new(
        g.len(),
        |k: int|
            if g[k].spec_in_ifd() {
                inline_field(g[k].data@)
            } else {
                u32_bytes(le, off32(base + 6 + 12 * g.len() + ext_payloads(g.take(k)).len()))
            },
    )
}

/// The records of `g` with the given value fields.
#[verifier::opaque]
pub open spec fn records(g: Seq<IfdEntry>, fields: Seq<Seq<u8>>) -> Seq<u8> {
    concat_all(Seq::new(g.len(), |k: int| record_bytes(g[k], fields[k])))
}

/// A whole directory: entry count, records, a zero next-directory link, and
/// the payloads that did not fit.
pub open spec fn dir_block(g: Seq<IfdEntry>, le: bool, fields: Seq<Seq<u8>>) -> Seq<u8> {
    u16_bytes(le, (g.len() % 0x10000) as u16) + records(g, fields) + zeros4() + ext_payloads(g)
}

/// The length of a directory block.
pub open spec fn dir_len(g: Seq<IfdEntry>) -> int {
    6 + 12 * g.len() + ext_payloads(g).len() as int
}

/// The records of the entries of one directory kind, in order.
pub open spec fn group(s: Seq<ExifEntry>, kind: IfdKind) -> Seq<IfdEntry>
    decreases s.len(),
{
    if s.len() == 0 {
        Seq::empty()
    } else {
        group(s.drop_last(), kind) + (if s.last().kind == kind {
            seq![s.last().ifd]
        } else {
            Seq::empty()
        })
    }
}

/// The tags of the entries of one directory kind, in order, beside the
/// records that `group` gives.
pub open spec fn group_tags(s: Seq<ExifEntry>, kind: IfdKind) -> Seq<ExifTag>
    decreases s.len(),
{
    if s.len() == 0 {
        Seq::empty()
    } else {
        group_tags(s.drop_last(), kind) + (if s.last().kind == kind {
            seq![s.last().tag]
        } else {
            Seq::empty()
        })
    }
}

/// The index of the last of `ids` that is `id`.
pub open spec fn last_with_id(ids: Seq<ExifTag>, id: ExifTag) -> Option<int>
    decreases ids.len(),
{
    if ids.len() == 0 {
        None
    } else if ids.last() == id {
        Some(ids.len() - 1)
    } else {
        last_with_id(ids.drop_last(), id)
    }
}

/// The index, among the top-level records, of the last entry tagged `id`.
pub open spec fn pointer_index(s: Seq<ExifEntry>, id: ExifTag) -> Option<int> {
    last_with_id(group_tags(s, IfdKind::Ifd0), id)
}

pub proof fn lemma_group_tags_len(s: Seq<ExifEntry>, kind: IfdKind)
    ensures
        group_tags(s, kind).len() == group(s, kind).len(),
    decreases s.len(),
{
    if s.len() > 0 {
        lemma_group_tags_len(s.drop_last(), kind);
    }
}

/// The index that `pointer_index` gives is that of a top-level record.
pub proof fn lemma_pointer_index(s: Seq<ExifEntry>, id: ExifTag)
    ensures
        pointer_index(s, id) matches Some(k) ==> 0 <= k < group(s, IfdKind::Ifd0).len(),
{
    lemma_group_tags_len(s, IfdKind::Ifd0);
    lemma_last_with_id(group_tags(s, IfdKind::Ifd0), id);
}

pub proof fn lemma_last_with_id(ids: Seq<ExifTag>, id: ExifTag)
    ensures
        last_with_id(ids, id) matches Some(k) ==> 0 <= k < ids.len() && ids[k] == id,
    decreases ids.len(),
{
    if ids.len() > 0 && ids.last() != id {
        lemma_last_with_id(ids.drop_last(), id);
    }
}

pub open spec fn all_standard(g: Seq<IfdEntry>) -> bool {
    forall|k: int| 0 <= k < g.len() ==> #[trigger] g[k].namespace == Namespace::Standard
}

/// The error that serializing `d` ends in, if any.
#[verifier::opaque]
pub open spec fn serialize_error(d: ExifData) -> Option<ExifError> {
    let e = d.entries@;
    let g0 = group(e, IfdKind::Ifd0);
    let gx = group(e, IfdKind::Exif);
    let gg = group(e, IfdKind::Gps);
    if group(e, IfdKind::Ifd1).len() > 0 || !all_standard(g0) {
        Some(ExifError::UnsupportedNamespace)
    } else if gx.len() > 0 && pointer_index(e, ExifTag::ExifOffset) is None {
        Some(ExifError::MissingExifOffset)
    } else if gx.len() > 0 && !all_standard(gx) {
        Some(ExifError::UnsupportedNamespace)
    } else if gg.len() > 0 && pointer_index(e, ExifTag::GPSOffset) is None {
        Some(ExifError::MissingExifOffset)
    } else if gg.len() > 0 && !all_standard(gg) {
        Some(ExifError::UnsupportedNamespace)
    } else {
        None
    }
}

/// The fields `f` with the pointer entry at `at` set to `pos`, when the
/// sub-directory it points to is written.
pub open spec fn with_pointer(
    f: Seq<Seq<u8>>,
    at: Option<int>,
    present: bool,
    le: bool,
    pos: int,
) -> Seq<Seq<u8>> {
    if present && at is Some {
        f.update(at->0, u32_bytes(le, off32(pos)))
    } else {
        f
    }
}

/// The byte-order mark, and the offset of the top-level directory (8).
pub open spec fn tiff_header(le: bool) -> Seq<u8> {
    (if le {
        seq![0x49u8, 0x49, 0x2a, 0]
    } else {
        seq![0x4du8, 0x4d, 0, 0x2a]
    }) + u32_bytes(le, 8)
}

/// A sub-directory written at `start`; nothing when it has no entries.
pub open spec fn sub_block(g: Seq<IfdEntry>, le: bool, start: int) -> Seq<u8> {
    if g.len() > 0 {
        dir_block(g, le, dir_fields(g, start, le))
    } else {
        Seq::empty()
    }
}

/// The TIFF block that serializing `d` produces when it succeeds.
#[verifier::opaque]
pub open spec fn serialized_tiff(d: ExifData) -> Seq<u8> {
    let le = d.le;
    let e = d.entries@;
    let g0 = group(e, IfdKind::Ifd0);
    let gx = group(e, IfdKind::Exif);
    let gg = group(e, IfdKind::Gps);
    let px = 8 + dir_len(g0);
    let bx = sub_block(gx, le, px);
    let pg = px + bx.len();
    let f0 = with_pointer(
        with_pointer(dir_fields(g0, 8, le), pointer_index(e, ExifTag::ExifOffset), gx.len() > 0, le, px),
        pointer_index(e, ExifTag::GPSOffset),
        gg.len() > 0,
        le,
        pg,
    );
    tiff_header(le) + dir_block(g0, le, f0) + bx + sub_block(gg, le, pg)
}

/// The bytes that serializing `d` produces when it succeeds: the TIFF block,
/// after `Exif\0\0` for a JPEG.
pub open spec fn serialized(d: ExifData) -> Seq<u8> {
    if d.mime == FileType::JPEG {
        exif_tag() + serialized_tiff(d)
    } else {
        serialized_tiff(d)
    }
}

/// The payloads of a list of patches, in order.
pub open spec fn patches_bytes(ps: Seq<Patch>) -> Seq<u8>
    decreases ps.len(),
{
    if ps.len() == 0 {
        Seq::empty()
    } else {
        patches_bytes(ps.drop_last()) + ps.last().data@
    }
}

proof fn lemma_concat_len12(s: Seq<Seq<u8>>)
    requires
        forall|i: int| 0 <= i < s.len() ==> (#[trigger] s[i]).len() == 12,
    ensures
        concat_all(s).len() == 12 * (s.len() as int),
    decreases s.len(),
{
    if s.len() > 0 {
        lemma_concat_len12(s.drop_last());
    }
}

proof fn lemma_concat_update(s: Seq<Seq<u8>>, k: int, x: Seq<u8>)
    requires
        forall|i: int| 0 <= i < s.len() ==> (#[trigger] s[i]).len() == 12,
        0 <= k < s.len(),
        x.len() == 12,
    ensures
        concat_all(s.update(k, x)) == concat_all(s).subrange(0, 12 * k) + x + concat_all(
            s,
        ).subrange(12 * k + 12, 12 * (s.len() as int)),
    decreases s.len(),
{
    let n = s.len() as int;
    let c = concat_all(s);
    lemma_concat_len12(s);
    lemma_concat_len12(s.drop_last());
    if k == n - 1 {
        assert(s.update(k, x).drop_last() =~= s.drop_last());
        assert(c.subrange(0, 12 * k) =~= concat_all(s.drop_last()));
        assert(c.subrange(12 * k + 12, 12 * n) =~= Seq::<u8>::empty());
        assert(concat_all(s.update(k, x)) =~= c.subrange(0, 12 * k) + x + c.subrange(
            12 * k + 12,
            12 * n,
        ));
    } else {
        let d = s.drop_last();
        assert(s.update(k, x).drop_last() =~= d.update(k, x));
        assert(s.update(k, x).last() == s.last());
        lemma_concat_update(d, k, x);
        let cd = concat_all(d);
        assert(c == cd + s.last());
        assert(c.subrange(0, 12 * k) =~= cd.subrange(0, 12 * k));
        assert(c.subrange(12 * k + 12, 12 * n) =~= cd.subrange(12 * k + 12, 12 * (n - 1))
            + s.last());
        assert(concat_all(s.update(k, x)) =~= c.subrange(0, 12 * k) + x + c.subrange(
            12 * k + 12,
            12 * n,
        ));
    }
}

/// Record `k` sits at `12 * k` in the records area.
pub proof fn lemma_records_at(g: Seq<IfdEntry>, f: Seq<Seq<u8>>, k: int)
    requires
        f.len() == g.len(),
        forall|i: int| 0 <= i < f.len() ==> (#[trigger] f[i]).len() == 4,
        0 <= k < g.len(),
    ensures
        records(g, f).len() == 12 * g.len(),
        records(g, f).subrange(12 * k, 12 * k + 12) == record_bytes(g[k], f[k]),
{
    reveal(records);
    let s = Seq::new(g.len(), |i: int| record_bytes(g[i], f[i]));
    assert forall|i: int| 0 <= i < s.len() implies (#[trigger] s[i]).len() == 12 by {
        assert(f[i].len() == 4);
    }
    lemma_concat_len12(s);
    lemma_concat_update(s, k, s[k]);
    assert(s.update(k, s[k]) =~= s);
    let c = concat_all(s);
    assert(c.subrange(12 * k, 12 * k + 12) =~= (c.subrange(0, 12 * k) + s[k] + c.subrange(
        12 * k + 12,
        12 * (s.len() as int),
    )).subrange(12 * k, 12 * k + 12));
}

/// Overwriting the value field of record `k` inside a buffer.
proof fn lemma_write_field(
    x: Seq<u8>,
    g: Seq<IfdEntry>,
    f: Seq<Seq<u8>>,
    y: Seq<u8>,
    k: int,
    b: Seq<u8>,
)
    requires
        f.len() == g.len(),
        forall|i: int| 0 <= i < f.len() ==> (#[trigger] f[i]).len() == 4,
        0 <= k < g.len(),
        b.len() == 4,
    ensures
        ({
            let buf = x + records(g, f) + y;
            let p = x.len() + 12 * k + 8;
            buf.subrange(0, p) + b + buf.subrange(p + 4, buf.len() as int) == x + records(
                g,
                f.update(k, b),
            ) + y
        }),
{
    reveal(records);
    let s = Seq::new(g.len(), |i: int| record_bytes(g[i], f[i]));
    let f2 = f.update(k, b);
    let s2 = Seq::new(g.len(), |i: int| record_bytes(g[i], f2[i]));
    assert forall|i: int| 0 <= i < s.len() implies (#[trigger] s[i]).len() == 12 by {
        assert(f[i].len() == 4);
    }
    assert(s2 =~= s.update(k, record_bytes(g[k], b)));
    lemma_concat_update(s, k, record_bytes(g[k], b));
    lemma_records_at(g, f, k);
    lemma_concat_len12(s);
    let r = records(g, f);
    let r2 = records(g, f2);
    assert(r.subrange(12 * k, 12 * k + 8) =~= record_head(g[k])) by {
        assert(r.subrange(12 * k, 12 * k + 8) =~= r.subrange(12 * k, 12 * k + 12).subrange(0, 8));
    }
    assert(r2 =~= r.subrange(0, 12 * k + 8) + b + r.subrange(12 * k + 12, r.len() as int));
    let buf = x + r + y;
    let p = x.len() + 12 * k + 8;
    assert(buf.subrange(0, p) =~= x + r.subrange(0, 12 * k + 8));
    assert(buf.subrange(p + 4, buf.len() as int) =~= r.subrange(12 * k + 12, r.len() as int) + y);
    assert(buf.subrange(0, p) + b + buf.subrange(p + 4, buf.len() as int) =~= x + r2 + y);
}


pub proof fn lemma_records_len(g: Seq<IfdEntry>, f: Seq<Seq<u8>>)
    requires
        f.len() == g.len(),
        forall|i: int| 0 <= i < f.len() ==> (#[trigger] f[i]).len() == 4,
    ensures
        records(g, f).len() == 12 * g.len(),
{
    reveal(records);
    let s = Seq::new(g.len(), |i: int| record_bytes(g[i], f[i]));
    assert forall|i: int| 0 <= i < s.len() implies (#[trigger] s[i]).len() == 12 by {
        assert(f[i].len() == 4);
    }
    lemma_concat_len12(s);
}

/// The records of the first `i` entries of a kind are the first records of
/// that kind.
proof fn lemma_group_take(s: Seq<ExifEntry>, i: int, kind: IfdKind)
    requires
        0 <= i <= s.len(),
    ensures
        group(s.take(i), kind).len() <= group(s, kind).len(),
        group(s, kind).take(group(s.take(i), kind).len() as int) == group(s.take(i), kind),
    decreases s.len(),
{
    if i == s.len() {
        assert(s.take(i) =~= s);
        assert(group(s, kind).take(group(s, kind).len() as int) =~= group(s, kind));
    } else {
        let d = s.drop_last();
        assert(s.take(i) =~= d.take(i));
        lemma_group_take(d, i, kind);
        let a = group(d.take(i), kind);
        assert(group(s, kind).take(a.len() as int) =~= group(d, kind).take(a.len() as int));
    }
}

/// Every value field of `f` is four bytes long.
pub open spec fn fields4(f: Seq<Seq<u8>>) -> bool {
    forall|t: int| 0 <= t < f.len() ==> (#[trigger] f[t]).len() == 4
}

pub proof fn lemma_with_pointer4(f: Seq<Seq<u8>>, at: Option<int>, present: bool, le: bool, pos: int)
    requires
        fields4(f),
        at matches Some(k) ==> 0 <= k < f.len(),
    ensures
        fields4(with_pointer(f, at, present, le, pos)),
        with_pointer(f, at, present, le, pos).len() == f.len(),
{
    let w = with_pointer(f, at, present, le, pos);
    assert forall|t: int| 0 <= t < w.len() implies (#[trigger] w[t]).len() == 4 by {
        if present && at is Some && t == at->0 {
        } else {
            assert(w[t] == f[t]);
        }
    }
}

pub proof fn lemma_dir_fields4(g: Seq<IfdEntry>, base: int, le: bool)
    ensures
        fields4(dir_fields(g, base, le)),
        dir_fields(g, base, le).len() == g.len(),
{
    reveal(dir_fields);
    let f = dir_fields(g, base, le);
    assert forall|t: int| 0 <= t < f.len() implies (#[trigger] f[t]).len() == 4 by {}
}

/// Value fields of a directory while its payloads are being placed: those of
/// the first `j` patches are final, the others still zero.
pub open spec fn partial_fields(
    g: Seq<IfdEntry>,
    rank: Seq<int>,
    j: int,
    base: int,
    le: bool,
) -> Seq<Seq<u8>> {
    Seq::new(
        g.len(),
        |k: int|
            if g[k].spec_in_ifd() {
                inline_field(g[k].data@)
            } else if rank[k] < j {
                dir_fields(g, base, le)[k]
            } else {
                zeros4()
            },
    )
}

pub open spec fn placeholders(g: Seq<IfdEntry>) -> Seq<Seq<u8>> {
    Seq::new(g.len(), |k: int| placeholder(g[k]))
}

/// Appends the value field of a payload that fits in its record.
fn push_inline(out: &mut Vec<u8>, d: &[u8])
    ensures
        final(out)@ == old(out)@ + inline_field(d@),
{
    let ghost start = out@;
    let mut i: usize = 0;
    while i < 4
        invariant
            i <= 4,
            out@ == start + inline_field(d@).subrange(0, i as int),
        decreases 4 - i,
    {
        if i < d.len() {
            out.push(d[i]);
        } else {
            out.push(0);
        }
        i += 1;
        assert(out@ =~= start + inline_field(d@).subrange(0, i as int));
    }
    assert(inline_field(d@).subrange(0, 4) =~= inline_field(d@));
}

impl IfdEntry {
    /// Appends the entry's 12-byte record. A payload that fits goes into the
    /// record; for one that does not, the value field is left zero and a patch
    /// for it is queued. Entries outside the standard namespace are refused.
    pub fn serialize<'a>(&'a self, serialized: &mut Vec<u8>, data_patches: &mut Vec<Patch<'a>>) -> (r:
        Result<(), ExifError>)
        ensures
            self.namespace != Namespace::Standard ==> r == Err::<(), ExifError>(
                ExifError::UnsupportedNamespace,
            ) && final(serialized)@ == old(serialized)@ && final(data_patches)@ == old(
                data_patches,
            )@,
            self.namespace == Namespace::Standard ==> r is Ok && final(serialized)@ == old(
                serialized,
            )@ + record_bytes(*self, placeholder(*self)),
            self.namespace == Namespace::Standard && self.spec_in_ifd() ==> final(data_patches)@
                == old(data_patches)@,
            self.namespace == Namespace::Standard && !self.spec_in_ifd() ==> {
                &&& final(data_patches)@.len() == old(data_patches)@.len() + 1
                &&& final(data_patches)@.drop_last() == old(data_patches)@
                &&& final(data_patches)@.last().offset_pos == old(serialized)@.len() + 8
                &&& final(data_patches)@.last().data@ == self.data@
            },
    {
        if self.namespace != Namespace::Standard {
            return Err(ExifError::UnsupportedNamespace);
        }
        let ghost start = serialized@;
        push_u16(serialized, self.le, self.tag);
        push_u16(serialized, self.le, self.format.code());
        push_u32(serialized, self.le, self.count);
        if self.in_ifd() {
            push_inline(serialized, self.data.as_slice());
        } else {
            let pos = serialized.len();
            data_patches.push(Patch::new(pos, self.data.as_slice()));
            serialized.push(0);
            serialized.push(0);
            serialized.push(0);
            serialized.push(0);
            assert(data_patches@.drop_last() =~= old(data_patches)@);
        }
        assert(serialized@ =~= start + record_bytes(*self, placeholder(*self)));
        Ok(())
    }
}

impl ExifData {
    /// The number of entries of a kind.
    fn count_kind(&self, kind: IfdKind) -> (r: usize)
        ensures
            r == group(self.entries@, kind).len(),
    {
        let ghost e = self.entries@;
        let mut n: usize = 0;
        let mut i: usize = 0;
        while i < self.entries.len()
            invariant
                e == self.entries@,
                i <= e.len(),
                n <= i,
                n == group(e.take(i as int), kind).len(),
            decreases e.len() - i,
        {
            assert(e.take(i + 1).drop_last() =~= e.take(i as int));
            if self.entries[i].kind == kind {
                n += 1;
            }
            i += 1;
        }
        assert(e.take(i as int) =~= e);
        n
    }

    /// Appends the directory of the entries of `kind` at the end of `out`:
    /// count, records, a zero link, then the payloads that do not fit, each
    /// record's placeholder backfilled with its payload's offset. Returns the
    /// positions of the value fields of the last Exif-pointer and GPS-pointer
    /// records.
    fn emit_dir<'a>(&'a self, out: &mut Vec<u8>, kind: IfdKind) -> (r: Result<
        (Option<usize>, Option<usize>),
        ExifError,
    >)
        ensures
            ({
                let g = group(self.entries@, kind);
                let ids = group_tags(self.entries@, kind);
                let base = old(out)@.len() as int;
                &&& (r is Err <==> !all_standard(g))
                &&& r is Err ==> r == Err::<(Option<usize>, Option<usize>), ExifError>(
                    ExifError::UnsupportedNamespace,
                )
                &&& r matches Ok((pe, pg)) ==> {
                    &&& final(out)@ == old(out)@ + dir_block(g, self.le, dir_fields(g, base, self.le))
                    &&& (pe is Some <==> last_with_id(ids, ExifTag::ExifOffset) is Some)
                    &&& (pe is Some ==> pe->0 == base + 10 + 12 * last_with_id(
                        ids,
                        ExifTag::ExifOffset,
                    )->0)
                    &&& (pg is Some <==> last_with_id(ids, ExifTag::GPSOffset) is Some)
                    &&& (pg is Some ==> pg->0 == base + 10 + 12 * last_with_id(
                        ids,
                        ExifTag::GPSOffset,
                    )->0)
                }
            }),
    {
        proof {
            reveal(dir_fields);
        }
        let ghost e = self.entries@;
        let ghost g = group(e, kind);
        let ghost base = out@.len() as int;
        let le = self.le;
        let n = self.count_kind(kind);
        push_u16(out, le, (n % 0x10000) as u16);
        let ghost head = out@;
        let mut patches: Vec<Patch<'a>> = Vec::new();
        let ghost mut pk: Seq<int> = Seq::empty();
        let ghost mut rank: Seq<int> = Seq::empty();
        let ghost mut gi: Seq<IfdEntry> = Seq::empty();
        let ghost mut ti: Seq<ExifTag> = Seq::empty();
        let mut pe: Option<usize> = None;
        let mut pg: Option<usize> = None;
        let mut i: usize = 0;
        proof {
            assert(e.take(0) =~= Seq::<ExifEntry>::empty());
            assert(Seq::new(0, |k: int| record_bytes(gi[k], placeholders(gi)[k])) =~= Seq::<
                Seq<u8>,
            >::empty());
            reveal(records);
        }
        while i < self.entries.len()
            invariant
                e == self.entries@,
                g == group(e, kind),
                le == self.le,
                n == g.len(),
                i <= e.len(),
                gi == group(e.take(i as int), kind),
                base + 2 == head.len(),
                out@ == head + records(gi, placeholders(gi)),
                all_standard(gi),
                patches@.len() == pk.len(),
                rank.len() == gi.len(),
                forall|j: int|
                    0 <= j < pk.len() ==> {
                        &&& 0 <= #[trigger] pk[j] < gi.len()
                        &&& !gi[pk[j]].spec_in_ifd()
                        &&& rank[pk[j]] == j
                        &&& patches@[j].offset_pos == base + 10 + 12 * pk[j]
                        &&& patches@[j].data@ == gi[pk[j]].data@
                        &&& patches_bytes(patches@.take(j)) == ext_payloads(gi.take(pk[j]))
                    },
                forall|k: int|
                    0 <= k < gi.len() && !(#[trigger] gi[k]).spec_in_ifd() ==> 0 <= rank[k] < pk.len()
                        && pk[rank[k]] == k,
                patches_bytes(patches@) == ext_payloads(gi),
                ti == group_tags(e.take(i as int), kind),
                ti.len() == gi.len(),
                pe is Some <==> last_with_id(ti, ExifTag::ExifOffset) is Some,
                pe is Some ==> pe->0 == base + 10 + 12 * last_with_id(ti, ExifTag::ExifOffset)->0,
                pg is Some <==> last_with_id(ti, ExifTag::GPSOffset) is Some,
                pg is Some ==> pg->0 == base + 10 + 12 * last_with_id(ti, ExifTag::GPSOffset)->0,
            decreases e.len() - i,
        {
            proof {
                reveal(dir_fields);
                assert(e.take(i + 1).drop_last() =~= e.take(i as int));
                lemma_records_len(gi, placeholders(gi));
            }
            let entry = &self.entries[i];
            if entry.kind == kind {
                let ghost old_out = out@;
                let ghost old_patches = patches@;
                let pos = out.len();
                match entry.ifd.serialize(out, &mut patches) {
                    Ok(()) => {},
                    Err(err) => {
                        proof {
                            lemma_group_take(e, i + 1, kind);
                            let gi1 = gi.push(entry.ifd);
                            assert(group(e.take(i + 1), kind) == gi1);
                            assert(g[gi.len() as int] == gi1[gi.len() as int]);
                        }
                        return Err(err);
                    },
                }
                let ghost ifd = entry.ifd;
                let ghost gi1 = gi.push(ifd);
                proof {
                    assert(gi1.drop_last() =~= gi);
                    assert(placeholders(gi1) =~= placeholders(gi).push(placeholder(ifd)));
                    let s0 = Seq::new(gi.len(), |k: int| record_bytes(gi[k], placeholders(gi)[k]));
                    let s1 = Seq::new(gi1.len(), |k: int| record_bytes(gi1[k], placeholders(gi1)[k]));
                    assert(s1.drop_last() =~= s0);
                    reveal(records);
                    assert(out@ =~= head + records(gi1, placeholders(gi1)));
                    assert forall|k: int| 0 <= k < gi1.len() implies #[trigger] gi1[k].namespace
                        == Namespace::Standard by {
                        if k < gi.len() {
                            assert(gi1[k] == gi[k]);
                        }
                    }
                }
                if !entry.ifd.in_ifd() {
                    proof {
                        let j0 = pk.len() as int;
                        let k0 = gi.len() as int;
                        assert(patches@.take(j0) =~= old_patches);
                        assert(gi1.take(k0) =~= gi);
                        assert forall|j: int| 0 <= j < pk.len() implies patches@.take(j)
                            == old_patches.take(j) && gi1.take(pk[j]) == gi.take(pk[j]) by {
                            assert(patches@.take(j) =~= old_patches.take(j));
                            assert(gi1.take(pk[j]) =~= gi.take(pk[j]));
                        }
                        pk = pk.push(k0);
                        rank = rank.push(j0);
                        assert(patches@.drop_last() =~= old_patches);
                    }
                } else {
                    proof {
                        assert forall|j: int| 0 <= j < pk.len() implies gi1.take(pk[j]) == gi.take(
                            pk[j],
                        ) by {
                            assert(gi1.take(pk[j]) =~= gi.take(pk[j]));
                        }
                        rank = rank.push(0);
                    }
                }
                if entry.tag == ExifTag::ExifOffset {
                    pe = Some(out.len() - 4);
                }
                if entry.tag == ExifTag::GPSOffset {
                    pg = Some(out.len() - 4);
                }
                proof {
                    lemma_records_len(gi, placeholders(gi));
                    let ti1 = ti.push(entry.tag);
                    assert(ti1.drop_last() =~= ti);
                    gi = gi1;
                    ti = ti1;
                }
            }
            i += 1;
        }
        proof {
            assert(e.take(i as int) =~= e);
        }
        let ghost recs_end = out@.len();
        out.push(0);
        out.push(0);
        out.push(0);
        out.push(0);
        let ghost tail0 = out@;
        let mut j: usize = 0;
        proof {
            assert(partial_fields(g, rank, 0, base, le) =~= placeholders(g));
            assert(patches@.take(0) =~= Seq::<Patch>::empty());
            assert(out@ =~= head + records(g, partial_fields(g, rank, 0, base, le)) + zeros4()
                + patches_bytes(patches@.take(0)));
        }
        while j < patches.len()
            invariant
                e == self.entries@,
                g == group(e, kind),
                le == self.le,
                n == g.len(),
                base + 2 == head.len(),
                j <= patches@.len(),
                patches@.len() == pk.len(),
                rank.len() == g.len(),
                forall|jj: int|
                    0 <= jj < pk.len() ==> {
                        &&& 0 <= #[trigger] pk[jj] < g.len()
                        &&& !g[pk[jj]].spec_in_ifd()
                        &&& rank[pk[jj]] == jj
                        &&& patches@[jj].offset_pos == base + 10 + 12 * pk[jj]
                        &&& patches@[jj].data@ == g[pk[jj]].data@
                        &&& patches_bytes(patches@.take(jj)) == ext_payloads(g.take(pk[jj]))
                    },
                forall|k: int|
                    0 <= k < g.len() && !(#[trigger] g[k]).spec_in_ifd() ==> 0 <= rank[k] < pk.len()
                        && pk[rank[k]] == k,
                patches_bytes(patches@) == ext_payloads(g),
                out@ == head + records(g, partial_fields(g, rank, j as int, base, le)) + zeros4()
                    + patches_bytes(patches@.take(j as int)),
            decreases patches@.len() - j,
        {
            let ghost jj = j as int;
            let ghost k = pk[jj];
            let ghost f = partial_fields(g, rank, jj, base, le);
            proof {
                reveal(dir_fields);
                assert forall|t: int| 0 <= t < f.len() implies (#[trigger] f[t]).len() == 4 by {}
                lemma_records_len(g, f);
            }
            let pos = out.len();
            let p = &patches[j];
            push_bytes(out, p.data);
            let b = (pos as u64 % 0x1_0000_0000) as u32;
            let ghost before = out@;
            write_u32_at(out, p.offset_pos, le, b);
            proof {
                let bb = u32_bytes(le, b);
                let y = zeros4() + patches_bytes(patches@.take(jj)) + patches@[jj].data@;
                assert(before =~= head + records(g, f) + y);
                lemma_write_field(head, g, f, y, k, bb);
                assert(pos == base + 6 + 12 * g.len() + ext_payloads(g.take(k)).len());
                assert(bb == dir_fields(g, base, le)[k]);
                assert(f.update(k, bb) =~= partial_fields(g, rank, jj + 1, base, le));
                assert(patches@.take(jj + 1).drop_last() =~= patches@.take(jj));
                assert(out@ =~= head + records(g, partial_fields(g, rank, jj + 1, base, le))
                    + zeros4() + patches_bytes(patches@.take(jj + 1)));
            }
            j += 1;
        }
        proof {
            reveal(dir_fields);
            assert(partial_fields(g, rank, j as int, base, le) =~= dir_fields(g, base, le));
            assert(patches@.take(j as int) =~= patches@);
            assert(out@ =~= old(out)@ + dir_block(g, le, dir_fields(g, base, le)));
        }
        Ok((pe, pg))
    }
}



/// Writing a sub-directory's offset into the top-level pointer field, and
/// appending the sub-directory, as the fields `with_pointer` gives.
proof fn lemma_pointer_written(
    before: Seq<u8>,
    after: Seq<u8>,
    head0: Seq<u8>,
    g0: Seq<IfdEntry>,
    f: Seq<Seq<u8>>,
    tail: Seq<u8>,
    k: Option<int>,
    present: bool,
    le: bool,
    pos: int,
    bl: Seq<u8>,
)
    requires
        before == head0 + records(g0, f) + tail,
        f.len() == g0.len(),
        fields4(f),
        k matches Some(kk) ==> 0 <= kk < g0.len(),
        present ==> k is Some,
        present ==> after == before.subrange(0, head0.len() + 12 * k->0 + 8) + u32_bytes(
            le,
            off32(pos),
        ) + before.subrange(head0.len() + 12 * k->0 + 12, before.len() as int) + bl,
        !present ==> after == before && bl.len() == 0,
    ensures
        after == head0 + records(g0, with_pointer(f, k, present, le, pos)) + tail + bl,
        fields4(with_pointer(f, k, present, le, pos)),
        with_pointer(f, k, present, le, pos).len() == g0.len(),
{
    lemma_with_pointer4(f, k, present, le, pos);
    if present {
        lemma_write_field(head0, g0, f, tail, k->0, u32_bytes(le, off32(pos)));
        assert(after =~= head0 + records(g0, with_pointer(f, k, present, le, pos)) + tail + bl);
    } else {
        assert(after =~= head0 + records(g0, with_pointer(f, k, present, le, pos)) + tail + bl);
    }
}

impl ExifData {
    /// Appends the sub-directory of `kind`, when it has entries, and writes its
    /// offset into the four bytes at `ptr`. Fails with `MissingExifOffset`
    /// when it has entries but there is no `ptr`.
    fn emit_sub(&self, out: &mut Vec<u8>, kind: IfdKind, ptr: Option<usize>) -> (r: Result<
        (),
        ExifError,
    >)
        requires
            ptr matches Some(p) ==> p + 4 <= old(out)@.len(),
        ensures
            ({
                let g = group(self.entries@, kind);
                let start = old(out)@.len() as int;
                &&& g.len() == 0 ==> r is Ok && final(out)@ == old(out)@
                &&& g.len() > 0 && ptr is None ==> r == Err::<(), ExifError>(
                    ExifError::MissingExifOffset,
                )
                &&& g.len() > 0 && ptr is Some && !all_standard(g) ==> r == Err::<(), ExifError>(
                    ExifError::UnsupportedNamespace,
                )
                &&& g.len() > 0 && ptr is Some && all_standard(g) ==> r is Ok && final(out)@
                    == old(out)@.subrange(0, ptr->0 as int) + u32_bytes(self.le, off32(start))
                    + old(out)@.subrange(ptr->0 + 4, start) + dir_block(
                    g,
                    self.le,
                    dir_fields(g, start, self.le),
                )
            }),
    {
        if self.count_kind(kind) == 0 {
            return Ok(());
        }
        match ptr {
            None => Err(ExifError::MissingExifOffset),
            Some(p) => {
                let start = out.len();
                let ghost before = out@;
                match self.emit_dir(out, kind) {
                    Ok(_) => {},
                    Err(err) => return Err(err),
                }
                let ghost mid = out@;
                let v = (start as u64 % 0x1_0000_0000) as u32;
                write_u32_at(out, p, self.le, v);
                proof {
                    let g = group(self.entries@, kind);
                    let bl = dir_block(g, self.le, dir_fields(g, start as int, self.le));
                    assert(mid.subrange(0, p as int) =~= before.subrange(0, p as int));
                    assert(mid.subrange(p + 4, mid.len() as int) =~= before.subrange(
                        p + 4,
                        start as int,
                    ) + bl);
                    assert(out@ =~= before.subrange(0, p as int) + u32_bytes(self.le, v)
                        + before.subrange(p + 4, start as int) + bl);
                }
                Ok(())
            },
        }
    }

    /// The TIFF block of the metadata.
    #[verifier::rlimit(100)]
    #[verifier::spinoff_prover]
    fn serialize_tiff(&self) -> (r: Result<Vec<u8>, ExifError>)
        ensures
            serialize_error(*self) is Some ==> r == Err::<Vec<u8>, ExifError>(
                serialize_error(*self)->0,
            ),
            serialize_error(*self) is None ==> r is Ok && r->Ok_0@ == serialized_tiff(*self),
    {
        let ghost e = self.entries@;
        let ghost g0 = group(e, IfdKind::Ifd0);
        let ghost gx = group(e, IfdKind::Exif);
        let ghost gg = group(e, IfdKind::Gps);
        let ghost kx = pointer_index(e, ExifTag::ExifOffset);
        let ghost kg = pointer_index(e, ExifTag::GPSOffset);
        let le = self.le;
        if self.count_kind(IfdKind::Ifd1) > 0 {
            proof {
                reveal(serialize_error);
            }
            return Err(ExifError::UnsupportedNamespace);
        }
        let mut out: Vec<u8> = Vec::new();
        if le {
            out.push(0x49);
            out.push(0x49);
            out.push(0x2a);
            out.push(0);
        } else {
            out.push(0x4d);
            out.push(0x4d);
            out.push(0);
            out.push(0x2a);
        }
        push_u32(&mut out, le, 8);
        let ghost hdr = out@;
        assert(hdr =~= tiff_header(le));
        let (pe, pg) = match self.emit_dir(&mut out, IfdKind::Ifd0) {
            Ok(p) => p,
            Err(err) => {
                proof {
                    reveal(serialize_error);
                }
                return Err(err);
            },
        };
        let ghost f0 = dir_fields(g0, 8, le);
        proof {
            lemma_dir_fields4(g0, 8, le);
            lemma_records_len(g0, f0);
            lemma_pointer_index(e, ExifTag::ExifOffset);
            lemma_pointer_index(e, ExifTag::GPSOffset);
        }
        let ghost px = 8 + dir_len(g0);
        let ghost head0 = hdr + u16_bytes(le, (g0.len() % 0x10000) as u16);
        let ghost tail0 = zeros4() + ext_payloads(g0);
        assert(out@ =~= head0 + records(g0, f0) + tail0);
        let ghost before_x = out@;
        match self.emit_sub(&mut out, IfdKind::Exif, pe) {
            Ok(()) => {},
            Err(err) => {
                proof {
                    reveal(serialize_error);
                }
                return Err(err);
            },
        }
        let ghost f1 = with_pointer(f0, kx, gx.len() > 0, le, px);
        let ghost bx = sub_block(gx, le, px);
        proof {
            lemma_pointer_written(before_x, out@, head0, g0, f0, tail0, kx, gx.len() > 0, le, px, bx);
            lemma_records_len(g0, f1);
            if gx.len() > 0 {
                lemma_dir_fields4(gx, px, le);
                lemma_records_len(gx, dir_fields(gx, px, le));
            }
        }
        let ghost pgs = px + bx.len();
        let ghost before_g = out@;
        assert(before_x.len() == px);
        assert(out@ == head0 + records(g0, f1) + tail0 + bx);
        assert(out@.len() == pgs);
        assert(before_g == head0 + records(g0, f1) + (tail0 + bx));
        match self.emit_sub(&mut out, IfdKind::Gps, pg) {
            Ok(()) => {},
            Err(err) => {
                proof {
                    reveal(serialize_error);
                }
                return Err(err);
            },
        }
        proof {
            let f2 = with_pointer(f1, kg, gg.len() > 0, le, pgs);
            let bg = sub_block(gg, le, pgs);
            lemma_pointer_written(
                before_g,
                out@,
                head0,
                g0,
                f1,
                tail0 + bx,
                kg,
                gg.len() > 0,
                le,
                pgs,
                bg,
            );
            assert(out@ == head0 + records(g0, f2) + (tail0 + bx) + bg);
            assert(out@ == serialized_tiff(*self)) by {
                reveal(serialized_tiff);
                assert(out@ =~= hdr + dir_block(g0, le, f2) + bx + bg);
            }
            reveal(serialize_error);
        }
        Ok(out)
    }

    /// Serializes the metadata in the set's byte order: the TIFF header, the
    /// top-level directory, then the Exif and the GPS sub-directories, whose
    /// offsets are written into the top-level pointer entries. A JPEG set gets
    /// `Exif\0\0` in front. Thumbnail entries, and entries outside the standard
    /// namespace, are refused; a non-empty sub-directory without its top-level
    /// pointer entry fails with `MissingExifOffset`. Maker-note and
    /// interoperability entries are left out.
    pub fn serialize(&self) -> (r: Result<Vec<u8>, ExifError>)
        ensures
            serialize_error(*self) is Some ==> r == Err::<Vec<u8>, ExifError>(
                serialize_error(*self)->0,
            ),
            serialize_error(*self) is None ==> r is Ok && r->Ok_0@ == serialized(*self),
    {
        let out = match self.serialize_tiff() {
            Ok(v) => v,
            Err(err) => return Err(err),
        };
        if self.mime == FileType::JPEG {
            let mut v: Vec<u8> = Vec::new();
            v.push(0x45);
            v.push(0x78);
            v.push(0x69);
            v.push(0x66);
            v.push(0);
            v.push(0);
            assert(v@ =~= exif_tag());
            push_bytes(&mut v, out.as_slice());
            Ok(v)
        } else {
            Ok(out)
        }
    }
}


proof fn lemma_group_nonempty(s: Seq<ExifEntry>, i: int, kind: IfdKind)
    requires
        0 <= i < s.len(),
        s[i].kind == kind,
    ensures
        group(s, kind).len() > 0,
    decreases s.len(),
{
    if i < s.len() - 1 {
        lemma_group_nonempty(s.drop_last(), i, kind);
    }
}

proof fn lemma_group_without_id(s: Seq<ExifEntry>, kind: IfdKind, id: ExifTag)
    requires
        forall|j: int| 0 <= j < s.len() ==> !(#[trigger] s[j].kind == kind && s[j].tag == id),
    ensures
        last_with_id(group_tags(s, kind), id) is None,
    decreases s.len(),
{
    if s.len() > 0 {
        let d = s.drop_last();
        assert forall|j: int| 0 <= j < d.len() implies !(#[trigger] d[j].kind == kind && d[j].tag
            == id) by {
            assert(d[j] == s[j]);
        }
        lemma_group_without_id(d, kind, id);
        let t = group_tags(s, kind);
        if s.last().kind == kind {
            assert(t.drop_last() =~= group_tags(d, kind));
        } else {
            assert(t =~= group_tags(d, kind));
        }
    }
}

proof fn lemma_group_standard(s: Seq<ExifEntry>, kind: IfdKind)
    requires
        forall|j: int| 0 <= j < s.len() ==> (#[trigger] s[j]).ifd.namespace == Namespace::Standard,
    ensures
        all_standard(group(s, kind)),
    decreases s.len(),
{
    if s.len() > 0 {
        let d = s.drop_last();
        assert forall|j: int| 0 <= j < d.len() implies (#[trigger] d[j]).ifd.namespace
            == Namespace::Standard by {
            assert(d[j] == s[j]);
        }
        lemma_group_standard(d, kind);
        let g = group(s, kind);
        assert forall|k: int| 0 <= k < g.len() implies #[trigger] g[k].namespace
            == Namespace::Standard by {
            if k < group(d, kind).len() {
                assert(g[k] == group(d, kind)[k]);
            }
        }
    }
}

/// Serializing a set that holds a thumbnail entry fails.
pub proof fn lemma_thumbnail_refused(d: ExifData, i: int)
    requires
        0 <= i < d.entries@.len(),
        d.entries@[i].kind == IfdKind::Ifd1,
    ensures
        serialize_error(d) == Some(ExifError::UnsupportedNamespace),
{
    reveal(serialize_error);
    lemma_group_nonempty(d.entries@, i, IfdKind::Ifd1);
}

/// Serializing a set that holds a GPS entry but no top-level entry tagged
/// `GPSOffset` fails; with no thumbnail entry, and every entry in the standard
/// namespace, the error is the missing pointer.
pub proof fn lemma_gps_without_pointer_refused(d: ExifData, i: int)
    requires
        0 <= i < d.entries@.len(),
        d.entries@[i].kind == IfdKind::Gps,
        forall|j: int|
            0 <= j < d.entries@.len() ==> !(#[trigger] d.entries@[j].kind == IfdKind::Ifd0
                && d.entries@[j].tag == ExifTag::GPSOffset),
    ensures
        serialize_error(d) is Some,
        (forall|j: int|
            0 <= j < d.entries@.len() ==> (#[trigger] d.entries@[j]).kind != IfdKind::Ifd1
                && d.entries@[j].ifd.namespace == Namespace::Standard) ==> serialize_error(d) == Some(
            ExifError::MissingExifOffset,
        ),
{
    reveal(serialize_error);
    let s = d.entries@;
    lemma_group_nonempty(s, i, IfdKind::Gps);
    lemma_group_without_id(s, IfdKind::Ifd0, ExifTag::GPSOffset);
    if forall|j: int|
        0 <= j < s.len() ==> (#[trigger] s[j]).kind != IfdKind::Ifd1 && s[j].ifd.namespace
            == Namespace::Standard {
        assert forall|j: int| 0 <= j < s.len() implies (#[trigger] s[j]).ifd.namespace
            == Namespace::Standard by {}
        lemma_group_standard(s, IfdKind::Ifd0);
        lemma_group_standard(s, IfdKind::Exif);
        lemma_group_standard(s, IfdKind::Gps);
        lemma_group_no_kind(s, IfdKind::Ifd1);
    }
}

pub proof fn lemma_group_no_kind(s: Seq<ExifEntry>, kind: IfdKind)
    requires
        forall|j: int| 0 <= j < s.len() ==> (#[trigger] s[j]).kind != kind,
    ensures
        group(s, kind).len() == 0,
    decreases s.len(),
{
    if s.len() > 0 {
        let d = s.drop_last();
        assert forall|j: int| 0 <= j < d.len() implies (#[trigger] d[j]).kind != kind by {
            assert(d[j] == s[j]);
        }
        lemma_group_no_kind(d, kind);
    }
}

} // verus!
