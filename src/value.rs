//! Decoding an entry's payload into a typed value, by its format and count and
//! in the entry's byte order.
use crate::lowlevel::{
    i16_array, i32_array, i8_array, irational_array, read_i16_array, read_i32_array,
    read_i8_array, read_irational_array, read_u16_array, read_u32_array, read_u64_array,
    read_urational_array, u16_array, u32_array, u64_array, urational_array,
};
use crate::types::{IfdEntry, IfdFormat, TagValue};
use vstd::prelude::*;
use vstd::slice::slice_to_vec;
use vstd::utf8::{decode_utf8, valid_utf8};

verus! {

/// The text that `String::from_utf8_lossy` makes of some bytes.
pub uninterp spec fn utf8_lossy(b: Seq<u8>) -> Seq<char>;

/// Relies on `String::from_utf8_lossy`: its result depends on the bytes alone,
/// and bytes that are valid UTF-8 are decoded as they are.
#[verifier::external_body]
fn text_of(b: &[u8]) -> (r: String)
    ensures
        r@ == utf8_lossy(b@),
        valid_utf8(b@) ==> r@ == decode_utf8(b@),
{
    String::from_utf8_lossy(b).into_owned()
}

/// The position of the first zero byte of `d`, or its length.
pub open spec fn first_nul(d: Seq<u8>) -> int
    decreases d.len(),
{
    if d.len() == 0 {
        0
    } else if d[0] == 0 {
        0
    } else {
        1 + first_nul(d.subrange(1, d.len() as int))
    }
}

proof fn lemma_first_nul(d: Seq<u8>, i: int)
    requires
        0 <= i <= d.len(),
        forall|j: int| 0 <= j < i ==> d[j] != 0,
        i == d.len() || d[i] == 0,
    ensures
        first_nul(d) == i,
    decreases d.len(),
{
    if d.len() > 0 && i > 0 {
        let t = d.subrange(1, d.len() as int);
        assert forall|j: int| 0 <= j < i - 1 implies t[j] != 0 by {
            assert(t[j] == d[j + 1]);
        }
        lemma_first_nul(t, i - 1);
    }
}

/// The value that could not be decoded: the payload, byte order, format code
/// and count, kept as they are.
pub open spec fn invalid_value(e: IfdEntry, v: TagValue) -> bool {
    v matches TagValue::Invalid(b, l, f, c) && b@ == e.data@ && l == e.le && f
        == e.format.spec_code() && c == e.count
}

/// `v` is the value that the payload of `e` decodes to: `count` elements of
/// the entry's format, or `Invalid` when the payload is too short for them.
/// ASCII text ends at its first zero byte.
pub open spec fn decoded_value(e: IfdEntry, v: TagValue) -> bool {
    let d = e.data@;
    let le = e.le;
    let n = e.count as nat;
    match e.format {
        IfdFormat::U8 => if n <= d.len() {
            v matches TagValue::U8(x) && x@ == d.take(n as int)
        } else {
            invalid_value(e, v)
        },
        IfdFormat::Ascii => if n <= d.len() {
            v matches TagValue::Ascii(s) && s@ == utf8_lossy(
                d.take(first_nul(d.take(n as int))),
            )
        } else {
            invalid_value(e, v)
        },
        IfdFormat::U16 => if 2 * n <= d.len() {
            v matches TagValue::U16(x) && x@ == u16_array(le, n, d)
        } else {
            invalid_value(e, v)
        },
        IfdFormat::U32 => if 4 * n <= d.len() {
            v matches TagValue::U32(x) && x@ == u32_array(le, n, d)
        } else {
            invalid_value(e, v)
        },
        IfdFormat::URational => if 8 * n <= d.len() {
            v matches TagValue::URational(x) && x@ == urational_array(le, n, d)
        } else {
            invalid_value(e, v)
        },
        IfdFormat::I8 => if n <= d.len() {
            v matches TagValue::I8(x) && x@ == i8_array(n, d)
        } else {
            invalid_value(e, v)
        },
        IfdFormat::Undefined => if n <= d.len() {
            v matches TagValue::Undefined(x, l) && x@ == d.take(n as int) && l == le
        } else {
            invalid_value(e, v)
        },
        IfdFormat::I16 => if 2 * n <= d.len() {
            v matches TagValue::I16(x) && x@ == i16_array(le, n, d)
        } else {
            invalid_value(e, v)
        },
        IfdFormat::I32 => if 4 * n <= d.len() {
            v matches TagValue::I32(x) && x@ == i32_array(le, n, d)
        } else {
            invalid_value(e, v)
        },
        IfdFormat::IRational => if 8 * n <= d.len() {
            v matches TagValue::IRational(x) && x@ == irational_array(le, n, d)
        } else {
            invalid_value(e, v)
        },
        IfdFormat::F32 => if 4 * n <= d.len() {
            v matches TagValue::F32(x) && x@ == u32_array(le, n, d)
        } else {
            invalid_value(e, v)
        },
        IfdFormat::F64 => if 8 * n <= d.len() {
            v matches TagValue::F64(x) && x@ == u64_array(le, n, d)
        } else {
            invalid_value(e, v)
        },
        IfdFormat::Unknown => v matches TagValue::Unknown(x, l) && x@ == d && l == le,
    }
}

fn invalid_of(e: &IfdEntry) -> (v: TagValue)
    ensures
        invalid_value(*e, v),
{
    TagValue::Invalid(slice_to_vec(e.data.as_slice()), e.le, e.format.code(), e.count)
}

/// The text of an ASCII payload of `n` bytes: up to its first zero byte.
fn ascii_text(d: &[u8], n: usize) -> (r: String)
    requires
        n <= d@.len(),
    ensures
        r@ == utf8_lossy(d@.take(first_nul(d@.take(n as int)))),
{
    let ghost t = d@.take(n as int);
    let mut i: usize = 0;
    while i < n && d[i] != 0
        invariant
            i <= n,
            n <= d@.len(),
            t == d@.take(n as int),
            forall|j: int| 0 <= j < i ==> t[j] != 0,
        decreases n - i,
    {
        i += 1;
    }
    proof {
        lemma_first_nul(t, i as int);
        assert(d@.subrange(0, i as int) =~= d@.take(first_nul(t)));
    }
    text_of(&d[0..i])
}

/// Decodes the payload of an entry by its format and count, in the entry's
/// byte order; a payload too short for its count gives `Invalid`.
pub fn tag_value_new(e: &IfdEntry) -> (v: TagValue)
    ensures
        decoded_value(*e, v),
{
    let d = e.data.as_slice();
    let le = e.le;
    let n = e.count;
    match e.format {
        IfdFormat::U8 => {
            if (d.len() as u64) < n as u64 {
                return invalid_of(e);
            }
            TagValue::U8(slice_to_vec(&d[0..n as usize]))
        },
        IfdFormat::Ascii => {
            if (d.len() as u64) < n as u64 {
                return invalid_of(e);
            }
            TagValue::Ascii(ascii_text(d, n as usize))
        },
        IfdFormat::U16 => match read_u16_array(le, n, d) {
            Some(x) => TagValue::U16(x),
            None => invalid_of(e),
        },
        IfdFormat::U32 => match read_u32_array(le, n, d) {
            Some(x) => TagValue::U32(x),
            None => invalid_of(e),
        },
        IfdFormat::URational => match read_urational_array(le, n, d) {
            Some(x) => TagValue::URational(x),
            None => invalid_of(e),
        },
        IfdFormat::I8 => match read_i8_array(n, d) {
            Some(x) => TagValue::I8(x),
            None => invalid_of(e),
        },
        IfdFormat::Undefined => {
            if (d.len() as u64) < n as u64 {
                return invalid_of(e);
            }
            TagValue::Undefined(slice_to_vec(&d[0..n as usize]), le)
        },
        IfdFormat::I16 => match read_i16_array(le, n, d) {
            Some(x) => TagValue::I16(x),
            None => invalid_of(e),
        },
        IfdFormat::I32 => match read_i32_array(le, n, d) {
            Some(x) => TagValue::I32(x),
            None => invalid_of(e),
        },
        IfdFormat::IRational => match read_irational_array(le, n, d) {
            Some(x) => TagValue::IRational(x),
            None => invalid_of(e),
        },
        IfdFormat::F32 => match read_u32_array(le, n, d) {
            Some(x) => TagValue::F32(x),
            None => invalid_of(e),
        },
        IfdFormat::F64 => match read_u64_array(le, n, d) {
            Some(x) => TagValue::F64(x),
            None => invalid_of(e),
        },
        IfdFormat::Unknown => TagValue::Unknown(slice_to_vec(d), le),
    }
}

} // verus!
