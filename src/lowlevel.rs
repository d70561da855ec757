//! Fixed-width integers and rational pairs read from, and written to, bytes in
//! either byte order.
use crate::rational::{IRational, URational};
use vstd::prelude::*;

verus! {

/// The unsigned 16-bit value of the first two bytes of `b`.
pub open spec fn u16_of(le: bool, b: Seq<u8>) -> u16
    recommends
        b.len() >= 2,
{
    if le {
        (b[0] as int + 256 * b[1] as int) as u16
    } else {
        (b[1] as int + 256 * b[0] as int) as u16
    }
}

/// The unsigned 32-bit value of the first four bytes of `b`.
pub open spec fn u32_of(le: bool, b: Seq<u8>) -> u32
    recommends
        b.len() >= 4,
{
    if le {
        (b[0] as int + 256 * b[1] as int + 65536 * b[2] as int + 16777216 * b[3] as int) as u32
    } else {
        (b[3] as int + 256 * b[2] as int + 65536 * b[1] as int + 16777216 * b[0] as int) as u32
    }
}

/// The two's complement reading of a 16-bit pattern.
pub open spec fn i16_from_bits(u: u16) -> i16 {
    if u < 0x8000 {
        u as i16
    } else {
        (u - 0x10000) as i16
    }
}

/// The two's complement reading of a 32-bit pattern.
pub open spec fn i32_from_bits(u: u32) -> i32 {
    if u < 0x8000_0000 {
        u as i32
    } else {
        (u - 0x1_0000_0000) as i32
    }
}

/// The two bytes that encode `v`.
pub open spec fn u16_bytes(le: bool, v: u16) -> Seq<u8> {
    let lo = (v % 256) as u8;
    let hi = (v / 256) as u8;
    if le {
        seq![lo, hi]
    } else {
        seq![hi, lo]
    }
}

/// The four bytes that encode `v`.
pub open spec fn u32_bytes(le: bool, v: u32) -> Seq<u8> {
    let b0 = (v % 256) as u8;
    let b1 = ((v / 256) % 256) as u8;
    let b2 = ((v / 65536) % 256) as u8;
    let b3 = (v / 16777216) as u8;
    if le {
        seq![b0, b1, b2, b3]
    } else {
        seq![b3, b2, b1, b0]
    }
}

/// Reads an unsigned 16-bit value from the front of `raw`; `None` when fewer
/// than two bytes are there.
pub fn read_u16(le: bool, raw: &[u8]) -> (r: Option<u16>)
    ensures
        r == (if raw@.len() >= 2 { Some(u16_of(le, raw@)) } else { None::<u16> }),
{
    if raw.len() < 2 {
        return None;
    }
    let b0 = raw[0] as u16;
    let b1 = raw[1] as u16;
    if le {
        Some(b0 + 256 * b1)
    } else {
        Some(b1 + 256 * b0)
    }
}

/// Reads a signed 16-bit value from the front of `raw`.
pub fn read_i16(le: bool, raw: &[u8]) -> (r: Option<i16>)
    ensures
        r == (if raw@.len() >= 2 { Some(i16_from_bits(u16_of(le, raw@))) } else { None::<i16> }),
{
    match read_u16(le, raw) {
        Some(u) => {
            if u < 0x8000 {
                Some(u as i16)
            } else {
                Some((u as i32 - 0x10000) as i16)
            }
        },
        None => None,
    }
}

/// Reads an unsigned 32-bit value from the front of `raw`.
pub fn read_u32(le: bool, raw: &[u8]) -> (r: Option<u32>)
    ensures
        r == (if raw@.len() >= 4 { Some(u32_of(le, raw@)) } else { None::<u32> }),
{
    if raw.len() < 4 {
        return None;
    }
    let b0 = raw[0] as u32;
    let b1 = raw[1] as u32;
    let b2 = raw[2] as u32;
    let b3 = raw[3] as u32;
    if le {
        Some(b0 + 256 * b1 + 65536 * b2 + 16777216 * b3)
    } else {
        Some(b3 + 256 * b2 + 65536 * b1 + 16777216 * b0)
    }
}

/// Reads a signed 32-bit value from the front of `raw`.
pub fn read_i32(le: bool, raw: &[u8]) -> (r: Option<i32>)
    ensures
        r == (if raw@.len() >= 4 { Some(i32_from_bits(u32_of(le, raw@))) } else { None::<i32> }),
{
    match read_u32(le, raw) {
        Some(u) => {
            if u < 0x8000_0000 {
                Some(u as i32)
            } else {
                Some((u as i64 - 0x1_0000_0000) as i32)
            }
        },
        None => None,
    }
}


/// The unsigned 64-bit value of the first eight bytes of `b`.
pub open spec fn u64_of(le: bool, b: Seq<u8>) -> u64
    recommends
        b.len() >= 8,
{
    let lo = u32_of(le, b) as int;
    let hi = u32_of(le, b.subrange(4, 8)) as int;
    if le {
        (lo + 0x1_0000_0000 * hi) as u64
    } else {
        (hi + 0x1_0000_0000 * lo) as u64
    }
}

/// The unsigned rational held in the first eight bytes of `b`.
pub open spec fn urational_of(le: bool, b: Seq<u8>) -> URational
    recommends
        b.len() >= 8,
{
    URational { numerator: u32_of(le, b), denominator: u32_of(le, b.subrange(4, 8)) }
}

/// The signed rational held in the first eight bytes of `b`.
pub open spec fn irational_of(le: bool, b: Seq<u8>) -> IRational
    recommends
        b.len() >= 8,
{
    IRational {
        numerator: i32_from_bits(u32_of(le, b)),
        denominator: i32_from_bits(u32_of(le, b.subrange(4, 8))),
    }
}

/// Reads an unsigned 64-bit value from the front of `raw`.
pub fn read_u64(le: bool, raw: &[u8]) -> (r: Option<u64>)
    ensures
        r == (if raw@.len() >= 8 { Some(u64_of(le, raw@)) } else { None::<u64> }),
{
    if raw.len() < 8 {
        return None;
    }
    let first = read_u32(le, raw);
    let second = read_u32(le, &raw[4..8]);
    match (first, second) {
        (Some(a), Some(b)) => {
            if le {
                Some(a as u64 + 0x1_0000_0000 * b as u64)
            } else {
                Some(b as u64 + 0x1_0000_0000 * a as u64)
            }
        },
        _ => None,
    }
}

/// Reads an unsigned rational (numerator, then denominator) from the front of
/// `raw`.
pub fn read_urational(le: bool, raw: &[u8]) -> (r: Option<URational>)
    ensures
        r == (if raw@.len() >= 8 { Some(urational_of(le, raw@)) } else { None::<URational> }),
{
    if raw.len() < 8 {
        return None;
    }
    let n = read_u32(le, raw);
    let d = read_u32(le, &raw[4..8]);
    match (n, d) {
        (Some(n), Some(d)) => Some(URational { numerator: n, denominator: d }),
        _ => None,
    }
}

/// Reads a signed rational (numerator, then denominator) from the front of
/// `raw`.
pub fn read_irational(le: bool, raw: &[u8]) -> (r: Option<IRational>)
    ensures
        r == (if raw@.len() >= 8 { Some(irational_of(le, raw@)) } else { None::<IRational> }),
{
    if raw.len() < 8 {
        return None;
    }
    let n = read_i32(le, raw);
    let d = read_i32(le, &raw[4..8]);
    match (n, d) {
        (Some(n), Some(d)) => Some(IRational { numerator: n, denominator: d }),
        _ => None,
    }
}

/// The bytes of `b` read as signed bytes, `count` of them.
pub open spec fn i8_array(count: nat, b: Seq<u8>) -> Seq<i8> {
    Seq::new(count, |i: int| i8_from_bits(b[i]))
}

/// The two's complement reading of an 8-bit pattern.
pub open spec fn i8_from_bits(u: u8) -> i8 {
    if u < 0x80 {
        u as i8
    } else {
        (u - 0x100) as i8
    }
}

/// Reads `count` signed bytes from the front of `raw`, or nothing when fewer
/// bytes are there.
pub fn read_i8_array(count: u32, raw: &[u8]) -> (r: Option<Vec<i8>>)
    ensures
        r is Some <==> count <= raw@.len(),
        r matches Some(v) ==> v@ == i8_array(count as nat, raw@),
{
    if (raw.len() as u64) < count as u64 {
        return None;
    }
    let n = count as usize;
    let mut out: Vec<i8> = Vec::new();
    let mut i: usize = 0;
    while i < n
        invariant
            i <= n,
            n == count,
            n <= raw@.len(),
            out@ == i8_array(i as nat, raw@),
        decreases n - i,
    {
        let u = raw[i];
        let s: i8 = if u < 0x80 { u as i8 } else { (u as i16 - 0x100) as i8 };
        out.push(s);
        i += 1;
        assert(out@ =~= i8_array(i as nat, raw@));
    }
    Some(out)
}

/// `count` values of 2 bytes each, read one after another from `b`.
pub open spec fn u16_array(le: bool, count: nat, b: Seq<u8>) -> Seq<u16> {
    Seq::new(count, |i: int| u16_of(le, b.subrange(2 * i, 2 * i + 2)))
}

/// Reads `count` values of 2 bytes each from the front of `raw`; nothing
/// when the bytes do not suffice.
pub fn read_u16_array(le: bool, count: u32, raw: &[u8]) -> (r: Option<Vec<u16>>)
    ensures
        r is Some <==> 2 * count <= raw@.len(),
        r matches Some(v) ==> v@ == u16_array(le, count as nat, raw@),
{
    if (raw.len() / 2) < count as usize {
        return None;
    }
    let n = count as usize;
    assert(2 * n <= raw@.len()) by (nonlinear_arith)
        requires
            n <= raw@.len() / 2,
    ;
    let mut out: Vec<u16> = Vec::new();
    let mut i: usize = 0;
    while i < n
        invariant
            i <= n,
            n == count,
            2 * n <= raw.len(),
            out@ == u16_array(le, i as nat, raw@),
        decreases n - i,
    {
        assert(2 * i + 2 <= 2 * n) by (nonlinear_arith)
            requires
                i < n,
        ;
        let chunk = &raw[2 * i..2 * i + 2];
        match read_u16(le, chunk) {
            Some(x) => out.push(x),
            None => {},
        }
        i += 1;
        assert(out@ =~= u16_array(le, i as nat, raw@));
    }
    Some(out)
}

/// `count` values of 2 bytes each, read one after another from `b`.
pub open spec fn i16_array(le: bool, count: nat, b: Seq<u8>) -> Seq<i16> {
    Seq::new(count, |i: int| i16_from_bits(u16_of(le, b.subrange(2 * i, 2 * i + 2))))
}

/// Reads `count` values of 2 bytes each from the front of `raw`; nothing
/// when the bytes do not suffice.
pub fn read_i16_array(le: bool, count: u32, raw: &[u8]) -> (r: Option<Vec<i16>>)
    ensures
        r is Some <==> 2 * count <= raw@.len(),
        r matches Some(v) ==> v@ == i16_array(le, count as nat, raw@),
{
    if (raw.len() / 2) < count as usize {
        return None;
    }
    let n = count as usize;
    assert(2 * n <= raw@.len()) by (nonlinear_arith)
        requires
            n <= raw@.len() / 2,
    ;
    let mut out: Vec<i16> = Vec::new();
    let mut i: usize = 0;
    while i < n
        invariant
            i <= n,
            n == count,
            2 * n <= raw.len(),
            out@ == i16_array(le, i as nat, raw@),
        decreases n - i,
    {
        assert(2 * i + 2 <= 2 * n) by (nonlinear_arith)
            requires
                i < n,
        ;
        let chunk = &raw[2 * i..2 * i + 2];
        match read_i16(le, chunk) {
            Some(x) => out.push(x),
            None => {},
        }
        i += 1;
        assert(out@ =~= i16_array(le, i as nat, raw@));
    }
    Some(out)
}

/// `count` values of 4 bytes each, read one after another from `b`.
pub open spec fn u32_array(le: bool, count: nat, b: Seq<u8>) -> Seq<u32> {
    Seq::new(count, |i: int| u32_of(le, b.subrange(4 * i, 4 * i + 4)))
}

/// Reads `count` values of 4 bytes each from the front of `raw`; nothing
/// when the bytes do not suffice.
pub fn read_u32_array(le: bool, count: u32, raw: &[u8]) -> (r: Option<Vec<u32>>)
    ensures
        r is Some <==> 4 * count <= raw@.len(),
        r matches Some(v) ==> v@ == u32_array(le, count as nat, raw@),
{
    if (raw.len() / 4) < count as usize {
        return None;
    }
    let n = count as usize;
    assert(4 * n <= raw@.len()) by (nonlinear_arith)
        requires
            n <= raw@.len() / 4,
    ;
    let mut out: Vec<u32> = Vec::new();
    let mut i: usize = 0;
    while i < n
        invariant
            i <= n,
            n == count,
            4 * n <= raw.len(),
            out@ == u32_array(le, i as nat, raw@),
        decreases n - i,
    {
        assert(4 * i + 4 <= 4 * n) by (nonlinear_arith)
            requires
                i < n,
        ;
        let chunk = &raw[4 * i..4 * i + 4];
        match read_u32(le, chunk) {
            Some(x) => out.push(x),
            None => {},
        }
        i += 1;
        assert(out@ =~= u32_array(le, i as nat, raw@));
    }
    Some(out)
}

/// `count` values of 4 bytes each, read one after another from `b`.
pub open spec fn i32_array(le: bool, count: nat, b: Seq<u8>) -> Seq<i32> {
    Seq::new(count, |i: int| i32_from_bits(u32_of(le, b.subrange(4 * i, 4 * i + 4))))
}

/// Reads `count` values of 4 bytes each from the front of `raw`; nothing
/// when the bytes do not suffice.
pub fn read_i32_array(le: bool, count: u32, raw: &[u8]) -> (r: Option<Vec<i32>>)
    ensures
        r is Some <==> 4 * count <= raw@.len(),
        r matches Some(v) ==> v@ == i32_array(le, count as nat, raw@),
{
    if (raw.len() / 4) < count as usize {
        return None;
    }
    let n = count as usize;
    assert(4 * n <= raw@.len()) by (nonlinear_arith)
        requires
            n <= raw@.len() / 4,
    ;
    let mut out: Vec<i32> = Vec::new();
    let mut i: usize = 0;
    while i < n
        invariant
            i <= n,
            n == count,
            4 * n <= raw.len(),
            out@ == i32_array(le, i as nat, raw@),
        decreases n - i,
    {
        assert(4 * i + 4 <= 4 * n) by (nonlinear_arith)
            requires
                i < n,
        ;
        let chunk = &raw[4 * i..4 * i + 4];
        match read_i32(le, chunk) {
            Some(x) => out.push(x),
            None => {},
        }
        i += 1;
        assert(out@ =~= i32_array(le, i as nat, raw@));
    }
    Some(out)
}

/// `count` values of 8 bytes each, read one after another from `b`.
pub open spec fn u64_array(le: bool, count: nat, b: Seq<u8>) -> Seq<u64> {
    Seq::new(count, |i: int| u64_of(le, b.subrange(8 * i, 8 * i + 8)))
}

/// Reads `count` values of 8 bytes each from the front of `raw`; nothing
/// when the bytes do not suffice.
pub fn read_u64_array(le: bool, count: u32, raw: &[u8]) -> (r: Option<Vec<u64>>)
    ensures
        r is Some <==> 8 * count <= raw@.len(),
        r matches Some(v) ==> v@ == u64_array(le, count as nat, raw@),
{
    if (raw.len() / 8) < count as usize {
        return None;
    }
    let n = count as usize;
    assert(8 * n <= raw@.len()) by (nonlinear_arith)
        requires
            n <= raw@.len() / 8,
    ;
    let mut out: Vec<u64> = Vec::new();
    let mut i: usize = 0;
    while i < n
        invariant
            i <= n,
            n == count,
            8 * n <= raw.len(),
            out@ == u64_array(le, i as nat, raw@),
        decreases n - i,
    {
        assert(8 * i + 8 <= 8 * n) by (nonlinear_arith)
            requires
                i < n,
        ;
        let chunk = &raw[8 * i..8 * i + 8];
        match read_u64(le, chunk) {
            Some(x) => out.push(x),
            None => {},
        }
        i += 1;
        assert(out@ =~= u64_array(le, i as nat, raw@));
    }
    Some(out)
}

/// `count` values of 8 bytes each, read one after another from `b`.
pub open spec fn urational_array(le: bool, count: nat, b: Seq<u8>) -> Seq<URational> {
    Seq::new(count, |i: int| urational_of(le, b.subrange(8 * i, 8 * i + 8)))
}

/// Reads `count` values of 8 bytes each from the front of `raw`; nothing
/// when the bytes do not suffice.
pub fn read_urational_array(le: bool, count: u32, raw: &[u8]) -> (r: Option<Vec<URational>>)
    ensures
        r is Some <==> 8 * count <= raw@.len(),
        r matches Some(v) ==> v@ == urational_array(le, count as nat, raw@),
{
    if (raw.len() / 8) < count as usize {
        return None;
    }
    let n = count as usize;
    assert(8 * n <= raw@.len()) by (nonlinear_arith)
        requires
            n <= raw@.len() / 8,
    ;
    let mut out: Vec<URational> = Vec::new();
    let mut i: usize = 0;
    while i < n
        invariant
            i <= n,
            n == count,
            8 * n <= raw.len(),
            out@ == urational_array(le, i as nat, raw@),
        decreases n - i,
    {
        assert(8 * i + 8 <= 8 * n) by (nonlinear_arith)
            requires
                i < n,
        ;
        let chunk = &raw[8 * i..8 * i + 8];
        match read_urational(le, chunk) {
            Some(x) => out.push(x),
            None => {},
        }
        i += 1;
        assert(out@ =~= urational_array(le, i as nat, raw@));
    }
    Some(out)
}

/// `count` values of 8 bytes each, read one after another from `b`.
pub open spec fn irational_array(le: bool, count: nat, b: Seq<u8>) -> Seq<IRational> {
    Seq::new(count, |i: int| irational_of(le, b.subrange(8 * i, 8 * i + 8)))
}

/// Reads `count` values of 8 bytes each from the front of `raw`; nothing
/// when the bytes do not suffice.
pub fn read_irational_array(le: bool, count: u32, raw: &[u8]) -> (r: Option<Vec<IRational>>)
    ensures
        r is Some <==> 8 * count <= raw@.len(),
        r matches Some(v) ==> v@ == irational_array(le, count as nat, raw@),
{
    if (raw.len() / 8) < count as usize {
        return None;
    }
    let n = count as usize;
    assert(8 * n <= raw@.len()) by (nonlinear_arith)
        requires
            n <= raw@.len() / 8,
    ;
    let mut out: Vec<IRational> = Vec::new();
    let mut i: usize = 0;
    while i < n
        invariant
            i <= n,
            n == count,
            8 * n <= raw.len(),
            out@ == irational_array(le, i as nat, raw@),
        decreases n - i,
    {
        assert(8 * i + 8 <= 8 * n) by (nonlinear_arith)
            requires
                i < n,
        ;
        let chunk = &raw[8 * i..8 * i + 8];
        match read_irational(le, chunk) {
            Some(x) => out.push(x),
            None => {},
        }
        i += 1;
        assert(out@ =~= irational_array(le, i as nat, raw@));
    }
    Some(out)
}


/// Appends the two bytes that encode `v`.
pub fn push_u16(out: &mut Vec<u8>, le: bool, v: u16)
    ensures
        final(out)@ == old(out)@ + u16_bytes(le, v),
{
    let lo = (v % 256) as u8;
    let hi = (v / 256) as u8;
    if le {
        out.push(lo);
        out.push(hi);
    } else {
        out.push(hi);
        out.push(lo);
    }
    assert(final(out)@ =~= old(out)@ + u16_bytes(le, v));
}

/// Appends the four bytes that encode `v`.
pub fn push_u32(out: &mut Vec<u8>, le: bool, v: u32)
    ensures
        final(out)@ == old(out)@ + u32_bytes(le, v),
{
    let b0 = (v % 256) as u8;
    let b1 = ((v / 256) % 256) as u8;
    let b2 = ((v / 65536) % 256) as u8;
    let b3 = (v / 16777216) as u8;
    if le {
        out.push(b0);
        out.push(b1);
        out.push(b2);
        out.push(b3);
    } else {
        out.push(b3);
        out.push(b2);
        out.push(b1);
        out.push(b0);
    }
    assert(final(out)@ =~= old(out)@ + u32_bytes(le, v));
}

/// Appends the bytes of `b`.
pub fn push_bytes(out: &mut Vec<u8>, b: &[u8])
    ensures
        final(out)@ == old(out)@ + b@,
{
    let ghost start = out@;
    let mut i: usize = 0;
    while i < b.len()
        invariant
            i <= b@.len(),
            out@ == start + b@.subrange(0, i as int),
        decreases b.len() - i,
    {
        out.push(b[i]);
        i += 1;
        assert(out@ =~= start + b@.subrange(0, i as int));
    }
    assert(b@.subrange(0, i as int) =~= b@);
}

/// Overwrites the four bytes at `pos` with the encoding of `v`.
pub fn write_u32_at(out: &mut Vec<u8>, pos: usize, le: bool, v: u32)
    requires
        pos + 4 <= old(out)@.len(),
    ensures
        final(out)@ == old(out)@.subrange(0, pos as int) + u32_bytes(le, v) + old(out)@.subrange(
            pos + 4,
            old(out)@.len() as int,
        ),
{
    let b0 = (v % 256) as u8;
    let b1 = ((v / 256) % 256) as u8;
    let b2 = ((v / 65536) % 256) as u8;
    let b3 = (v / 16777216) as u8;
    let len = out.len();
    assert(pos + 4 <= len);
    if le {
        out.set(pos, b0);
        out.set(pos + 1, b1);
        out.set(pos + 2, b2);
        out.set(pos + 3, b3);
    } else {
        out.set(pos, b3);
        out.set(pos + 1, b2);
        out.set(pos + 2, b1);
        out.set(pos + 3, b0);
    }
    assert(final(out)@ =~= old(out)@.subrange(0, pos as int) + u32_bytes(le, v) + old(
        out,
    )@.subrange(pos + 4, old(out)@.len() as int));
}

} // verus!
