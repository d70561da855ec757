//! Format codes, element sizes and payload resolution of directory entries.
use crate::lowlevel::{read_u32, u32_of};
use crate::types::{IfdEntry, IfdFormat};
use vstd::prelude::*;
use vstd::slice::slice_to_vec;

verus! {

/// The format that a TIFF format code names; `Unknown` for codes outside
/// 1 to 12.
pub open spec fn format_of(code: u16) -> IfdFormat {
    if code == 1 {
        IfdFormat::U8
    } else if code == 2 {
        IfdFormat::Ascii
    } else if code == 3 {
        IfdFormat::U16
    } else if code == 4 {
        IfdFormat::U32
    } else if code == 5 {
        IfdFormat::URational
    } else if code == 6 {
        IfdFormat::I8
    } else if code == 7 {
        IfdFormat::Undefined
    } else if code == 8 {
        IfdFormat::I16
    } else if code == 9 {
        IfdFormat::I32
    } else if code == 10 {
        IfdFormat::IRational
    } else if code == 11 {
        IfdFormat::F32
    } else if code == 12 {
        IfdFormat::F64
    } else {
        IfdFormat::Unknown
    }
}

/// The byte width of one element of a format.
pub open spec fn format_size(f: IfdFormat) -> nat {
    match f {
        IfdFormat::U16 | IfdFormat::I16 => 2,
        IfdFormat::U32 | IfdFormat::I32 | IfdFormat::F32 => 4,
        IfdFormat::URational | IfdFormat::IRational | IfdFormat::F64 => 8,
        _ => 1,
    }
}

/// Converts a format code; deprecated name of `IfdFormat::new`.
pub fn ifdformat_new(n: u16) -> (r: IfdFormat)
    ensures
        r == format_of(n),
{
    IfdFormat::new(n)
}

impl IfdFormat {
    /// The TIFF code of the format; 0 for `Unknown`.
    pub open spec fn spec_code(self) -> u16 {
        match self {
            IfdFormat::Unknown => 0,
            IfdFormat::U8 => 1,
            IfdFormat::Ascii => 2,
            IfdFormat::U16 => 3,
            IfdFormat::U32 => 4,
            IfdFormat::URational => 5,
            IfdFormat::I8 => 6,
            IfdFormat::Undefined => 7,
            IfdFormat::I16 => 8,
            IfdFormat::I32 => 9,
            IfdFormat::IRational => 10,
            IfdFormat::F32 => 11,
            IfdFormat::F64 => 12,
        }
    }

    /// Converts a TIFF format code into the enumeration.
    pub fn new(code: u16) -> (r: Self)
        ensures
            r == format_of(code),
    {
        match code {
            1 => IfdFormat::U8,
            2 => IfdFormat::Ascii,
            3 => IfdFormat::U16,
            4 => IfdFormat::U32,
            5 => IfdFormat::URational,
            6 => IfdFormat::I8,
            7 => IfdFormat::Undefined,
            8 => IfdFormat::I16,
            9 => IfdFormat::I32,
            10 => IfdFormat::IRational,
            11 => IfdFormat::F32,
            12 => IfdFormat::F64,
            _ => IfdFormat::Unknown,
        }
    }

    /// The TIFF code of the format.
    pub fn code(&self) -> (r: u16)
        ensures
            r == self.spec_code(),
    {
        match self {
            IfdFormat::Unknown => 0,
            IfdFormat::U8 => 1,
            IfdFormat::Ascii => 2,
            IfdFormat::U16 => 3,
            IfdFormat::U32 => 4,
            IfdFormat::URational => 5,
            IfdFormat::I8 => 6,
            IfdFormat::Undefined => 7,
            IfdFormat::I16 => 8,
            IfdFormat::I32 => 9,
            IfdFormat::IRational => 10,
            IfdFormat::F32 => 11,
            IfdFormat::F64 => 12,
        }
    }
}

/// Decoding a format's code gives the format back.
pub proof fn lemma_format_code_round_trip(f: IfdFormat)
    ensures
        format_of(f.spec_code()) == f,
{
}

impl IfdEntry {
    /// The payload length in bytes: element size times count.
    pub open spec fn spec_length(&self) -> nat {
        format_size(self.format) * (self.count as nat)
    }

    /// Whether the payload fits in the record's 4-byte value field.
    pub open spec fn spec_in_ifd(&self) -> bool {
        self.spec_length() <= 4
    }

    /// The payload that the record designates within `contents`: the leading
    /// bytes of the value field when it fits there, else the bytes at the
    /// offset that the value field holds. `None` when these are not there.
    pub open spec fn resolved_payload(&self, contents: Seq<u8>) -> Option<Seq<u8>> {
        let len = self.spec_length() as int;
        if len <= 4 {
            if len <= self.ifd_data@.len() {
                Some(self.ifd_data@.subrange(0, len))
            } else {
                None
            }
        } else if self.ifd_data@.len() < 4 {
            None
        } else {
            let off = u32_of(self.le, self.ifd_data@) as int;
            if off + len <= contents.len() {
                Some(contents.subrange(off, off + len))
            } else {
                None
            }
        }
    }

    /// The value field read as an offset; panics when it has fewer than four
    /// bytes.
    pub fn data_as_offset(&self) -> (r: usize)
        requires
            self.ifd_data@.len() >= 4,
        ensures
            r == u32_of(self.le, self.ifd_data@),
    {
        match self.try_data_as_offset() {
            Some(o) => o,
            None => 0,
        }
    }

    /// The value field read as an offset, in the entry's byte order.
    pub fn try_data_as_offset(&self) -> (r: Option<usize>)
        ensures
            r == (if self.ifd_data@.len() >= 4 {
                Some(u32_of(self.le, self.ifd_data@) as usize)
            } else {
                None::<usize>
            }),
    {
        match read_u32(self.le, self.ifd_data.as_slice()) {
            Some(l) => Some(l as usize),
            None => None,
        }
    }

    /// The size of one element (not of the whole payload).
    pub fn size(&self) -> (r: u8)
        ensures
            r == format_size(self.format),
    {
        match self.format {
            IfdFormat::U8 => 1,
            IfdFormat::Ascii => 1,
            IfdFormat::U16 => 2,
            IfdFormat::U32 => 4,
            IfdFormat::URational => 8,
            IfdFormat::I8 => 1,
            IfdFormat::Undefined => 1,
            IfdFormat::I16 => 2,
            IfdFormat::I32 => 4,
            IfdFormat::IRational => 8,
            IfdFormat::F32 => 4,
            IfdFormat::F64 => 8,
            IfdFormat::Unknown => 1,
        }
    }

    /// The payload length: element size times count.
    pub fn length(&self) -> (r: u64)
        ensures
            r == self.spec_length(),
    {
        assert(format_size(self.format) * self.count <= 8 * 0xffff_ffff) by (nonlinear_arith)
            requires
                format_size(self.format) <= 8,
        ;
        (self.size() as u64) * (self.count as u64)
    }

    /// Whether the payload is held in the record itself (at most 4 bytes)
    /// rather than elsewhere in the file.
    pub fn in_ifd(&self) -> (r: bool)
        ensures
            r == self.spec_in_ifd(),
    {
        self.length() <= 4
    }

    /// Resolves the payload into `data`: from the value field when it fits
    /// there, else from `contents` at the offset that the value field holds
    /// (also kept in `ext_data`). Returns false, changing nothing, when the
    /// payload is not there.
    pub fn copy_data(&mut self, contents: &[u8]) -> (r: bool)
        ensures
            r == old(self).resolved_payload(contents@) is Some,
            r ==> final(self).data@ == old(self).resolved_payload(contents@)->0,
            r && !old(self).spec_in_ifd() ==> final(self).ext_data@ == final(self).data@,
            r && old(self).spec_in_ifd() ==> final(self).ext_data == old(self).ext_data,
            !r ==> final(self).data == old(self).data && final(self).ext_data == old(
                self,
            ).ext_data,
            final(self).namespace == old(self).namespace,
            final(self).tag == old(self).tag,
            final(self).format == old(self).format,
            final(self).count == old(self).count,
            final(self).ifd_data == old(self).ifd_data,
            final(self).le == old(self).le,
    {
        let len64 = self.length();
        if len64 <= 4 {
            let len = len64 as usize;
            if len > self.ifd_data.len() {
                return false;
            }
            self.data = slice_to_vec(&self.ifd_data.as_slice()[0..len]);
            return true;
        }
        let offset = match self.try_data_as_offset() {
            Some(o) => o,
            None => return false,
        };
        if offset > contents.len() || ((contents.len() - offset) as u64) < len64 {
            return false;
        }
        let len = len64 as usize;
        self.ext_data = slice_to_vec(&contents[offset..offset + len]);
        self.data = slice_to_vec(&contents[offset..offset + len]);
        true
    }
}

} // verus!
