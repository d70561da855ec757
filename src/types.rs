//! The data model: directory entries, their formats and values, decoded
//! metadata entries and the set that holds them.
use crate::image::FileType;
use crate::rational::{IRational, URational};
use vstd::prelude::*;
use vstd::slice::slice_to_vec;
use vstd::string::StringExecFns;

verus! {

/// Fatal errors of parsing and serializing.
#[derive(Clone, Debug, PartialEq, Eq)]
pub enum ExifError {
    FileTypeUnknown,
    JpegWithoutExif(String),
    TiffTruncated,
    TiffBadPreamble(String),
    IfdTruncated,
    ExifIfdTruncated(String),
    ExifIfdEntryNotFound,
    UnsupportedNamespace,
    MissingExifOffset,
}

/// The text that describes an error.
pub open spec fn error_text(e: ExifError) -> Seq<char> {
    match e {
        ExifError::FileTypeUnknown => "File type unknown"@,
        ExifError::JpegWithoutExif(s) => "JPEG without EXIF section: "@ + s@,
        ExifError::TiffTruncated => "TIFF truncated at start"@,
        ExifError::TiffBadPreamble(s) => "TIFF with bad preamble: "@ + s@,
        ExifError::IfdTruncated => "TIFF IFD truncated"@,
        ExifError::ExifIfdTruncated(s) => "TIFF Exif IFD truncated: "@ + s@,
        ExifError::ExifIfdEntryNotFound => "TIFF Exif IFD not found"@,
        ExifError::UnsupportedNamespace => "Only standard namespace can be serialized"@,
        ExifError::MissingExifOffset => "Expected to have seen ExifOffset tag in IFD0"@,
    }
}

impl ExifError {
    /// The text that describes the error.
    pub fn text(&self) -> (r: String)
        ensures
            r@ == error_text(*self),
    {
        match self {
            ExifError::FileTypeUnknown => "File type unknown".to_owned(),
            ExifError::JpegWithoutExif(s) => {
                let mut t = "JPEG without EXIF section: ".to_owned();
                t.append(s.as_str());
                t
            },
            ExifError::TiffTruncated => "TIFF truncated at start".to_owned(),
            ExifError::TiffBadPreamble(s) => {
                let mut t = "TIFF with bad preamble: ".to_owned();
                t.append(s.as_str());
                t
            },
            ExifError::IfdTruncated => "TIFF IFD truncated".to_owned(),
            ExifError::ExifIfdTruncated(s) => {
                let mut t = "TIFF Exif IFD truncated: ".to_owned();
                t.append(s.as_str());
                t
            },
            ExifError::ExifIfdEntryNotFound => "TIFF Exif IFD not found".to_owned(),
            ExifError::UnsupportedNamespace => "Only standard namespace can be serialized".to_owned(),
            ExifError::MissingExifOffset => "Expected to have seen ExifOffset tag in IFD0".to_owned(),
        }
    }
}

/// The namespace of a tag. Only `Standard` tags are read and written; the
/// others are reserved for the manufacturer-specific tags of maker notes.
#[derive(Copy, Clone, Debug, PartialEq, Eq, Structural)]
pub enum Namespace {
    Standard,
    Nikon,
    Canon,
}

/// The directory an entry belongs to.
#[derive(Copy, Clone, Debug, PartialEq, Eq, Structural)]
pub enum IfdKind {
    Ifd0,
    Ifd1,
    Exif,
    Gps,
    Makernote,
    Interoperability,
}

/// The element type of a directory entry.
#[derive(Copy, Clone, Debug, PartialEq, Eq, Structural)]
pub enum IfdFormat {
    Unknown,
    U8,
    Ascii,
    U16,
    U32,
    URational,
    I8,
    Undefined,
    I16,
    I32,
    IRational,
    F32,
    F64,
}

/// One 12-byte record of a directory, with the payload it refers to.
#[derive(Clone, Debug)]
pub struct IfdEntry {
    /// Standard for tags of a TIFF directory; the others are for tags found
    /// inside maker notes.
    pub namespace: Namespace,
    /// The tag code.
    pub tag: u16,
    /// The element type.
    pub format: IfdFormat,
    /// The number of elements.
    pub count: u32,
    /// The payload: `size * count` bytes, taken from the record itself or from
    /// elsewhere in the file.
    pub data: Vec<u8>,
    /// The four bytes of the record's value field: the payload itself when it
    /// fits, else its offset in the file.
    pub ifd_data: Vec<u8>,
    /// The payload as copied from outside the record, when it did not fit.
    pub ext_data: Vec<u8>,
    /// Byte order of the entry: little-endian when true.
    pub le: bool,
}

/// A position in the output that is to receive the offset of `data`, once
/// `data` has been placed.
pub struct Patch<'a> {
    pub offset_pos: usize,
    pub data: &'a [u8],
}

impl<'a> Patch<'a> {
    pub fn new(offset_pos: usize, data: &'a [u8]) -> (r: Patch<'a>)
        ensures
            r.offset_pos == offset_pos,
            r.data@ == data@,
    {
        Patch { offset_pos, data }
    }
}

/// The known tags. `UnknownToMe` stands for every code outside this list.
#[derive(Copy, Clone, Debug, PartialEq, Eq, Structural)]
pub enum ExifTag {
    UnknownToMe,
    ImageDescription,
    Make,
    Model,
    Orientation,
    XResolution,
    YResolution,
    ResolutionUnit,
    Software,
    DateTime,
    HostComputer,
    WhitePoint,
    PrimaryChromaticities,
    YCbCrCoefficients,
    ReferenceBlackWhite,
    Copyright,
    ExifOffset,
    GPSOffset,
    ExposureTime,
    FNumber,
    ExposureProgram,
    SpectralSensitivity,
    ISOSpeedRatings,
    OECF,
    SensitivityType,
    ExifVersion,
    DateTimeOriginal,
    DateTimeDigitized,
    ShutterSpeedValue,
    ApertureValue,
    BrightnessValue,
    ExposureBiasValue,
    MaxApertureValue,
    SubjectDistance,
    MeteringMode,
    LightSource,
    Flash,
    FocalLength,
    SubjectArea,
    MakerNote,
    UserComment,
    FlashPixVersion,
    ColorSpace,
    RelatedSoundFile,
    FlashEnergy,
    FocalPlaneXResolution,
    FocalPlaneYResolution,
    FocalPlaneResolutionUnit,
    SubjectLocation,
    ExposureIndex,
    SensingMethod,
    FileSource,
    SceneType,
    CFAPattern,
    CustomRendered,
    ExposureMode,
    WhiteBalanceMode,
    DigitalZoomRatio,
    FocalLengthIn35mmFilm,
    SceneCaptureType,
    GainControl,
    Contrast,
    Saturation,
    Sharpness,
    DeviceSettingDescription,
    SubjectDistanceRange,
    ImageUniqueID,
    LensSpecification,
    LensMake,
    LensModel,
    Gamma,
    GPSVersionID,
    GPSLatitudeRef,
    GPSLatitude,
    GPSLongitudeRef,
    GPSLongitude,
    GPSAltitudeRef,
    GPSAltitude,
    GPSTimeStamp,
    GPSSatellites,
    GPSStatus,
    GPSMeasureMode,
    GPSDOP,
    GPSSpeedRef,
    GPSSpeed,
    GPSTrackRef,
    GPSTrack,
    GPSImgDirectionRef,
    GPSImgDirection,
    GPSMapDatum,
    GPSDestLatitudeRef,
    GPSDestLatitude,
    GPSDestLongitudeRef,
    GPSDestLongitude,
    GPSDestBearingRef,
    GPSDestBearing,
    GPSDestDistanceRef,
    GPSDestDistance,
    GPSProcessingMethod,
    GPSAreaInformation,
    GPSDateStamp,
    GPSDifferential,
}

impl ExifTag {
    /// The tag's code: the namespace in the high 16 bits (zero for the
    /// standard tags) and the TIFF tag code in the low 16 bits.
    pub open spec fn spec_code(self) -> u32 {
        match self {
            ExifTag::UnknownToMe => 0xffff,
            ExifTag::ImageDescription => 0x010e,
            ExifTag::Make => 0x010f,
            ExifTag::Model => 0x0110,
            ExifTag::Orientation => 0x0112,
            ExifTag::XResolution => 0x011a,
            ExifTag::YResolution => 0x011b,
            ExifTag::ResolutionUnit => 0x0128,
            ExifTag::Software => 0x0131,
            ExifTag::DateTime => 0x0132,
            ExifTag::HostComputer => 0x013c,
            ExifTag::WhitePoint => 0x013e,
            ExifTag::PrimaryChromaticities => 0x013f,
            ExifTag::YCbCrCoefficients => 0x0211,
            ExifTag::ReferenceBlackWhite => 0x0214,
            ExifTag::Copyright => 0x8298,
            ExifTag::ExifOffset => 0x8769,
            ExifTag::GPSOffset => 0x8825,
            ExifTag::ExposureTime => 0x829a,
            ExifTag::FNumber => 0x829d,
            ExifTag::ExposureProgram => 0x8822,
            ExifTag::SpectralSensitivity => 0x8824,
            ExifTag::ISOSpeedRatings => 0x8827,
            ExifTag::OECF => 0x8828,
            ExifTag::SensitivityType => 0x8830,
            ExifTag::ExifVersion => 0x9000,
            ExifTag::DateTimeOriginal => 0x9003,
            ExifTag::DateTimeDigitized => 0x9004,
            ExifTag::ShutterSpeedValue => 0x9201,
            ExifTag::ApertureValue => 0x9202,
            ExifTag::BrightnessValue => 0x9203,
            ExifTag::ExposureBiasValue => 0x9204,
            ExifTag::MaxApertureValue => 0x9205,
            ExifTag::SubjectDistance => 0x9206,
            ExifTag::MeteringMode => 0x9207,
            ExifTag::LightSource => 0x9208,
            ExifTag::Flash => 0x9209,
            ExifTag::FocalLength => 0x920a,
            ExifTag::SubjectArea => 0x9214,
            ExifTag::MakerNote => 0x927c,
            ExifTag::UserComment => 0x9286,
            ExifTag::FlashPixVersion => 0xa000,
            ExifTag::ColorSpace => 0xa001,
            ExifTag::RelatedSoundFile => 0xa004,
            ExifTag::FlashEnergy => 0xa20b,
            ExifTag::FocalPlaneXResolution => 0xa20e,
            ExifTag::FocalPlaneYResolution => 0xa20f,
            ExifTag::FocalPlaneResolutionUnit => 0xa210,
            ExifTag::SubjectLocation => 0xa214,
            ExifTag::ExposureIndex => 0xa215,
            ExifTag::SensingMethod => 0xa217,
            ExifTag::FileSource => 0xa300,
            ExifTag::SceneType => 0xa301,
            ExifTag::CFAPattern => 0xa302,
            ExifTag::CustomRendered => 0xa401,
            ExifTag::ExposureMode => 0xa402,
            ExifTag::WhiteBalanceMode => 0xa403,
            ExifTag::DigitalZoomRatio => 0xa404,
            ExifTag::FocalLengthIn35mmFilm => 0xa405,
            ExifTag::SceneCaptureType => 0xa406,
            ExifTag::GainControl => 0xa407,
            ExifTag::Contrast => 0xa408,
            ExifTag::Saturation => 0xa409,
            ExifTag::Sharpness => 0xa40a,
            ExifTag::DeviceSettingDescription => 0xa40b,
            ExifTag::SubjectDistanceRange => 0xa40c,
            ExifTag::ImageUniqueID => 0xa420,
            ExifTag::LensSpecification => 0xa432,
            ExifTag::LensMake => 0xa433,
            ExifTag::LensModel => 0xa434,
            ExifTag::Gamma => 0xa500,
            ExifTag::GPSVersionID => 0x0000,
            ExifTag::GPSLatitudeRef => 0x0001,
            ExifTag::GPSLatitude => 0x0002,
            ExifTag::GPSLongitudeRef => 0x0003,
            ExifTag::GPSLongitude => 0x0004,
            ExifTag::GPSAltitudeRef => 0x0005,
            ExifTag::GPSAltitude => 0x0006,
            ExifTag::GPSTimeStamp => 0x0007,
            ExifTag::GPSSatellites => 0x0008,
            ExifTag::GPSStatus => 0x0009,
            ExifTag::GPSMeasureMode => 0x000a,
            ExifTag::GPSDOP => 0x000b,
            ExifTag::GPSSpeedRef => 0x000c,
            ExifTag::GPSSpeed => 0x000d,
            ExifTag::GPSTrackRef => 0x000e,
            ExifTag::GPSTrack => 0x000f,
            ExifTag::GPSImgDirectionRef => 0x0010,
            ExifTag::GPSImgDirection => 0x0011,
            ExifTag::GPSMapDatum => 0x0012,
            ExifTag::GPSDestLatitudeRef => 0x0013,
            ExifTag::GPSDestLatitude => 0x0014,
            ExifTag::GPSDestLongitudeRef => 0x0015,
            ExifTag::GPSDestLongitude => 0x0016,
            ExifTag::GPSDestBearingRef => 0x0017,
            ExifTag::GPSDestBearing => 0x0018,
            ExifTag::GPSDestDistanceRef => 0x0019,
            ExifTag::GPSDestDistance => 0x001a,
            ExifTag::GPSProcessingMethod => 0x001b,
            ExifTag::GPSAreaInformation => 0x001c,
            ExifTag::GPSDateStamp => 0x001d,
            ExifTag::GPSDifferential => 0x001e,
        }
    }

    /// The tag's code, as `spec_code` states it.
    pub fn code(&self) -> (r: u32)
        ensures
            r == self.spec_code(),
    {
        match self {
            ExifTag::UnknownToMe => 0xffff,
            ExifTag::ImageDescription => 0x010e,
            ExifTag::Make => 0x010f,
            ExifTag::Model => 0x0110,
            ExifTag::Orientation => 0x0112,
            ExifTag::XResolution => 0x011a,
            ExifTag::YResolution => 0x011b,
            ExifTag::ResolutionUnit => 0x0128,
            ExifTag::Software => 0x0131,
            ExifTag::DateTime => 0x0132,
            ExifTag::HostComputer => 0x013c,
            ExifTag::WhitePoint => 0x013e,
            ExifTag::PrimaryChromaticities => 0x013f,
            ExifTag::YCbCrCoefficients => 0x0211,
            ExifTag::ReferenceBlackWhite => 0x0214,
            ExifTag::Copyright => 0x8298,
            ExifTag::ExifOffset => 0x8769,
            ExifTag::GPSOffset => 0x8825,
            ExifTag::ExposureTime => 0x829a,
            ExifTag::FNumber => 0x829d,
            ExifTag::ExposureProgram => 0x8822,
            ExifTag::SpectralSensitivity => 0x8824,
            ExifTag::ISOSpeedRatings => 0x8827,
            ExifTag::OECF => 0x8828,
            ExifTag::SensitivityType => 0x8830,
            ExifTag::ExifVersion => 0x9000,
            ExifTag::DateTimeOriginal => 0x9003,
            ExifTag::DateTimeDigitized => 0x9004,
            ExifTag::ShutterSpeedValue => 0x9201,
            ExifTag::ApertureValue => 0x9202,
            ExifTag::BrightnessValue => 0x9203,
            ExifTag::ExposureBiasValue => 0x9204,
            ExifTag::MaxApertureValue => 0x9205,
            ExifTag::SubjectDistance => 0x9206,
            ExifTag::MeteringMode => 0x9207,
            ExifTag::LightSource => 0x9208,
            ExifTag::Flash => 0x9209,
            ExifTag::FocalLength => 0x920a,
            ExifTag::SubjectArea => 0x9214,
            ExifTag::MakerNote => 0x927c,
            ExifTag::UserComment => 0x9286,
            ExifTag::FlashPixVersion => 0xa000,
            ExifTag::ColorSpace => 0xa001,
            ExifTag::RelatedSoundFile => 0xa004,
            ExifTag::FlashEnergy => 0xa20b,
            ExifTag::FocalPlaneXResolution => 0xa20e,
            ExifTag::FocalPlaneYResolution => 0xa20f,
            ExifTag::FocalPlaneResolutionUnit => 0xa210,
            ExifTag::SubjectLocation => 0xa214,
            ExifTag::ExposureIndex => 0xa215,
            ExifTag::SensingMethod => 0xa217,
            ExifTag::FileSource => 0xa300,
            ExifTag::SceneType => 0xa301,
            ExifTag::CFAPattern => 0xa302,
            ExifTag::CustomRendered => 0xa401,
            ExifTag::ExposureMode => 0xa402,
            ExifTag::WhiteBalanceMode => 0xa403,
            ExifTag::DigitalZoomRatio => 0xa404,
            ExifTag::FocalLengthIn35mmFilm => 0xa405,
            ExifTag::SceneCaptureType => 0xa406,
            ExifTag::GainControl => 0xa407,
            ExifTag::Contrast => 0xa408,
            ExifTag::Saturation => 0xa409,
            ExifTag::Sharpness => 0xa40a,
            ExifTag::DeviceSettingDescription => 0xa40b,
            ExifTag::SubjectDistanceRange => 0xa40c,
            ExifTag::ImageUniqueID => 0xa420,
            ExifTag::LensSpecification => 0xa432,
            ExifTag::LensMake => 0xa433,
            ExifTag::LensModel => 0xa434,
            ExifTag::Gamma => 0xa500,
            ExifTag::GPSVersionID => 0x0000,
            ExifTag::GPSLatitudeRef => 0x0001,
            ExifTag::GPSLatitude => 0x0002,
            ExifTag::GPSLongitudeRef => 0x0003,
            ExifTag::GPSLongitude => 0x0004,
            ExifTag::GPSAltitudeRef => 0x0005,
            ExifTag::GPSAltitude => 0x0006,
            ExifTag::GPSTimeStamp => 0x0007,
            ExifTag::GPSSatellites => 0x0008,
            ExifTag::GPSStatus => 0x0009,
            ExifTag::GPSMeasureMode => 0x000a,
            ExifTag::GPSDOP => 0x000b,
            ExifTag::GPSSpeedRef => 0x000c,
            ExifTag::GPSSpeed => 0x000d,
            ExifTag::GPSTrackRef => 0x000e,
            ExifTag::GPSTrack => 0x000f,
            ExifTag::GPSImgDirectionRef => 0x0010,
            ExifTag::GPSImgDirection => 0x0011,
            ExifTag::GPSMapDatum => 0x0012,
            ExifTag::GPSDestLatitudeRef => 0x0013,
            ExifTag::GPSDestLatitude => 0x0014,
            ExifTag::GPSDestLongitudeRef => 0x0015,
            ExifTag::GPSDestLongitude => 0x0016,
            ExifTag::GPSDestBearingRef => 0x0017,
            ExifTag::GPSDestBearing => 0x0018,
            ExifTag::GPSDestDistanceRef => 0x0019,
            ExifTag::GPSDestDistance => 0x001a,
            ExifTag::GPSProcessingMethod => 0x001b,
            ExifTag::GPSAreaInformation => 0x001c,
            ExifTag::GPSDateStamp => 0x001d,
            ExifTag::GPSDifferential => 0x001e,
        }
    }
}

/// The value of an entry, decoded by its format. Every value is an array,
/// since the format lets any tag carry several elements. Floating-point
/// elements are kept as their IEEE 754 bit patterns.
#[derive(Clone, Debug)]
pub enum TagValue {
    U8(Vec<u8>),
    Ascii(String),
    U16(Vec<u16>),
    U32(Vec<u32>),
    URational(Vec<URational>),
    I8(Vec<i8>),
    /// Bytes of no declared structure, with the byte order of the entry.
    Undefined(Vec<u8>, bool),
    I16(Vec<i16>),
    I32(Vec<i32>),
    IRational(Vec<IRational>),
    /// Bit patterns of 32-bit floats.
    F32(Vec<u32>),
    /// Bit patterns of 64-bit floats.
    F64(Vec<u64>),
    /// The bytes of an entry whose format code is not known, with its byte
    /// order.
    Unknown(Vec<u8>, bool),
    /// The bytes of an entry that could not be decoded, with its byte order,
    /// format code and count.
    Invalid(Vec<u8>, bool, u16, u32),
}

/// A decoded entry with its meaning.
#[derive(Clone, Debug)]
pub struct ExifEntry {
    pub namespace: Namespace,
    /// The record this entry was decoded from.
    pub ifd: IfdEntry,
    pub tag: ExifTag,
    pub value: TagValue,
    /// The unit of `value`; empty when the tag is not known.
    pub unit: String,
    /// A human-readable rendering of `value`.
    pub value_more_readable: String,
    pub kind: IfdKind,
}

/// All the metadata of an image: its container, its entries in order, and the
/// byte order of its TIFF block.
#[derive(Clone, Debug)]
pub struct ExifData {
    pub mime: FileType,
    pub entries: Vec<ExifEntry>,
    pub le: bool,
}

impl ExifData {
    pub fn new(mime: FileType, entries: Vec<ExifEntry>, le: bool) -> (r: Self)
        ensures
            r.mime == mime,
            r.entries@ == entries@,
            r.le == le,
    {
        ExifData { mime, entries, le }
    }
}


/// The element at `index` of an integer value, widened; `None` for other
/// variants and for an index out of range.
pub open spec fn int_element(v: TagValue, index: int) -> Option<int> {
    match v {
        TagValue::U8(x) => if 0 <= index < x@.len() {
            Some(x@[index] as int)
        } else {
            None
        },
        TagValue::U16(x) => if 0 <= index < x@.len() {
            Some(x@[index] as int)
        } else {
            None
        },
        TagValue::U32(x) => if 0 <= index < x@.len() {
            Some(x@[index] as int)
        } else {
            None
        },
        TagValue::I8(x) => if 0 <= index < x@.len() {
            Some(x@[index] as int)
        } else {
            None
        },
        TagValue::I16(x) => if 0 <= index < x@.len() {
            Some(x@[index] as int)
        } else {
            None
        },
        TagValue::I32(x) => if 0 <= index < x@.len() {
            Some(x@[index] as int)
        } else {
            None
        },
        _ => None,
    }
}

impl TagValue {
    /// The element at `index` as an integer; `None` for an index out of range
    /// and for variants that do not hold integers.
    pub fn to_i64(&self, index: usize) -> (r: Option<i64>)
        ensures
            r is Some <==> int_element(*self, index as int) is Some,
            r is Some ==> r->0 == int_element(*self, index as int)->0,
    {
        match self {
            TagValue::U8(v) => if index < v.len() {
                Some(v[index] as i64)
            } else {
                None
            },
            TagValue::U16(v) => if index < v.len() {
                Some(v[index] as i64)
            } else {
                None
            },
            TagValue::U32(v) => if index < v.len() {
                Some(v[index] as i64)
            } else {
                None
            },
            TagValue::I8(v) => if index < v.len() {
                Some(v[index] as i64)
            } else {
                None
            },
            TagValue::I16(v) => if index < v.len() {
                Some(v[index] as i64)
            } else {
                None
            },
            TagValue::I32(v) => if index < v.len() {
                Some(v[index] as i64)
            } else {
                None
            },
            _ => None,
        }
    }

    /// A copy of the value, element for element.
    pub fn duplicate(&self) -> (r: TagValue)
        ensures
            same_value(*self, r),
    {
        match self {
            TagValue::U8(v) => TagValue::U8(slice_to_vec(v.as_slice())),
            TagValue::Ascii(s) => TagValue::Ascii(s.clone()),
            TagValue::U16(v) => TagValue::U16(slice_to_vec(v.as_slice())),
            TagValue::U32(v) => TagValue::U32(slice_to_vec(v.as_slice())),
            TagValue::URational(v) => TagValue::URational(slice_to_vec(v.as_slice())),
            TagValue::I8(v) => TagValue::I8(slice_to_vec(v.as_slice())),
            TagValue::Undefined(v, le) => TagValue::Undefined(slice_to_vec(v.as_slice()), *le),
            TagValue::I16(v) => TagValue::I16(slice_to_vec(v.as_slice())),
            TagValue::I32(v) => TagValue::I32(slice_to_vec(v.as_slice())),
            TagValue::IRational(v) => TagValue::IRational(slice_to_vec(v.as_slice())),
            TagValue::F32(v) => TagValue::F32(slice_to_vec(v.as_slice())),
            TagValue::F64(v) => TagValue::F64(slice_to_vec(v.as_slice())),
            TagValue::Unknown(v, le) => TagValue::Unknown(slice_to_vec(v.as_slice()), *le),
            TagValue::Invalid(v, le, f, c) => TagValue::Invalid(
                slice_to_vec(v.as_slice()),
                *le,
                *f,
                *c,
            ),
        }
    }
}

/// Two values of the same variant with the same elements.
pub open spec fn same_value(a: TagValue, b: TagValue) -> bool {
    match (a, b) {
        (TagValue::U8(x), TagValue::U8(y)) => x@ == y@,
        (TagValue::Ascii(x), TagValue::Ascii(y)) => x@ == y@,
        (TagValue::U16(x), TagValue::U16(y)) => x@ == y@,
        (TagValue::U32(x), TagValue::U32(y)) => x@ == y@,
        (TagValue::URational(x), TagValue::URational(y)) => x@ == y@,
        (TagValue::I8(x), TagValue::I8(y)) => x@ == y@,
        (TagValue::Undefined(x, l), TagValue::Undefined(y, m)) => x@ == y@ && l == m,
        (TagValue::I16(x), TagValue::I16(y)) => x@ == y@,
        (TagValue::I32(x), TagValue::I32(y)) => x@ == y@,
        (TagValue::IRational(x), TagValue::IRational(y)) => x@ == y@,
        (TagValue::F32(x), TagValue::F32(y)) => x@ == y@,
        (TagValue::F64(x), TagValue::F64(y)) => x@ == y@,
        (TagValue::Unknown(x, l), TagValue::Unknown(y, m)) => x@ == y@ && l == m,
        (TagValue::Invalid(x, l, f, c), TagValue::Invalid(y, m, g, d)) => x@ == y@ && l == m && f
            == g && c == d,
        _ => false,
    }
}

impl ExifEntry {
    /// The namespace of the tag: `Standard` for the tags of the EXIF standard.
    pub fn namespace(&self) -> (r: Namespace)
        ensures
            r == self.namespace,
    {
        self.namespace
    }

    /// The tag; `UnknownToMe` when the code is not in the table.
    pub fn tag(&self) -> (r: ExifTag)
        ensures
            r == self.tag,
    {
        self.tag
    }

    /// The decoded value.
    pub fn value(&self) -> (r: TagValue)
        ensures
            same_value(self.value, r),
    {
        self.value.duplicate()
    }

    /// The unit of the value.
    pub fn unit(&self) -> (r: String)
        ensures
            r@ == self.unit@,
    {
        self.unit.clone()
    }

    /// The human-readable rendering of the value.
    pub fn value_more_readable(&self) -> (r: String)
        ensures
            r@ == self.value_more_readable@,
    {
        self.value_more_readable.clone()
    }

    /// The directory the entry belongs to.
    pub fn kind(&self) -> (r: IfdKind)
        ensures
            r == self.kind,
    {
        self.kind
    }
}


/// Whether a tag code is that of a sub-directory pointer, whose value is an
/// offset in the file.
pub open spec fn is_pointer_tag(tag: u16) -> bool {
    tag == 0x8769 || tag == 0x8825
}

/// Records are equal when they hold the same namespace, tag, count, byte
/// order and payload; the payload of a sub-directory pointer, an offset, is
/// not compared.
pub open spec fn ifd_entry_eq(a: IfdEntry, b: IfdEntry) -> bool {
    &&& a.namespace == b.namespace
    &&& a.tag == b.tag
    &&& a.count == b.count
    &&& a.le == b.le
    &&& (is_pointer_tag(a.tag) || a.data@ == b.data@)
}

impl PartialEq for IfdEntry {
    fn eq(&self, other: &IfdEntry) -> (r: bool) {
        let same = self.namespace == other.namespace && self.tag == other.tag && self.count
            == other.count && self.le == other.le;
        if !same {
            return false;
        }
        if self.tag == 0x8769 || self.tag == 0x8825 {
            return true;
        }
        let r = self.data == other.data;
        assert(r == (self.data@ == other.data@)) by {
            if r {
                assert(self.data@ =~= other.data@);
            }
        }
        r
    }
}

impl vstd::std_specs::cmp::PartialEqSpecImpl for IfdEntry {
    open spec fn obeys_eq_spec() -> bool {
        true
    }

    open spec fn eq_spec(&self, other: &IfdEntry) -> bool {
        ifd_entry_eq(*self, *other)
    }
}

fn urationals_eq(a: &Vec<URational>, b: &Vec<URational>) -> (r: bool)
    ensures
        r == (a@ == b@),
{
    if a.len() != b.len() {
        return false;
    }
    let mut i: usize = 0;
    while i < a.len()
        invariant
            i <= a@.len(),
            a@.len() == b@.len(),
            forall|j: int| 0 <= j < i ==> a@[j] == b@[j],
        decreases a@.len() - i,
    {
        if a[i] != b[i] {
            return false;
        }
        i += 1;
    }
    assert(a@ =~= b@);
    true
}

fn irationals_eq(a: &Vec<IRational>, b: &Vec<IRational>) -> (r: bool)
    ensures
        r == (a@ == b@),
{
    if a.len() != b.len() {
        return false;
    }
    let mut i: usize = 0;
    while i < a.len()
        invariant
            i <= a@.len(),
            a@.len() == b@.len(),
            forall|j: int| 0 <= j < i ==> a@[j] == b@[j],
        decreases a@.len() - i,
    {
        if a[i] != b[i] {
            return false;
        }
        i += 1;
    }
    assert(a@ =~= b@);
    true
}

impl PartialEq for TagValue {
    fn eq(&self, other: &TagValue) -> (r: bool) {
        match (self, other) {
            (TagValue::U8(x), TagValue::U8(y)) => {
                let e = x == y;
                proof {
                    if e {
                        assert(x@ =~= y@);
                    }
                    assert(e == (x@ == y@));
                }
                e
            },
            (TagValue::Ascii(x), TagValue::Ascii(y)) => {
                let e = String::eq(x, y);
                assert(e == (x@ == y@));
                e
            },
            (TagValue::U16(x), TagValue::U16(y)) => {
                let e = x == y;
                proof {
                    if e {
                        assert(x@ =~= y@);
                    }
                    assert(e == (x@ == y@));
                }
                e
            },
            (TagValue::U32(x), TagValue::U32(y)) => {
                let e = x == y;
                proof {
                    if e {
                        assert(x@ =~= y@);
                    }
                    assert(e == (x@ == y@));
                }
                e
            },
            (TagValue::URational(x), TagValue::URational(y)) => {
                let e = urationals_eq(x, y);
                assert(e == same_value(*self, *other));
                e
            },
            (TagValue::I8(x), TagValue::I8(y)) => {
                let e = x == y;
                proof {
                    if e {
                        assert(x@ =~= y@);
                    }
                    assert(e == (x@ == y@));
                }
                e
            },
            (TagValue::Undefined(x, l), TagValue::Undefined(y, m)) => {
                let e = x == y;
                proof {
                    if e {
                        assert(x@ =~= y@);
                    }
                    assert(e == (x@ == y@));
                }
                e && l == m
            },
            (TagValue::I16(x), TagValue::I16(y)) => {
                let e = x == y;
                proof {
                    if e {
                        assert(x@ =~= y@);
                    }
                    assert(e == (x@ == y@));
                }
                e
            },
            (TagValue::I32(x), TagValue::I32(y)) => {
                let e = x == y;
                proof {
                    if e {
                        assert(x@ =~= y@);
                    }
                    assert(e == (x@ == y@));
                }
                e
            },
            (TagValue::IRational(x), TagValue::IRational(y)) => irationals_eq(x, y),
            (TagValue::F32(x), TagValue::F32(y)) => {
                let e = x == y;
                proof {
                    if e {
                        assert(x@ =~= y@);
                    }
                    assert(e == (x@ == y@));
                }
                e
            },
            (TagValue::F64(x), TagValue::F64(y)) => {
                let e = x == y;
                proof {
                    if e {
                        assert(x@ =~= y@);
                    }
                    assert(e == (x@ == y@));
                }
                e
            },
            (TagValue::Unknown(x, l), TagValue::Unknown(y, m)) => {
                let e = x == y;
                proof {
                    if e {
                        assert(x@ =~= y@);
                    }
                    assert(e == (x@ == y@));
                }
                e && l == m
            },
            (TagValue::Invalid(x, l, f, c), TagValue::Invalid(y, m, g, d)) => {
                let e = x == y;
                proof {
                    if e {
                        assert(x@ =~= y@);
                    }
                    assert(e == (x@ == y@));
                }
                e && l == m && f == g && c == d
            },
            _ => false,
        }
    }
}

impl vstd::std_specs::cmp::PartialEqSpecImpl for TagValue {
    open spec fn obeys_eq_spec() -> bool {
        true
    }

    open spec fn eq_spec(&self, other: &TagValue) -> bool {
        same_value(*self, *other)
    }
}


/// Decoded entries are equal when their records are; for entries other than
/// sub-directory pointers, their values and readable text must agree too.
pub open spec fn exif_entry_eq(a: ExifEntry, b: ExifEntry) -> bool {
    &&& a.namespace == b.namespace
    &&& ifd_entry_eq(a.ifd, b.ifd)
    &&& a.tag == b.tag
    &&& a.unit@ == b.unit@
    &&& a.kind == b.kind
    &&& (a.tag == ExifTag::ExifOffset || a.tag == ExifTag::GPSOffset || (
    a.value_more_readable@ == b.value_more_readable@ && same_value(a.value, b.value)))
}

impl PartialEq for ExifEntry {
    fn eq(&self, other: &ExifEntry) -> (r: bool) {
        if !(self.namespace == other.namespace && self.ifd == other.ifd && self.tag == other.tag
            && String::eq(&self.unit, &other.unit) && self.kind == other.kind) {
            return false;
        }
        match self.tag {
            ExifTag::ExifOffset | ExifTag::GPSOffset => true,
            _ => String::eq(&self.value_more_readable, &other.value_more_readable) && self.value
                == other.value,
        }
    }
}

impl vstd::std_specs::cmp::PartialEqSpecImpl for ExifEntry {
    open spec fn obeys_eq_spec() -> bool {
        true
    }

    open spec fn eq_spec(&self, other: &ExifEntry) -> bool {
        exif_entry_eq(*self, *other)
    }
}

/// Metadata sets are equal when container, byte order and entries are, entry
/// by entry.
pub open spec fn exif_data_eq(a: ExifData, b: ExifData) -> bool {
    &&& a.mime == b.mime
    &&& a.le == b.le
    &&& a.entries@.len() == b.entries@.len()
    &&& forall|i: int|
        0 <= i < a.entries@.len() ==> #[trigger] exif_entry_eq(a.entries@[i], b.entries@[i])
}

impl PartialEq for ExifData {
    fn eq(&self, other: &ExifData) -> (r: bool) {
        if !(self.mime == other.mime && self.le == other.le) {
            return false;
        }
        if self.entries.len() != other.entries.len() {
            return false;
        }
        let mut i: usize = 0;
        while i < self.entries.len()
            invariant
                i <= self.entries@.len(),
                self.entries@.len() == other.entries@.len(),
                forall|j: int|
                    0 <= j < i ==> #[trigger] exif_entry_eq(self.entries@[j], other.entries@[j]),
            decreases self.entries@.len() - i,
        {
            if !(self.entries[i] == other.entries[i]) {
                return false;
            }
            i += 1;
        }
        true
    }
}

impl vstd::std_specs::cmp::PartialEqSpecImpl for ExifData {
    open spec fn obeys_eq_spec() -> bool {
        true
    }

    open spec fn eq_spec(&self, other: &ExifData) -> bool {
        exif_data_eq(*self, *other)
    }
}

} // verus!
