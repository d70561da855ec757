//! What the standard tag codes mean: the tag, the unit of its value, and the
//! format and element counts the standard gives it.
use crate::types::{ExifTag, IfdFormat};
use vstd::prelude::*;

verus! {

/// For a tag code: the tag, the unit of its value, its format, and its least
/// and greatest element counts (-1 where the standard sets no bound). Codes
/// outside the table give `UnknownToMe`.
pub open spec fn tag_info(f: u16) -> (ExifTag, &'static str, IfdFormat, i32, i32) {
    match f {
        0x010e => (ExifTag::ImageDescription, "none", IfdFormat::Ascii, -1i32, -1i32),
        0x010f => (ExifTag::Make, "none", IfdFormat::Ascii, -1i32, -1i32),
        0x013c => (ExifTag::HostComputer, "none", IfdFormat::Ascii, -1i32, -1i32),
        0x0110 => (ExifTag::Model, "none", IfdFormat::Ascii, -1i32, -1i32),
        0x0112 => (ExifTag::Orientation, "none", IfdFormat::U16, 1i32, 1i32),
        0x011a => (ExifTag::XResolution, "pixels per res unit", IfdFormat::URational, 1i32, 1i32),
        0x011b => (ExifTag::YResolution, "pixels per res unit", IfdFormat::URational, 1i32, 1i32),
        0x0128 => (ExifTag::ResolutionUnit, "none", IfdFormat::U16, 1i32, 1i32),
        0x0131 => (ExifTag::Software, "none", IfdFormat::Ascii, -1i32, -1i32),
        0x0132 => (ExifTag::DateTime, "none", IfdFormat::Ascii, -1i32, -1i32),
        0x013e => (ExifTag::WhitePoint, "CIE 1931 coordinates", IfdFormat::URational, 2i32, 2i32),
        0x013f => (ExifTag::PrimaryChromaticities, "CIE 1931 coordinates", IfdFormat::URational, 6i32, 6i32),
        0x0211 => (ExifTag::YCbCrCoefficients, "none", IfdFormat::URational, 3i32, 3i32),
        0x0214 => (ExifTag::ReferenceBlackWhite, "RGB or YCbCr", IfdFormat::URational, 6i32, 6i32),
        0x8298 => (ExifTag::Copyright, "none", IfdFormat::Ascii, -1i32, -1i32),
        0x8769 => (ExifTag::ExifOffset, "byte offset", IfdFormat::U32, 1i32, 1i32),
        0x8825 => (ExifTag::GPSOffset, "byte offset", IfdFormat::U32, 1i32, 1i32),
        0x829a => (ExifTag::ExposureTime, "s", IfdFormat::URational, 1i32, 1i32),
        0x829d => (ExifTag::FNumber, "f-number", IfdFormat::URational, 1i32, 1i32),
        0x8822 => (ExifTag::ExposureProgram, "none", IfdFormat::U16, 1i32, 1i32),
        0x8824 => (ExifTag::SpectralSensitivity, "ASTM string", IfdFormat::Ascii, -1i32, -1i32),
        0x8830 => (ExifTag::SensitivityType, "none", IfdFormat::U16, 1i32, 1i32),
        0x8827 => (ExifTag::ISOSpeedRatings, "ISO", IfdFormat::U16, 1i32, 3i32),
        0x8828 => (ExifTag::OECF, "none", IfdFormat::Undefined, -1i32, -1i32),
        0x9000 => (ExifTag::ExifVersion, "none", IfdFormat::Undefined, -1i32, -1i32),
        0x9003 => (ExifTag::DateTimeOriginal, "none", IfdFormat::Ascii, -1i32, -1i32),
        0x9004 => (ExifTag::DateTimeDigitized, "none", IfdFormat::Ascii, -1i32, -1i32),
        0x9201 => (ExifTag::ShutterSpeedValue, "APEX", IfdFormat::IRational, 1i32, 1i32),
        0x9202 => (ExifTag::ApertureValue, "APEX", IfdFormat::URational, 1i32, 1i32),
        0x9203 => (ExifTag::BrightnessValue, "APEX", IfdFormat::IRational, 1i32, 1i32),
        0x9204 => (ExifTag::ExposureBiasValue, "APEX", IfdFormat::IRational, 1i32, 1i32),
        0x9205 => (ExifTag::MaxApertureValue, "APEX", IfdFormat::URational, 1i32, 1i32),
        0x9206 => (ExifTag::SubjectDistance, "m", IfdFormat::URational, 1i32, 1i32),
        0x9207 => (ExifTag::MeteringMode, "none", IfdFormat::U16, 1i32, 1i32),
        0x9208 => (ExifTag::LightSource, "none", IfdFormat::U16, 1i32, 1i32),
        0x9209 => (ExifTag::Flash, "none", IfdFormat::U16, 1i32, 2i32),
        0x920a => (ExifTag::FocalLength, "mm", IfdFormat::URational, 1i32, 1i32),
        0x9214 => (ExifTag::SubjectArea, "px", IfdFormat::U16, 2i32, 4i32),
        0x927c => (ExifTag::MakerNote, "none", IfdFormat::Undefined, -1i32, -1i32),
        0x9286 => (ExifTag::UserComment, "none", IfdFormat::Undefined, -1i32, -1i32),
        0xa000 => (ExifTag::FlashPixVersion, "none", IfdFormat::Undefined, -1i32, -1i32),
        0xa001 => (ExifTag::ColorSpace, "none", IfdFormat::U16, 1i32, 1i32),
        0xa004 => (ExifTag::RelatedSoundFile, "none", IfdFormat::Ascii, -1i32, -1i32),
        0xa20b => (ExifTag::FlashEnergy, "BCPS", IfdFormat::URational, 1i32, 1i32),
        0xa20e => (ExifTag::FocalPlaneXResolution, "@FocalPlaneResolutionUnit", IfdFormat::URational, 1i32, 1i32),
        0xa20f => (ExifTag::FocalPlaneYResolution, "@FocalPlaneResolutionUnit", IfdFormat::URational, 1i32, 1i32),
        0xa210 => (ExifTag::FocalPlaneResolutionUnit, "none", IfdFormat::U16, 1i32, 1i32),
        0xa214 => (ExifTag::SubjectLocation, "X,Y", IfdFormat::U16, 2i32, 2i32),
        0xa215 => (ExifTag::ExposureIndex, "EI", IfdFormat::URational, 1i32, 1i32),
        0xa217 => (ExifTag::SensingMethod, "none", IfdFormat::U16, 1i32, 1i32),
        0xa300 => (ExifTag::FileSource, "none", IfdFormat::Undefined, 1i32, 1i32),
        0xa301 => (ExifTag::SceneType, "none", IfdFormat::Undefined, 1i32, 1i32),
        0xa302 => (ExifTag::CFAPattern, "none", IfdFormat::Undefined, -1i32, -1i32),
        0xa401 => (ExifTag::CustomRendered, "none", IfdFormat::U16, 1i32, 1i32),
        0xa402 => (ExifTag::ExposureMode, "none", IfdFormat::U16, 1i32, 1i32),
        0xa403 => (ExifTag::WhiteBalanceMode, "none", IfdFormat::U16, 1i32, 1i32),
        0xa404 => (ExifTag::DigitalZoomRatio, "none", IfdFormat::URational, 1i32, 1i32),
        0xa405 => (ExifTag::FocalLengthIn35mmFilm, "mm", IfdFormat::U16, 1i32, 1i32),
        0xa406 => (ExifTag::SceneCaptureType, "none", IfdFormat::U16, 1i32, 1i32),
        0xa407 => (ExifTag::GainControl, "none", IfdFormat::U16, 1i32, 1i32),
        0xa408 => (ExifTag::Contrast, "none", IfdFormat::U16, 1i32, 1i32),
        0xa409 => (ExifTag::Saturation, "none", IfdFormat::U16, 1i32, 1i32),
        0xa40a => (ExifTag::Sharpness, "none", IfdFormat::U16, 1i32, 1i32),
        0xa432 => (ExifTag::LensSpecification, "none", IfdFormat::URational, 4i32, 4i32),
        0xa433 => (ExifTag::LensMake, "none", IfdFormat::Ascii, -1i32, -1i32),
        0xa434 => (ExifTag::LensModel, "none", IfdFormat::Ascii, -1i32, -1i32),
        0xa500 => (ExifTag::Gamma, "none", IfdFormat::URational, 1i32, 1i32),
        0xa40b => (ExifTag::DeviceSettingDescription, "none", IfdFormat::Undefined, -1i32, -1i32),
        0xa40c => (ExifTag::SubjectDistanceRange, "none", IfdFormat::U16, 1i32, 1i32),
        0xa420 => (ExifTag::ImageUniqueID, "none", IfdFormat::Ascii, -1i32, -1i32),
        0x0000 => (ExifTag::GPSVersionID, "none", IfdFormat::U8, 4i32, 4i32),
        0x0001 => (ExifTag::GPSLatitudeRef, "none", IfdFormat::Ascii, -1i32, -1i32),
        0x0002 => (ExifTag::GPSLatitude, "D/M/S", IfdFormat::URational, 3i32, 3i32),
        0x0003 => (ExifTag::GPSLongitudeRef, "none", IfdFormat::Ascii, -1i32, -1i32),
        0x0004 => (ExifTag::GPSLongitude, "D/M/S", IfdFormat::URational, 3i32, 3i32),
        0x0005 => (ExifTag::GPSAltitudeRef, "none", IfdFormat::U8, 1i32, 1i32),
        0x0006 => (ExifTag::GPSAltitude, "m", IfdFormat::URational, 1i32, 1i32),
        0x0007 => (ExifTag::GPSTimeStamp, "UTC time", IfdFormat::URational, 3i32, 3i32),
        0x0008 => (ExifTag::GPSSatellites, "none", IfdFormat::Ascii, -1i32, -1i32),
        0x0009 => (ExifTag::GPSStatus, "none", IfdFormat::Ascii, -1i32, -1i32),
        0x000a => (ExifTag::GPSMeasureMode, "none", IfdFormat::Ascii, -1i32, -1i32),
        0x000b => (ExifTag::GPSDOP, "none", IfdFormat::URational, 1i32, 1i32),
        0x000c => (ExifTag::GPSSpeedRef, "none", IfdFormat::Ascii, -1i32, -1i32),
        0x000d => (ExifTag::GPSSpeed, "@GPSSpeedRef", IfdFormat::URational, 1i32, 1i32),
        0x000e => (ExifTag::GPSTrackRef, "none", IfdFormat::Ascii, -1i32, -1i32),
        0x000f => (ExifTag::GPSTrack, "deg", IfdFormat::URational, 1i32, 1i32),
        0x0010 => (ExifTag::GPSImgDirectionRef, "none", IfdFormat::Ascii, -1i32, -1i32),
        0x0011 => (ExifTag::GPSImgDirection, "deg", IfdFormat::URational, 1i32, 1i32),
        0x0012 => (ExifTag::GPSMapDatum, "none", IfdFormat::Ascii, -1i32, -1i32),
        0x0013 => (ExifTag::GPSDestLatitudeRef, "none", IfdFormat::Ascii, -1i32, -1i32),
        0x0014 => (ExifTag::GPSDestLatitude, "D/M/S", IfdFormat::URational, 3i32, 3i32),
        0x0015 => (ExifTag::GPSDestLongitudeRef, "none", IfdFormat::Ascii, -1i32, -1i32),
        0x0016 => (ExifTag::GPSDestLongitude, "D/M/S", IfdFormat::URational, 3i32, 3i32),
        0x0017 => (ExifTag::GPSDestBearingRef, "none", IfdFormat::Ascii, -1i32, -1i32),
        0x0018 => (ExifTag::GPSDestBearing, "deg", IfdFormat::URational, 1i32, 1i32),
        0x0019 => (ExifTag::GPSDestDistanceRef, "none", IfdFormat::Ascii, -1i32, -1i32),
        0x001a => (ExifTag::GPSDestDistance, "@GPSDestDistanceRef", IfdFormat::URational, 1i32, 1i32),
        0x001b => (ExifTag::GPSProcessingMethod, "none", IfdFormat::Undefined, -1i32, -1i32),
        0x001c => (ExifTag::GPSAreaInformation, "none", IfdFormat::Undefined, -1i32, -1i32),
        0x001d => (ExifTag::GPSDateStamp, "none", IfdFormat::Ascii, -1i32, -1i32),
        0x001e => (ExifTag::GPSDifferential, "none", IfdFormat::U16, 1i32, 1i32),
        _ => (ExifTag::UnknownToMe, "Unknown unit", IfdFormat::Unknown, -1i32, -1i32),
    }
}

/// Looks up a tag code in the table of standard tags.
pub fn tag_to_exif(f: u16) -> (r: (ExifTag, &'static str, IfdFormat, i32, i32))
    ensures
        r == tag_info(f),
{
    match f {
        0x010e => (ExifTag::ImageDescription, "none", IfdFormat::Ascii, -1i32, -1i32),
        0x010f => (ExifTag::Make, "none", IfdFormat::Ascii, -1i32, -1i32),
        0x013c => (ExifTag::HostComputer, "none", IfdFormat::Ascii, -1i32, -1i32),
        0x0110 => (ExifTag::Model, "none", IfdFormat::Ascii, -1i32, -1i32),
        0x0112 => (ExifTag::Orientation, "none", IfdFormat::U16, 1i32, 1i32),
        0x011a => (ExifTag::XResolution, "pixels per res unit", IfdFormat::URational, 1i32, 1i32),
        0x011b => (ExifTag::YResolution, "pixels per res unit", IfdFormat::URational, 1i32, 1i32),
        0x0128 => (ExifTag::ResolutionUnit, "none", IfdFormat::U16, 1i32, 1i32),
        0x0131 => (ExifTag::Software, "none", IfdFormat::Ascii, -1i32, -1i32),
        0x0132 => (ExifTag::DateTime, "none", IfdFormat::Ascii, -1i32, -1i32),
        0x013e => (ExifTag::WhitePoint, "CIE 1931 coordinates", IfdFormat::URational, 2i32, 2i32),
        0x013f => (ExifTag::PrimaryChromaticities, "CIE 1931 coordinates", IfdFormat::URational, 6i32, 6i32),
        0x0211 => (ExifTag::YCbCrCoefficients, "none", IfdFormat::URational, 3i32, 3i32),
        0x0214 => (ExifTag::ReferenceBlackWhite, "RGB or YCbCr", IfdFormat::URational, 6i32, 6i32),
        0x8298 => (ExifTag::Copyright, "none", IfdFormat::Ascii, -1i32, -1i32),
        0x8769 => (ExifTag::ExifOffset, "byte offset", IfdFormat::U32, 1i32, 1i32),
        0x8825 => (ExifTag::GPSOffset, "byte offset", IfdFormat::U32, 1i32, 1i32),
        0x829a => (ExifTag::ExposureTime, "s", IfdFormat::URational, 1i32, 1i32),
        0x829d => (ExifTag::FNumber, "f-number", IfdFormat::URational, 1i32, 1i32),
        0x8822 => (ExifTag::ExposureProgram, "none", IfdFormat::U16, 1i32, 1i32),
        0x8824 => (ExifTag::SpectralSensitivity, "ASTM string", IfdFormat::Ascii, -1i32, -1i32),
        0x8830 => (ExifTag::SensitivityType, "none", IfdFormat::U16, 1i32, 1i32),
        0x8827 => (ExifTag::ISOSpeedRatings, "ISO", IfdFormat::U16, 1i32, 3i32),
        0x8828 => (ExifTag::OECF, "none", IfdFormat::Undefined, -1i32, -1i32),
        0x9000 => (ExifTag::ExifVersion, "none", IfdFormat::Undefined, -1i32, -1i32),
        0x9003 => (ExifTag::DateTimeOriginal, "none", IfdFormat::Ascii, -1i32, -1i32),
        0x9004 => (ExifTag::DateTimeDigitized, "none", IfdFormat::Ascii, -1i32, -1i32),
        0x9201 => (ExifTag::ShutterSpeedValue, "APEX", IfdFormat::IRational, 1i32, 1i32),
        0x9202 => (ExifTag::ApertureValue, "APEX", IfdFormat::URational, 1i32, 1i32),
        0x9203 => (ExifTag::BrightnessValue, "APEX", IfdFormat::IRational, 1i32, 1i32),
        0x9204 => (ExifTag::ExposureBiasValue, "APEX", IfdFormat::IRational, 1i32, 1i32),
        0x9205 => (ExifTag::MaxApertureValue, "APEX", IfdFormat::URational, 1i32, 1i32),
        0x9206 => (ExifTag::SubjectDistance, "m", IfdFormat::URational, 1i32, 1i32),
        0x9207 => (ExifTag::MeteringMode, "none", IfdFormat::U16, 1i32, 1i32),
        0x9208 => (ExifTag::LightSource, "none", IfdFormat::U16, 1i32, 1i32),
        0x9209 => (ExifTag::Flash, "none", IfdFormat::U16, 1i32, 2i32),
        0x920a => (ExifTag::FocalLength, "mm", IfdFormat::URational, 1i32, 1i32),
        0x9214 => (ExifTag::SubjectArea, "px", IfdFormat::U16, 2i32, 4i32),
        0x927c => (ExifTag::MakerNote, "none", IfdFormat::Undefined, -1i32, -1i32),
        0x9286 => (ExifTag::UserComment, "none", IfdFormat::Undefined, -1i32, -1i32),
        0xa000 => (ExifTag::FlashPixVersion, "none", IfdFormat::Undefined, -1i32, -1i32),
        0xa001 => (ExifTag::ColorSpace, "none", IfdFormat::U16, 1i32, 1i32),
        0xa004 => (ExifTag::RelatedSoundFile, "none", IfdFormat::Ascii, -1i32, -1i32),
        0xa20b => (ExifTag::FlashEnergy, "BCPS", IfdFormat::URational, 1i32, 1i32),
        0xa20e => (ExifTag::FocalPlaneXResolution, "@FocalPlaneResolutionUnit", IfdFormat::URational, 1i32, 1i32),
        0xa20f => (ExifTag::FocalPlaneYResolution, "@FocalPlaneResolutionUnit", IfdFormat::URational, 1i32, 1i32),
        0xa210 => (ExifTag::FocalPlaneResolutionUnit, "none", IfdFormat::U16, 1i32, 1i32),
        0xa214 => (ExifTag::SubjectLocation, "X,Y", IfdFormat::U16, 2i32, 2i32),
        0xa215 => (ExifTag::ExposureIndex, "EI", IfdFormat::URational, 1i32, 1i32),
        0xa217 => (ExifTag::SensingMethod, "none", IfdFormat::U16, 1i32, 1i32),
        0xa300 => (ExifTag::FileSource, "none", IfdFormat::Undefined, 1i32, 1i32),
        0xa301 => (ExifTag::SceneType, "none", IfdFormat::Undefined, 1i32, 1i32),
        0xa302 => (ExifTag::CFAPattern, "none", IfdFormat::Undefined, -1i32, -1i32),
        0xa401 => (ExifTag::CustomRendered, "none", IfdFormat::U16, 1i32, 1i32),
        0xa402 => (ExifTag::ExposureMode, "none", IfdFormat::U16, 1i32, 1i32),
        0xa403 => (ExifTag::WhiteBalanceMode, "none", IfdFormat::U16, 1i32, 1i32),
        0xa404 => (ExifTag::DigitalZoomRatio, "none", IfdFormat::URational, 1i32, 1i32),
        0xa405 => (ExifTag::FocalLengthIn35mmFilm, "mm", IfdFormat::U16, 1i32, 1i32),
        0xa406 => (ExifTag::SceneCaptureType, "none", IfdFormat::U16, 1i32, 1i32),
        0xa407 => (ExifTag::GainControl, "none", IfdFormat::U16, 1i32, 1i32),
        0xa408 => (ExifTag::Contrast, "none", IfdFormat::U16, 1i32, 1i32),
        0xa409 => (ExifTag::Saturation, "none", IfdFormat::U16, 1i32, 1i32),
        0xa40a => (ExifTag::Sharpness, "none", IfdFormat::U16, 1i32, 1i32),
        0xa432 => (ExifTag::LensSpecification, "none", IfdFormat::URational, 4i32, 4i32),
        0xa433 => (ExifTag::LensMake, "none", IfdFormat::Ascii, -1i32, -1i32),
        0xa434 => (ExifTag::LensModel, "none", IfdFormat::Ascii, -1i32, -1i32),
        0xa500 => (ExifTag::Gamma, "none", IfdFormat::URational, 1i32, 1i32),
        0xa40b => (ExifTag::DeviceSettingDescription, "none", IfdFormat::Undefined, -1i32, -1i32),
        0xa40c => (ExifTag::SubjectDistanceRange, "none", IfdFormat::U16, 1i32, 1i32),
        0xa420 => (ExifTag::ImageUniqueID, "none", IfdFormat::Ascii, -1i32, -1i32),
        0x0000 => (ExifTag::GPSVersionID, "none", IfdFormat::U8, 4i32, 4i32),
        0x0001 => (ExifTag::GPSLatitudeRef, "none", IfdFormat::Ascii, -1i32, -1i32),
        0x0002 => (ExifTag::GPSLatitude, "D/M/S", IfdFormat::URational, 3i32, 3i32),
        0x0003 => (ExifTag::GPSLongitudeRef, "none", IfdFormat::Ascii, -1i32, -1i32),
        0x0004 => (ExifTag::GPSLongitude, "D/M/S", IfdFormat::URational, 3i32, 3i32),
        0x0005 => (ExifTag::GPSAltitudeRef, "none", IfdFormat::U8, 1i32, 1i32),
        0x0006 => (ExifTag::GPSAltitude, "m", IfdFormat::URational, 1i32, 1i32),
        0x0007 => (ExifTag::GPSTimeStamp, "UTC time", IfdFormat::URational, 3i32, 3i32),
        0x0008 => (ExifTag::GPSSatellites, "none", IfdFormat::Ascii, -1i32, -1i32),
        0x0009 => (ExifTag::GPSStatus, "none", IfdFormat::Ascii, -1i32, -1i32),
        0x000a => (ExifTag::GPSMeasureMode, "none", IfdFormat::Ascii, -1i32, -1i32),
        0x000b => (ExifTag::GPSDOP, "none", IfdFormat::URational, 1i32, 1i32),
        0x000c => (ExifTag::GPSSpeedRef, "none", IfdFormat::Ascii, -1i32, -1i32),
        0x000d => (ExifTag::GPSSpeed, "@GPSSpeedRef", IfdFormat::URational, 1i32, 1i32),
        0x000e => (ExifTag::GPSTrackRef, "none", IfdFormat::Ascii, -1i32, -1i32),
        0x000f => (ExifTag::GPSTrack, "deg", IfdFormat::URational, 1i32, 1i32),
        0x0010 => (ExifTag::GPSImgDirectionRef, "none", IfdFormat::Ascii, -1i32, -1i32),
        0x0011 => (ExifTag::GPSImgDirection, "deg", IfdFormat::URational, 1i32, 1i32),
        0x0012 => (ExifTag::GPSMapDatum, "none", IfdFormat::Ascii, -1i32, -1i32),
        0x0013 => (ExifTag::GPSDestLatitudeRef, "none", IfdFormat::Ascii, -1i32, -1i32),
        0x0014 => (ExifTag::GPSDestLatitude, "D/M/S", IfdFormat::URational, 3i32, 3i32),
        0x0015 => (ExifTag::GPSDestLongitudeRef, "none", IfdFormat::Ascii, -1i32, -1i32),
        0x0016 => (ExifTag::GPSDestLongitude, "D/M/S", IfdFormat::URational, 3i32, 3i32),
        0x0017 => (ExifTag::GPSDestBearingRef, "none", IfdFormat::Ascii, -1i32, -1i32),
        0x0018 => (ExifTag::GPSDestBearing, "deg", IfdFormat::URational, 1i32, 1i32),
        0x0019 => (ExifTag::GPSDestDistanceRef, "none", IfdFormat::Ascii, -1i32, -1i32),
        0x001a => (ExifTag::GPSDestDistance, "@GPSDestDistanceRef", IfdFormat::URational, 1i32, 1i32),
        0x001b => (ExifTag::GPSProcessingMethod, "none", IfdFormat::Undefined, -1i32, -1i32),
        0x001c => (ExifTag::GPSAreaInformation, "none", IfdFormat::Undefined, -1i32, -1i32),
        0x001d => (ExifTag::GPSDateStamp, "none", IfdFormat::Ascii, -1i32, -1i32),
        0x001e => (ExifTag::GPSDifferential, "none", IfdFormat::U16, 1i32, 1i32),
        _ => (ExifTag::UnknownToMe, "Unknown unit", IfdFormat::Unknown, -1i32, -1i32),
    }
}


/// The table names the sub-directory pointer tags for their codes alone.
pub proof fn lemma_pointer_tags(c: u16)
    ensures
        tag_info(c).0 == ExifTag::ExifOffset <==> c == 0x8769,
        tag_info(c).0 == ExifTag::GPSOffset <==> c == 0x8825,
{
}

} // verus!
