//! Reading and re-encoding the TIFF image file directories that carry EXIF
//! metadata in JPEG and TIFF images.
pub use image::{detect_type, find_embedded_tiff_in_jpeg, FileType};
pub use ifd::{parse_buffer, parse_ifd, parse_tiff};
pub use rational::{IRational, URational};
pub use types::{
    ExifData, ExifEntry, ExifError, ExifTag, IfdEntry, IfdFormat, IfdKind, Namespace, Patch,
    TagValue,
};
pub use types_impl::ifdformat_new;

pub mod exif;
pub mod ifd;
pub mod image;
pub mod lowlevel;
pub mod rational;
pub mod roundtrip;
pub mod serialize;
pub mod types;
pub mod types_impl;
pub mod value;
