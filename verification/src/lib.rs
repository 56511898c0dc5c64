//! Firmware-image engine: FFS/section helpers, LZMA framing, image rebuilding
//! and the HII/IFR walkers that locate and patch setup forms.

pub mod bytes;
pub mod text;
pub mod render;
pub mod guid;
pub mod types;
pub mod ops;
pub mod ffs;
pub mod tiano;
pub mod decompress;
pub mod compress;
pub mod builder;
pub mod hii;
