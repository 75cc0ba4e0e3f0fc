//! Codec for the Nutexb texture container.
//!
//! Nutexb is an image texture format used in Super Smash Bros Ultimate and
//! some other games. A nutexb file stores the image data first and its
//! description last: a table of mipmap sizes for each array layer, then a
//! fixed footer. The image data is usually kept in the block linear layout of
//! the Tegra X1, a process known as swizzling.
//!
//! - [`format`] lists the image formats and their fixed sizes.
//! - [`mipmaps`] computes the sizes of the mipmaps of a surface.
//! - [`gob`], [`block_height`], [`region`] and [`tegra_swizzle`] convert one
//!   mipmap between the row-major and the tiled layout, and [`surface`]
//!   converts every mipmap of every layer.
//! - [`footer`] and [`file`] read and write the bytes of a file.
//! - [`convert`] creates a file from the image data of a surface, and
//!   [`dds`] converts to and from what a DDS file holds.
//!
//! Everything here works on values in memory. Reading a file into bytes and
//! writing bytes out is left to the caller.

pub mod block_height;
pub mod convert;
pub mod dds;
pub mod file;
pub mod footer;
pub mod format;
pub mod gob;
pub mod mipmaps;
pub mod pieces;
pub mod region;
pub mod surface;
pub mod tegra_swizzle;

pub use convert::{
    create_nutexb, create_nutexb_unswizzled, write_nutexb, write_nutexb_unswizzled, CreateError,
    ImageDescription, Surface, ToNutexb,
};
pub use dds::{create_dds, create_surface, DdsImage, NewDds, ReadDdsError};
pub use file::NutexbFile;
pub use footer::{NutexbFooter, ReadError};
pub use format::{BlockDim, NutexbFormat};
pub use mipmaps::LayerMipmaps;
pub use surface::{deswizzle_data, swizzle_data};
pub use block_height::BlockHeight;
pub use tegra_swizzle::{deswizzle, swizzle, SwizzleError};
