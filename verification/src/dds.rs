//! Conversion between nutexb files and DDS files.
//!
//! A DDS file names its image format in one of three ways: as a DXGI format
//! in its second header, as a Direct3D format, or as a four character code in
//! its pixel format. The types here hold what a DDS file says about its
//! image as plain values. DXGI formats are given by their number and four
//! character codes by their value as a little endian integer.

use crate::convert::{create_nutexb, swizzled_file, Surface, SurfaceView};
use crate::file::{footer_layout, is_swizzled, FileView, NutexbFile};
use crate::footer::copy_bytes;
use crate::format::NutexbFormat;
use crate::tegra_swizzle::SwizzleError;
use vstd::prelude::*;
use vstd::string::StringSliceAdditionalSpecFns;

verus! {

/// Errors while creating a nutexb file from a DDS file.
#[derive(Debug, Clone, Copy, PartialEq, Eq, Structural)]
pub enum ReadDdsError {
    /// The DDS format is not a recognized or supported nutexb format.
    UnrecognizedFormat,
    /// The DDS data could not be swizzled.
    /// This usually means the DDS header does not accurately describe the image data.
    SwizzleError(SwizzleError),
}

/// The Direct3D formats that have a nutexb format, and one value for all
/// others.
#[derive(Debug, Clone, Copy, PartialEq, Eq, Structural)]
pub enum D3dFormat {
    Dxt1,
    Dxt2,
    Dxt3,
    Dxt4,
    Dxt5,
    Other,
}

/// What a DDS file says about its image.
#[derive(Debug, Clone, PartialEq, Eq)]
pub struct DdsImage {
    /// The width of the image in pixels.
    pub width: u32,
    /// The height of the image in pixels.
    pub height: u32,
    /// The depth of the image in pixels, or 1 for an image without depth.
    pub depth: u32,
    /// The number of mipmaps, or 1 for an image without mipmaps.
    pub mipmap_levels: u32,
    /// The number of array layers. A cube map counts as one.
    pub array_layers: u32,
    /// Whether the second header marks the image as a cube map.
    pub is_cube_map: bool,
    /// The number of the DXGI format, if the file names one.
    pub dxgi_format: Option<u32>,
    /// The Direct3D format, if the file names one.
    pub d3d_format: Option<D3dFormat>,
    /// The four character code of the pixel format, if it has one.
    pub fourcc: Option<u32>,
    /// The image data for all layers and mipmaps.
    pub data: Vec<u8>,
}

/// What a new DDS file with a DXGI format is made from.
#[derive(Debug, Clone, PartialEq, Eq)]
pub struct NewDds {
    /// The height of the image in pixels.
    pub height: u32,
    /// The width of the image in pixels.
    pub width: u32,
    /// The depth of the image in pixels, if it has any.
    pub depth: Option<u32>,
    /// The number of the DXGI format.
    pub format: u32,
    /// The number of mipmaps, if there are any.
    pub mipmap_levels: Option<u32>,
    /// The number of array layers, if there are any.
    pub array_layers: Option<u32>,
    /// Whether the image is a volume texture.
    pub is_volume: bool,
    /// Whether the image is a cube map.
    pub is_cubemap: bool,
    /// The image data for all layers and mipmaps in row-major order.
    pub data: Vec<u8>,
}

pub const DXT1: u32 = 0x31545844;

pub const DXT2: u32 = 0x32545844;

pub const DXT3: u32 = 0x33545844;

pub const DXT4: u32 = 0x34545844;

pub const DXT5: u32 = 0x35545844;

pub const BC4U: u32 = 0x55344342;

pub const BC4S: u32 = 0x53344342;

pub const ATI2: u32 = 0x32495441;

pub const BC5U: u32 = 0x55354342;

pub const BC5S: u32 = 0x53354342;

/// The number of the DXGI format with the same data as a nutexb format.
pub open spec fn spec_dxgi_format(format: NutexbFormat) -> u32 {
    match format {
        NutexbFormat::R32G32B32A32Float => 2,
        NutexbFormat::R8G8B8A8Unorm => 28,
        NutexbFormat::R8G8B8A8Srgb => 29,
        NutexbFormat::R8Unorm => 61,
        NutexbFormat::BC1Unorm => 71,
        NutexbFormat::BC1Srgb => 72,
        NutexbFormat::BC2Unorm => 74,
        NutexbFormat::BC2Srgb => 75,
        NutexbFormat::BC3Unorm => 77,
        NutexbFormat::BC3Srgb => 78,
        NutexbFormat::BC4Unorm => 80,
        NutexbFormat::BC4Snorm => 81,
        NutexbFormat::BC5Unorm => 83,
        NutexbFormat::BC5Snorm => 84,
        NutexbFormat::B8G8R8A8Unorm => 87,
        NutexbFormat::B8G8R8A8Srgb => 91,
        NutexbFormat::BC6Ufloat => 95,
        NutexbFormat::BC6Sfloat => 96,
        NutexbFormat::BC7Unorm => 98,
        NutexbFormat::BC7Srgb => 99,
    }
}

/// The nutexb format for a Direct3D format, if there is one.
pub open spec fn spec_format_from_d3d(format: D3dFormat) -> Option<NutexbFormat> {
    match format {
        D3dFormat::Dxt1 => Some(NutexbFormat::BC1Unorm),
        D3dFormat::Dxt2 => Some(NutexbFormat::BC2Unorm),
        D3dFormat::Dxt3 => Some(NutexbFormat::BC2Unorm),
        D3dFormat::Dxt4 => Some(NutexbFormat::BC3Unorm),
        D3dFormat::Dxt5 => Some(NutexbFormat::BC3Unorm),
        D3dFormat::Other => None,
    }
}

/// The nutexb format for a four character code, if there is one.
pub open spec fn spec_format_from_fourcc(fourcc: u32) -> Option<NutexbFormat> {
    if fourcc == DXT1 {
        Some(NutexbFormat::BC1Unorm)
    } else if fourcc == DXT2 || fourcc == DXT3 {
        Some(NutexbFormat::BC2Unorm)
    } else if fourcc == DXT4 || fourcc == DXT5 {
        Some(NutexbFormat::BC3Unorm)
    } else if fourcc == BC4U {
        Some(NutexbFormat::BC4Unorm)
    } else if fourcc == BC4S {
        Some(NutexbFormat::BC4Snorm)
    } else if fourcc == ATI2 || fourcc == BC5U {
        Some(NutexbFormat::BC5Unorm)
    } else if fourcc == BC5S {
        Some(NutexbFormat::BC5Snorm)
    } else {
        None
    }
}

/// The nutexb format of a DDS file: the one for its DXGI format, or else the
/// one for its Direct3D format, or else the one for its four character code.
pub open spec fn spec_dds_image_format(
    dxgi_format: Option<u32>,
    d3d_format: Option<D3dFormat>,
    fourcc: Option<u32>,
) -> Option<NutexbFormat> {
    let from_dxgi = match dxgi_format {
        Some(number) => spec_format_from_dxgi(number),
        None => None,
    };
    let from_d3d = match d3d_format {
        Some(format) => spec_format_from_d3d(format),
        None => None,
    };
    let from_fourcc = match fourcc {
        Some(code) => spec_format_from_fourcc(code),
        None => None,
    };
    if from_dxgi is Some {
        from_dxgi
    } else if from_d3d is Some {
        from_d3d
    } else {
        from_fourcc
    }
}

/// The nutexb format with the same data as the DXGI format with the given
/// number, if there is one.
pub open spec fn spec_format_from_dxgi(number: u32) -> Option<NutexbFormat> {
    if number == 2 {
        Some(NutexbFormat::R32G32B32A32Float)
    } else if number == 28 {
        Some(NutexbFormat::R8G8B8A8Unorm)
    } else if number == 29 {
        Some(NutexbFormat::R8G8B8A8Srgb)
    } else if number == 61 {
        Some(NutexbFormat::R8Unorm)
    } else if number == 71 {
        Some(NutexbFormat::BC1Unorm)
    } else if number == 72 {
        Some(NutexbFormat::BC1Srgb)
    } else if number == 74 {
        Some(NutexbFormat::BC2Unorm)
    } else if number == 75 {
        Some(NutexbFormat::BC2Srgb)
    } else if number == 77 {
        Some(NutexbFormat::BC3Unorm)
    } else if number == 78 {
        Some(NutexbFormat::BC3Srgb)
    } else if number == 80 {
        Some(NutexbFormat::BC4Unorm)
    } else if number == 81 {
        Some(NutexbFormat::BC4Snorm)
    } else if number == 83 {
        Some(NutexbFormat::BC5Unorm)
    } else if number == 84 {
        Some(NutexbFormat::BC5Snorm)
    } else if number == 87 {
        Some(NutexbFormat::B8G8R8A8Unorm)
    } else if number == 91 {
        Some(NutexbFormat::B8G8R8A8Srgb)
    } else if number == 95 {
        Some(NutexbFormat::BC6Ufloat)
    } else if number == 96 {
        Some(NutexbFormat::BC6Sfloat)
    } else if number == 98 {
        Some(NutexbFormat::BC7Unorm)
    } else if number == 99 {
        Some(NutexbFormat::BC7Srgb)
    } else {
        None
    }
}

/// The number of layers of a nutexb file made from a DDS file: a cube map
/// counts six layers for each of its array layers. The product is taken in
/// 32 bits.
pub open spec fn spec_layer_count(array_layers: u32, is_cube_map: bool) -> u32 {
    if is_cube_map {
        ((array_layers * 6) % 0x1_0000_0000) as u32
    } else {
        array_layers
    }
}

/// The surface that a DDS file holds, given its nutexb format.
pub open spec fn dds_surface(dds: DdsImage, image_format: NutexbFormat) -> SurfaceView {
    SurfaceView {
        width: dds.width,
        height: dds.height,
        depth: dds.depth,
        image_data: dds.data@,
        mipmap_count: dds.mipmap_levels,
        layer_count: spec_layer_count(dds.array_layers, dds.is_cube_map),
        image_format,
    }
}

/// Every nutexb format has a DXGI format, and no two have the same.
pub proof fn lemma_dxgi_format_round_trip(format: NutexbFormat)
    ensures
        spec_format_from_dxgi(spec_dxgi_format(format)) == Some(format),
{
}

/// The nutexb format with the same data as the DXGI format with the given
/// number, if there is one.
pub fn image_format_from_dxgi(format: u32) -> (image_format: Option<NutexbFormat>)
    ensures
        image_format == spec_format_from_dxgi(format),
        image_format matches Some(found) ==> spec_dxgi_format(found) == format,
{
    match format {
        61 => Some(NutexbFormat::R8Unorm),
        28 => Some(NutexbFormat::R8G8B8A8Unorm),
        29 => Some(NutexbFormat::R8G8B8A8Srgb),
        2 => Some(NutexbFormat::R32G32B32A32Float),
        87 => Some(NutexbFormat::B8G8R8A8Unorm),
        91 => Some(NutexbFormat::B8G8R8A8Srgb),
        71 => Some(NutexbFormat::BC1Unorm),
        72 => Some(NutexbFormat::BC1Srgb),
        74 => Some(NutexbFormat::BC2Unorm),
        75 => Some(NutexbFormat::BC2Srgb),
        77 => Some(NutexbFormat::BC3Unorm),
        78 => Some(NutexbFormat::BC3Srgb),
        80 => Some(NutexbFormat::BC4Unorm),
        81 => Some(NutexbFormat::BC4Snorm),
        83 => Some(NutexbFormat::BC5Unorm),
        84 => Some(NutexbFormat::BC5Snorm),
        96 => Some(NutexbFormat::BC6Sfloat),
        95 => Some(NutexbFormat::BC6Ufloat),
        98 => Some(NutexbFormat::BC7Unorm),
        99 => Some(NutexbFormat::BC7Srgb),
        _ => None,
    }
}

/// The nutexb format for a Direct3D format, if there is one.
pub fn image_format_from_d3d(format: D3dFormat) -> (image_format: Option<NutexbFormat>)
    ensures
        image_format == spec_format_from_d3d(format),
{
    match format {
        D3dFormat::Dxt1 => Some(NutexbFormat::BC1Unorm),
        D3dFormat::Dxt2 => Some(NutexbFormat::BC2Unorm),
        D3dFormat::Dxt3 => Some(NutexbFormat::BC2Unorm),
        D3dFormat::Dxt4 => Some(NutexbFormat::BC3Unorm),
        D3dFormat::Dxt5 => Some(NutexbFormat::BC3Unorm),
        D3dFormat::Other => None,
    }
}

/// The nutexb format for a four character code, if there is one.
pub fn image_format_from_fourcc(fourcc: u32) -> (image_format: Option<NutexbFormat>)
    ensures
        image_format == spec_format_from_fourcc(fourcc),
{
    if fourcc == DXT1 {
        Some(NutexbFormat::BC1Unorm)
    } else if fourcc == DXT2 || fourcc == DXT3 {
        Some(NutexbFormat::BC2Unorm)
    } else if fourcc == DXT4 || fourcc == DXT5 {
        Some(NutexbFormat::BC3Unorm)
    } else if fourcc == BC4U {
        Some(NutexbFormat::BC4Unorm)
    } else if fourcc == BC4S {
        Some(NutexbFormat::BC4Snorm)
    } else if fourcc == ATI2 || fourcc == BC5U {
        Some(NutexbFormat::BC5Unorm)
    } else if fourcc == BC5S {
        Some(NutexbFormat::BC5Snorm)
    } else {
        None
    }
}

/// The number of the DXGI format with the same data as a nutexb format.
pub fn dxgi_format(format: NutexbFormat) -> (number: u32)
    ensures
        number == spec_dxgi_format(format),
        spec_format_from_dxgi(number) == Some(format),
{
    match format {
        NutexbFormat::BC1Unorm => 71,
        NutexbFormat::BC1Srgb => 72,
        NutexbFormat::BC2Unorm => 74,
        NutexbFormat::BC2Srgb => 75,
        NutexbFormat::BC3Unorm => 77,
        NutexbFormat::BC3Srgb => 78,
        NutexbFormat::BC4Unorm => 80,
        NutexbFormat::BC4Snorm => 81,
        NutexbFormat::BC5Unorm => 83,
        NutexbFormat::BC5Snorm => 84,
        NutexbFormat::BC6Ufloat => 95,
        NutexbFormat::BC6Sfloat => 96,
        NutexbFormat::BC7Unorm => 98,
        NutexbFormat::BC7Srgb => 99,
        NutexbFormat::R8Unorm => 61,
        NutexbFormat::R8G8B8A8Unorm => 28,
        NutexbFormat::R8G8B8A8Srgb => 29,
        NutexbFormat::R32G32B32A32Float => 2,
        NutexbFormat::B8G8R8A8Unorm => 87,
        NutexbFormat::B8G8R8A8Srgb => 91,
    }
}

/// The nutexb format of a DDS file, if there is one.
pub fn dds_image_format(dds: &DdsImage) -> (image_format: Option<NutexbFormat>)
    ensures
        image_format == spec_dds_image_format(dds.dxgi_format, dds.d3d_format, dds.fourcc),
{
    // The format can be DXGI, D3D, or specified in the FOURCC.
    let from_dxgi = match dds.dxgi_format {
        Some(number) => image_format_from_dxgi(number),
        None => None,
    };
    if from_dxgi.is_some() {
        return from_dxgi;
    }
    let from_d3d = match dds.d3d_format {
        Some(format) => image_format_from_d3d(format),
        None => None,
    };
    if from_d3d.is_some() {
        return from_d3d;
    }
    match dds.fourcc {
        Some(code) => image_format_from_fourcc(code),
        None => None,
    }
}

/// The number of layers of a nutexb file made from a DDS file.
pub fn layer_count(dds: &DdsImage) -> (count: u32)
    ensures
        count == spec_layer_count(dds.array_layers, dds.is_cube_map),
{
    // Array layers for DDS are calculated differently for cube maps.
    if dds.is_cube_map {
        dds.array_layers.wrapping_mul(6)
    } else {
        dds.array_layers
    }
}

/// The surface that a DDS file holds.
pub fn create_surface(dds: &DdsImage) -> (result: Result<Surface, ReadDdsError>)
    ensures
        match result {
            Ok(surface) => {
                &&& spec_dds_image_format(dds.dxgi_format, dds.d3d_format, dds.fourcc) == Some(
                    surface.image_format,
                )
                &&& surface@ == dds_surface(*dds, surface.image_format)
            },
            Err(error) => {
                &&& error == ReadDdsError::UnrecognizedFormat
                &&& spec_dds_image_format(dds.dxgi_format, dds.d3d_format, dds.fourcc) is None
            },
        },
{
    let image_format = match dds_image_format(dds) {
        Some(image_format) => image_format,
        None => {
            return Err(ReadDdsError::UnrecognizedFormat);
        },
    };
    Ok(
        Surface {
            width: dds.width,
            height: dds.height,
            depth: dds.depth,
            image_data: copy_bytes(dds.data.as_slice()),
            mipmap_count: dds.mipmap_levels,
            layer_count: layer_count(dds),
            image_format,
        },
    )
}

/// `Some(value)` unless `value` is zero.
pub open spec fn unless_zero(value: u32) -> Option<u32> {
    if value > 0 {
        Some(value)
    } else {
        None
    }
}

/// What the DDS file for a nutexb file is made from, but for its image data.
pub open spec fn dds_fields_match(dds: NewDds, file: FileView) -> bool {
    &&& dds.height == file.footer.height
    &&& dds.width == file.footer.width
    &&& dds.depth == unless_zero(file.footer.depth)
    &&& dds.format == spec_dxgi_format(file.footer.image_format)
    &&& dds.mipmap_levels == unless_zero(file.footer.mipmap_count)
    &&& dds.array_layers == unless_zero(file.footer.layer_count)
    &&& dds.is_volume == (file.footer.depth > 1)
    &&& dds.is_cubemap == (file.footer.layer_count == 6)
}

/// What the DDS file with the deswizzled image data of a nutexb file is made
/// from. The layers, mipmaps and image format stay as they are.
pub fn create_dds(nutexb: &NutexbFile) -> (result: Result<NewDds, SwizzleError>)
    ensures
        match result {
            Ok(dds) => {
                &&& dds_fields_match(dds, nutexb@)
                &&& if is_swizzled(nutexb@.footer) {
                    &&& footer_layout(nutexb@.footer).tiled_size() <= nutexb@.data.len()
                    &&& dds.data@ == footer_layout(nutexb@.footer).deswizzled(nutexb@.data)
                } else {
                    dds.data@ == nutexb@.data
                }
            },
            Err(SwizzleError::NotEnoughData) => {
                &&& is_swizzled(nutexb@.footer)
                &&& nutexb@.data.len() < footer_layout(nutexb@.footer).tiled_size()
            },
            Err(SwizzleError::SurfaceTooLarge) => false,
        },
{
    // DDS stores mipmaps in a contiguous region of memory.
    let data = match nutexb.deswizzled_data() {
        Ok(data) => data,
        Err(error) => {
            return Err(error);
        },
    };
    Ok(
        NewDds {
            height: nutexb.footer.height,
            width: nutexb.footer.width,
            depth: some_unless_zero(nutexb.footer.depth),
            format: dxgi_format(nutexb.footer.image_format),
            mipmap_levels: some_unless_zero(nutexb.footer.mipmap_count),
            array_layers: some_unless_zero(nutexb.footer.layer_count),
            is_volume: nutexb.footer.depth > 1,
            is_cubemap: nutexb.footer.layer_count == 6,
            data,
        },
    )
}

/// `Some(value)` unless `value` is zero.
pub fn some_unless_zero(value: u32) -> (some: Option<u32>)
    ensures
        some == unless_zero(value),
{
    if value > 0 {
        Some(value)
    } else {
        None
    }
}

impl ReadDdsError {
    /// A description of the error.
    pub fn message(&self) -> (message: &'static str)
        ensures
            message@ == match self {
                ReadDdsError::UnrecognizedFormat => "unrecognized DDS format"@,
                ReadDdsError::SwizzleError(SwizzleError::NotEnoughData) => {
                    "failed to swizzle surface: not enough data"@
                },
                ReadDdsError::SwizzleError(SwizzleError::SurfaceTooLarge) => {
                    "failed to swizzle surface: surface too large"@
                },
            },
    {
        match self {
            ReadDdsError::UnrecognizedFormat => "unrecognized DDS format",
            ReadDdsError::SwizzleError(SwizzleError::NotEnoughData) => {
                "failed to swizzle surface: not enough data"
            },
            ReadDdsError::SwizzleError(SwizzleError::SurfaceTooLarge) => {
                "failed to swizzle surface: surface too large"
            },
        }
    }
}

impl NutexbFile {
    /// Creates a swizzled [NutexbFile] from `dds` with the Nutexb string set to `name`.
    ///
    /// DDS supports all Nutexb image formats as well as array layers, mipmaps, cube maps, and 3D volume textures.
    pub fn from_dds(dds: &DdsImage, name: &str) -> (result: Result<NutexbFile, ReadDdsError>)
        ensures
            match result {
                Ok(file) => {
                    &&& spec_dds_image_format(dds.dxgi_format, dds.d3d_format, dds.fourcc) == Some(
                        file.footer.image_format,
                    )
                    &&& file@ == swizzled_file(
                        dds_surface(*dds, file.footer.image_format),
                        name.spec_bytes(),
                    )
                    &&& dds_surface(*dds, file.footer.image_format).layout().linear_size()
                        <= dds.data@.len()
                },
                Err(ReadDdsError::UnrecognizedFormat) => spec_dds_image_format(
                    dds.dxgi_format,
                    dds.d3d_format,
                    dds.fourcc,
                ) is None,
                Err(ReadDdsError::SwizzleError(error)) => {
                    &&& spec_dds_image_format(dds.dxgi_format, dds.d3d_format, dds.fourcc)
                        matches Some(image_format)
                    &&& (if error == SwizzleError::NotEnoughData {
                        dds.data@.len() < dds_surface(
                            *dds,
                            image_format,
                        ).layout().linear_size()
                    } else {
                        &&& dds_surface(*dds, image_format).layout().linear_size()
                            <= dds.data@.len()
                        &&& dds_surface(*dds, image_format).layout().tiled_size() > usize::MAX
                    })
                },
            },
    {
        let surface = match create_surface(dds) {
            Ok(surface) => surface,
            Err(error) => {
                return Err(error);
            },
        };
        match create_nutexb(&surface, name) {
            Ok(file) => Ok(file),
            Err(error) => Err(ReadDdsError::SwizzleError(error)),
        }
    }

    /// Deswizzle the surface data to DDS while preserving the layers, mipmaps, and image format.
    pub fn to_dds(&self) -> (result: Result<NewDds, SwizzleError>)
        ensures
            match result {
                Ok(dds) => {
                    &&& dds_fields_match(dds, self@)
                    &&& if is_swizzled(self@.footer) {
                        &&& footer_layout(self@.footer).tiled_size() <= self@.data.len()
                        &&& dds.data@ == footer_layout(self@.footer).deswizzled(self@.data)
                    } else {
                        dds.data@ == self@.data
                    }
                },
                Err(SwizzleError::NotEnoughData) => {
                    &&& is_swizzled(self@.footer)
                    &&& self@.data.len() < footer_layout(self@.footer).tiled_size()
                },
                Err(SwizzleError::SurfaceTooLarge) => false,
            },
    {
        create_dds(self)
    }
}

} // verus!
