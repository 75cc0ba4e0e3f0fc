//! The image formats a nutexb file can hold and the fixed sizes of each.

use vstd::prelude::*;

verus! {

/// Supported image data formats.
///
/// "Unorm" is unsigned normalized data, "Snorm" signed normalized data and
/// "Srgb" unsigned normalized data in the sRGB color space. The block
/// compressed formats (`BC1` to `BC7`) store 4x4 pixels in each block.
#[derive(Debug, Clone, Copy, PartialEq, Eq, Structural)]
pub enum NutexbFormat {
    R8Unorm,
    R8G8B8A8Unorm,
    R8G8B8A8Srgb,
    R32G32B32A32Float,
    B8G8R8A8Unorm,
    B8G8R8A8Srgb,
    BC1Unorm,
    BC1Srgb,
    BC2Unorm,
    BC2Srgb,
    BC3Unorm,
    BC3Srgb,
    BC4Unorm,
    BC4Snorm,
    BC5Unorm,
    BC5Snorm,
    BC6Ufloat,
    BC6Sfloat,
    BC7Unorm,
    BC7Srgb,
}

/// The dimensions in pixels of the smallest unit of a format: a single pixel
/// or a compressed block.
#[derive(Debug, Clone, Copy, PartialEq, Eq, Structural)]
pub struct BlockDim {
    pub width: u32,
    pub height: u32,
    pub depth: u32,
}

impl NutexbFormat {
    /// Whether the format stores compressed blocks rather than single pixels.
    pub open spec fn is_compressed(self) -> bool {
        !(self == NutexbFormat::R8Unorm || self == NutexbFormat::R8G8B8A8Unorm || self
            == NutexbFormat::R8G8B8A8Srgb || self == NutexbFormat::R32G32B32A32Float || self
            == NutexbFormat::B8G8R8A8Unorm || self == NutexbFormat::B8G8R8A8Srgb)
    }

    /// The size in bytes of one pixel, or of one block for compressed formats.
    pub open spec fn unit_bytes(self) -> u32 {
        match self {
            NutexbFormat::R8Unorm => 1,
            NutexbFormat::R8G8B8A8Unorm
            | NutexbFormat::R8G8B8A8Srgb
            | NutexbFormat::B8G8R8A8Unorm
            | NutexbFormat::B8G8R8A8Srgb => 4,
            NutexbFormat::BC1Unorm
            | NutexbFormat::BC1Srgb
            | NutexbFormat::BC4Unorm
            | NutexbFormat::BC4Snorm => 8,
            _ => 16,
        }
    }

    /// The width and height in pixels of one unit.
    pub open spec fn unit_side(self) -> u32 {
        if self.is_compressed() {
            4
        } else {
            1
        }
    }

    /// The value that stands for the format in a file's footer.
    pub open spec fn spec_code(self) -> u32 {
        match self {
            NutexbFormat::R8Unorm => 0x0100,
            NutexbFormat::R8G8B8A8Unorm => 0x0400,
            NutexbFormat::R8G8B8A8Srgb => 0x0405,
            NutexbFormat::R32G32B32A32Float => 0x0434,
            NutexbFormat::B8G8R8A8Unorm => 0x0450,
            NutexbFormat::B8G8R8A8Srgb => 0x0455,
            NutexbFormat::BC1Unorm => 0x0480,
            NutexbFormat::BC1Srgb => 0x0485,
            NutexbFormat::BC2Unorm => 0x0490,
            NutexbFormat::BC2Srgb => 0x0495,
            NutexbFormat::BC3Unorm => 0x04a0,
            NutexbFormat::BC3Srgb => 0x04a5,
            NutexbFormat::BC4Unorm => 0x0180,
            NutexbFormat::BC4Snorm => 0x0185,
            NutexbFormat::BC5Unorm => 0x0280,
            NutexbFormat::BC5Snorm => 0x0285,
            NutexbFormat::BC6Ufloat => 0x04d7,
            NutexbFormat::BC6Sfloat => 0x04d8,
            NutexbFormat::BC7Unorm => 0x04e0,
            NutexbFormat::BC7Srgb => 0x04e5,
        }
    }

    /// The format a footer value stands for, if any.
    pub open spec fn spec_from_code(code: u32) -> Option<NutexbFormat> {
        if code == 0x0100 {
            Some(NutexbFormat::R8Unorm)
        } else if code == 0x0400 {
            Some(NutexbFormat::R8G8B8A8Unorm)
        } else if code == 0x0405 {
            Some(NutexbFormat::R8G8B8A8Srgb)
        } else if code == 0x0434 {
            Some(NutexbFormat::R32G32B32A32Float)
        } else if code == 0x0450 {
            Some(NutexbFormat::B8G8R8A8Unorm)
        } else if code == 0x0455 {
            Some(NutexbFormat::B8G8R8A8Srgb)
        } else if code == 0x0480 {
            Some(NutexbFormat::BC1Unorm)
        } else if code == 0x0485 {
            Some(NutexbFormat::BC1Srgb)
        } else if code == 0x0490 {
            Some(NutexbFormat::BC2Unorm)
        } else if code == 0x0495 {
            Some(NutexbFormat::BC2Srgb)
        } else if code == 0x04a0 {
            Some(NutexbFormat::BC3Unorm)
        } else if code == 0x04a5 {
            Some(NutexbFormat::BC3Srgb)
        } else if code == 0x0180 {
            Some(NutexbFormat::BC4Unorm)
        } else if code == 0x0185 {
            Some(NutexbFormat::BC4Snorm)
        } else if code == 0x0280 {
            Some(NutexbFormat::BC5Unorm)
        } else if code == 0x0285 {
            Some(NutexbFormat::BC5Snorm)
        } else if code == 0x04d7 {
            Some(NutexbFormat::BC6Ufloat)
        } else if code == 0x04d8 {
            Some(NutexbFormat::BC6Sfloat)
        } else if code == 0x04e0 {
            Some(NutexbFormat::BC7Unorm)
        } else if code == 0x04e5 {
            Some(NutexbFormat::BC7Srgb)
        } else {
            None
        }
    }

    /// The number of bytes per pixel.
    /// For block compressed formats like [NutexbFormat::BC7Srgb], this is the size in bytes of a single block.
    pub fn bytes_per_pixel(&self) -> (bytes: u32)
        ensures
            bytes == self.unit_bytes(),
            bytes == 1 || bytes == 4 || bytes == 8 || bytes == 16,
    {
        match self {
            NutexbFormat::R8G8B8A8Unorm
            | NutexbFormat::R8G8B8A8Srgb
            | NutexbFormat::B8G8R8A8Unorm
            | NutexbFormat::B8G8R8A8Srgb => 4,
            NutexbFormat::R32G32B32A32Float => 16,
            NutexbFormat::BC1Unorm | NutexbFormat::BC1Srgb => 8,
            NutexbFormat::BC2Unorm | NutexbFormat::BC2Srgb => 16,
            NutexbFormat::BC3Unorm | NutexbFormat::BC3Srgb => 16,
            NutexbFormat::BC4Unorm | NutexbFormat::BC4Snorm => 8,
            NutexbFormat::BC5Unorm | NutexbFormat::BC5Snorm => 16,
            NutexbFormat::BC6Ufloat | NutexbFormat::BC6Sfloat => 16,
            NutexbFormat::BC7Unorm | NutexbFormat::BC7Srgb => 16,
            NutexbFormat::R8Unorm => 1,
        }
    }

    /// The width in pixels for a compressed block or `1` for uncompressed formats.
    pub fn block_width(&self) -> (width: u32)
        ensures
            width == self.unit_side(),
            width == 1 || width == 4,
    {
        match self {
            NutexbFormat::R8Unorm
            | NutexbFormat::R8G8B8A8Unorm
            | NutexbFormat::R8G8B8A8Srgb
            | NutexbFormat::R32G32B32A32Float
            | NutexbFormat::B8G8R8A8Unorm
            | NutexbFormat::B8G8R8A8Srgb => 1,
            _ => 4,
        }
    }

    /// The height in pixels for a compressed block or `1` for uncompressed formats.
    pub fn block_height(&self) -> (height: u32)
        ensures
            height == self.unit_side(),
    {
        // All known nutexb formats use square blocks.
        self.block_width()
    }

    /// The depth in pixels for a compressed block or `1` for uncompressed formats.
    pub fn block_depth(&self) -> (depth: u32)
        ensures
            depth == 1,
    {
        // All known nutexb formats use 2D blocks.
        1
    }

    /// The dimensions of one unit of the format.
    pub fn block_dim(&self) -> (dim: BlockDim)
        ensures
            dim == self.spec_block_dim(),
    {
        BlockDim { width: self.block_width(), height: self.block_height(), depth: self.block_depth() }
    }

    /// The dimensions of one unit of the format.
    pub open spec fn spec_block_dim(self) -> BlockDim {
        BlockDim { width: self.unit_side(), height: self.unit_side(), depth: 1 }
    }

    /// The value that stands for the format in a file's footer.
    pub fn code(&self) -> (code: u32)
        ensures
            code == self.spec_code(),
            NutexbFormat::spec_from_code(code) == Some(*self),
    {
        match self {
            NutexbFormat::R8Unorm => 0x0100,
            NutexbFormat::R8G8B8A8Unorm => 0x0400,
            NutexbFormat::R8G8B8A8Srgb => 0x0405,
            NutexbFormat::R32G32B32A32Float => 0x0434,
            NutexbFormat::B8G8R8A8Unorm => 0x0450,
            NutexbFormat::B8G8R8A8Srgb => 0x0455,
            NutexbFormat::BC1Unorm => 0x0480,
            NutexbFormat::BC1Srgb => 0x0485,
            NutexbFormat::BC2Unorm => 0x0490,
            NutexbFormat::BC2Srgb => 0x0495,
            NutexbFormat::BC3Unorm => 0x04a0,
            NutexbFormat::BC3Srgb => 0x04a5,
            NutexbFormat::BC4Unorm => 0x0180,
            NutexbFormat::BC4Snorm => 0x0185,
            NutexbFormat::BC5Unorm => 0x0280,
            NutexbFormat::BC5Snorm => 0x0285,
            NutexbFormat::BC6Ufloat => 0x04d7,
            NutexbFormat::BC6Sfloat => 0x04d8,
            NutexbFormat::BC7Unorm => 0x04e0,
            NutexbFormat::BC7Srgb => 0x04e5,
        }
    }

    /// The format that `code` stands for in a file's footer, or `None` for a
    /// value that no format uses.
    pub fn from_code(code: u32) -> (format: Option<NutexbFormat>)
        ensures
            format == NutexbFormat::spec_from_code(code),
            format matches Some(f) ==> f.spec_code() == code,
            format is None ==> forall|f: NutexbFormat| f.spec_code() != code,
    {
        match code {
            0x0100 => Some(NutexbFormat::R8Unorm),
            0x0400 => Some(NutexbFormat::R8G8B8A8Unorm),
            0x0405 => Some(NutexbFormat::R8G8B8A8Srgb),
            0x0434 => Some(NutexbFormat::R32G32B32A32Float),
            0x0450 => Some(NutexbFormat::B8G8R8A8Unorm),
            0x0455 => Some(NutexbFormat::B8G8R8A8Srgb),
            0x0480 => Some(NutexbFormat::BC1Unorm),
            0x0485 => Some(NutexbFormat::BC1Srgb),
            0x0490 => Some(NutexbFormat::BC2Unorm),
            0x0495 => Some(NutexbFormat::BC2Srgb),
            0x04a0 => Some(NutexbFormat::BC3Unorm),
            0x04a5 => Some(NutexbFormat::BC3Srgb),
            0x0180 => Some(NutexbFormat::BC4Unorm),
            0x0185 => Some(NutexbFormat::BC4Snorm),
            0x0280 => Some(NutexbFormat::BC5Unorm),
            0x0285 => Some(NutexbFormat::BC5Snorm),
            0x04d7 => Some(NutexbFormat::BC6Ufloat),
            0x04d8 => Some(NutexbFormat::BC6Sfloat),
            0x04e0 => Some(NutexbFormat::BC7Unorm),
            0x04e5 => Some(NutexbFormat::BC7Srgb),
            _ => None,
        }
    }
}

/// The unit of every format is one, four, eight or sixteen bytes, so a whole
/// number of units fills sixteen bytes. A unit is a single pixel, or a block
/// of 4x4 pixels that takes at least eight bytes.
pub proof fn lemma_format_units(format: NutexbFormat)
    ensures
        format.unit_bytes() == 1 || format.unit_bytes() == 4 || format.unit_bytes() == 8
            || format.unit_bytes() == 16,
        16int % (format.unit_bytes() as int) == 0,
        format.unit_side() == 1 || format.unit_side() == 4,
        format.is_compressed() ==> format.unit_bytes() >= 8,
{
    let bytes = format.unit_bytes() as int;
    assert(bytes == 1 || bytes == 4 || bytes == 8 || bytes == 16);
    if bytes == 1 {
        assert(16int % 1 == 0);
    } else if bytes == 4 {
        assert(16int % 4 == 0);
    } else if bytes == 8 {
        assert(16int % 8 == 0);
    } else {
        assert(16int % 16 == 0);
    }
}

/// Writing a format as its footer value and reading the value back gives the
/// same format, and no two formats share a value.
pub proof fn lemma_format_code_round_trip(format: NutexbFormat, other: NutexbFormat)
    ensures
        NutexbFormat::spec_from_code(format.spec_code()) == Some(format),
        format.spec_code() == other.spec_code() ==> format == other,
{
}

} // verus!
