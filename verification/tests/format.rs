use nutexb::{BlockDim, NutexbFormat};

const FORMATS: [(NutexbFormat, u32, u32, u32); 20] = [
    (NutexbFormat::R8Unorm, 0x0100, 1, 1),
    (NutexbFormat::R8G8B8A8Unorm, 0x0400, 4, 1),
    (NutexbFormat::R8G8B8A8Srgb, 0x0405, 4, 1),
    (NutexbFormat::R32G32B32A32Float, 0x0434, 16, 1),
    (NutexbFormat::B8G8R8A8Unorm, 0x0450, 4, 1),
    (NutexbFormat::B8G8R8A8Srgb, 0x0455, 4, 1),
    (NutexbFormat::BC1Unorm, 0x0480, 8, 4),
    (NutexbFormat::BC1Srgb, 0x0485, 8, 4),
    (NutexbFormat::BC2Unorm, 0x0490, 16, 4),
    (NutexbFormat::BC2Srgb, 0x0495, 16, 4),
    (NutexbFormat::BC3Unorm, 0x04a0, 16, 4),
    (NutexbFormat::BC3Srgb, 0x04a5, 16, 4),
    (NutexbFormat::BC4Unorm, 0x0180, 8, 4),
    (NutexbFormat::BC4Snorm, 0x0185, 8, 4),
    (NutexbFormat::BC5Unorm, 0x0280, 16, 4),
    (NutexbFormat::BC5Snorm, 0x0285, 16, 4),
    (NutexbFormat::BC6Ufloat, 0x04d7, 16, 4),
    (NutexbFormat::BC6Sfloat, 0x04d8, 16, 4),
    (NutexbFormat::BC7Unorm, 0x04e0, 16, 4),
    (NutexbFormat::BC7Srgb, 0x04e5, 16, 4),
];

#[test]
fn bytes_per_pixel_examples() {
    assert_eq!(1, NutexbFormat::R8Unorm.bytes_per_pixel());
    assert_eq!(4, NutexbFormat::R8G8B8A8Unorm.bytes_per_pixel());
    assert_eq!(8, NutexbFormat::BC1Unorm.bytes_per_pixel());
    assert_eq!(16, NutexbFormat::BC7Srgb.bytes_per_pixel());
    assert_eq!(16, NutexbFormat::R32G32B32A32Float.bytes_per_pixel());
}

#[test]
fn block_dimension_examples() {
    assert_eq!(1, NutexbFormat::R8Unorm.block_width());
    assert_eq!(1, NutexbFormat::R8G8B8A8Unorm.block_width());
    assert_eq!(4, NutexbFormat::BC1Unorm.block_width());
    assert_eq!(4, NutexbFormat::BC7Srgb.block_width());
    assert_eq!(1, NutexbFormat::R8Unorm.block_height());
    assert_eq!(4, NutexbFormat::BC1Unorm.block_height());
    assert_eq!(1, NutexbFormat::R8Unorm.block_depth());
    assert_eq!(1, NutexbFormat::BC7Srgb.block_depth());
}

#[test]
fn every_format_has_its_sizes_and_code() {
    for (format, code, bytes, side) in FORMATS {
        assert_eq!(bytes, format.bytes_per_pixel());
        assert_eq!(side, format.block_width());
        assert_eq!(side, format.block_height());
        assert_eq!(1, format.block_depth());
        assert_eq!(
            BlockDim { width: side, height: side, depth: 1 },
            format.block_dim()
        );
        assert_eq!(code, format.code());
        assert_eq!(Some(format), NutexbFormat::from_code(code));
    }
}

#[test]
fn other_codes_are_no_format() {
    let codes: Vec<u32> = FORMATS.iter().map(|entry| entry.1).collect();
    for code in 0..0x1000u32 {
        if !codes.contains(&code) {
            assert_eq!(None, NutexbFormat::from_code(code));
        }
    }
    assert_eq!(None, NutexbFormat::from_code(u32::MAX));
    assert_eq!(None, NutexbFormat::from_code(0x1_0100 - 0x1_0000 + 0x1_0000));
}
