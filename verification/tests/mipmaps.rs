use nutexb::mipmaps::{calculate_layer_mip_sizes, layer_mip_sizes, mip_byte_size, mip_dimension};
use nutexb::NutexbFormat;

#[test]
fn bc1_8x8_with_two_mipmaps() {
    assert_eq!(32, mip_byte_size(8, 8, 1, NutexbFormat::BC1Unorm, 0));
    assert_eq!(8, mip_byte_size(8, 8, 1, NutexbFormat::BC1Unorm, 1));
    assert_eq!(
        vec![32, 8],
        layer_mip_sizes(8, 8, 1, NutexbFormat::BC1Unorm, 2).mipmap_sizes
    );
}

#[test]
fn small_mipmaps_keep_one_block() {
    assert_eq!(8, mip_byte_size(8, 8, 1, NutexbFormat::BC1Unorm, 2));
    assert_eq!(8, mip_byte_size(8, 8, 1, NutexbFormat::BC1Unorm, 3));
    assert_eq!(8, mip_byte_size(8, 8, 1, NutexbFormat::BC1Unorm, 31));
    assert_eq!(8, mip_byte_size(8, 8, 1, NutexbFormat::BC1Unorm, 32));
    assert_eq!(8, mip_byte_size(8, 8, 1, NutexbFormat::BC1Unorm, u32::MAX));
    assert_eq!(16, mip_byte_size(0, 0, 0, NutexbFormat::BC7Srgb, 0));
    assert_eq!(1, mip_byte_size(0, 5, 1, NutexbFormat::R8Unorm, 3));
}

#[test]
fn mip_dimensions() {
    assert_eq!(300, mip_dimension(300, 1, 0));
    assert_eq!(150, mip_dimension(300, 1, 1));
    assert_eq!(37, mip_dimension(300, 1, 3));
    assert_eq!(75, mip_dimension(300, 4, 0));
    assert_eq!(38, mip_dimension(300, 4, 1));
    assert_eq!(10, mip_dimension(300, 4, 3));
    assert_eq!(1, mip_dimension(300, 4, 9));
    assert_eq!(1, mip_dimension(300, 4, 63));
    assert_eq!(1, mip_dimension(300, 4, 64));
    assert_eq!(1, mip_dimension(usize::MAX, 1, 63));
    assert_eq!(1, mip_dimension(usize::MAX, 1, usize::MAX));
    assert_eq!(1, mip_dimension(0, 4, 0));
}

#[test]
fn mip_sizes_with_depth() {
    assert_eq!(17 * 7 * 4 * 4, mip_byte_size(17, 7, 4, NutexbFormat::R8G8B8A8Unorm, 0));
    assert_eq!(8 * 3 * 2 * 4, mip_byte_size(17, 7, 4, NutexbFormat::R8G8B8A8Unorm, 1));
    assert_eq!(4 * 1 * 1 * 4, mip_byte_size(17, 7, 4, NutexbFormat::R8G8B8A8Unorm, 2));
    assert_eq!(5 * 2 * 4 * 16, mip_byte_size(17, 7, 4, NutexbFormat::BC3Unorm, 0));
    assert_eq!(2 * 1 * 2 * 16, mip_byte_size(17, 7, 4, NutexbFormat::BC3Unorm, 1));
}

#[test]
fn mip_sizes_never_grow() {
    for format in [NutexbFormat::R8Unorm, NutexbFormat::BC1Unorm, NutexbFormat::R32G32B32A32Float] {
        for (width, height, depth) in [(1, 1, 1), (7, 17, 1), (300, 64, 4), (1000, 3, 2)] {
            let sizes = layer_mip_sizes(width, height, depth, format, 40).mipmap_sizes;
            assert_eq!(40, sizes.len());
            for mip in 1..sizes.len() {
                assert!(sizes[mip] <= sizes[mip - 1]);
                assert!(sizes[mip] >= format.bytes_per_pixel());
            }
        }
    }
}

#[test]
fn mip_sizes_keep_their_low_32_bits() {
    // 65536 * 65536 * 4 is two to the power of 34.
    assert_eq!(0, mip_byte_size(65536, 65536, 1, NutexbFormat::R8G8B8A8Unorm, 0));
    assert_eq!(0, mip_byte_size(65536, 65536, 1, NutexbFormat::R8G8B8A8Unorm, 1));
    assert_eq!(1 << 30, mip_byte_size(65536, 65536, 1, NutexbFormat::R8G8B8A8Unorm, 2));
    assert_eq!(
        ((u32::MAX as u128).pow(3) * 16 % (1 << 32)) as u32,
        mip_byte_size(u32::MAX, u32::MAX, u32::MAX, NutexbFormat::R32G32B32A32Float, 0)
    );
}

#[test]
fn every_layer_has_the_same_table() {
    let layers = calculate_layer_mip_sizes(16, 16, 1, NutexbFormat::BC4Unorm, 3, 6);
    assert_eq!(6, layers.len());
    for layer in &layers {
        assert_eq!(vec![4 * 4 * 8, 2 * 2 * 8, 8], layer.mipmap_sizes);
    }
    assert!(calculate_layer_mip_sizes(16, 16, 1, NutexbFormat::BC4Unorm, 3, 0).is_empty());
    assert_eq!(
        Vec::<u32>::new(),
        calculate_layer_mip_sizes(16, 16, 1, NutexbFormat::BC4Unorm, 0, 1)[0].mipmap_sizes
    );
}
