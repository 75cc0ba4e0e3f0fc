use nutexb::surface::{deswizzle_data, swizzle_data};
use nutexb::gob::div_round_up;
use nutexb::tegra_swizzle::{
    block_height_mip0, deswizzle, get_addr_block_linear, mip_block_height, swizzle, SwizzleError,
};
use nutexb::{BlockDim, BlockHeight, NutexbFormat};

fn pattern(len: usize) -> Vec<u8> {
    (0..len).map(|i| (i * 7 + 3) as u8).collect()
}

#[test]
fn rgba_4x4_swizzled_size_is_one_gob() {
    let linear = pattern(4 * 4 * 4);
    let tiled = swizzle(4, 4, 1, BlockHeight::One, 4, &linear).unwrap();
    assert_eq!(512, tiled.len());
    let back = deswizzle(4, 4, 1, BlockHeight::One, 4, &tiled).unwrap();
    assert_eq!(64, back.len());
    assert_eq!(linear, back);
}

#[test]
fn address_of_first_bytes() {
    assert_eq!(0, get_addr_block_linear(0, 0, 1, BlockHeight::One));
    assert_eq!(15, get_addr_block_linear(15, 0, 1, BlockHeight::One));
    assert_eq!(32, get_addr_block_linear(16, 0, 1, BlockHeight::One));
    assert_eq!(256, get_addr_block_linear(32, 0, 1, BlockHeight::One));
    assert_eq!(16, get_addr_block_linear(0, 1, 1, BlockHeight::One));
    assert_eq!(64, get_addr_block_linear(0, 2, 1, BlockHeight::One));
    assert_eq!(511, get_addr_block_linear(63, 7, 1, BlockHeight::One));
}

#[test]
fn address_across_gobs_and_blocks() {
    // The second GOB of a block of two GOBs holds rows 8 to 15.
    assert_eq!(512, get_addr_block_linear(0, 8, 3, BlockHeight::Two));
    // The next GOB column starts after the whole block.
    assert_eq!(1024, get_addr_block_linear(64, 0, 3, BlockHeight::Two));
    // The next row of blocks starts after all three GOB columns.
    assert_eq!(3072, get_addr_block_linear(0, 16, 3, BlockHeight::Two));
    assert_eq!(3072 + 1024 + 512 + 256 + 64 + 32 + 16 + 1, get_addr_block_linear(64 + 49, 16 + 8 + 3, 3, BlockHeight::Two));
}

#[test]
fn swizzle_places_each_byte_at_its_address() {
    let width = 20;
    let height = 11;
    let linear = pattern(width * height);
    let tiled = swizzle(width, height, 1, BlockHeight::Two, 1, &linear).unwrap();
    assert_eq!(1 * 1 * 2 * 512, tiled.len());
    let mut expected = vec![0u8; tiled.len()];
    for y in 0..height {
        for x in 0..width {
            expected[get_addr_block_linear(x, y, 1, BlockHeight::Two)] = linear[y * width + x];
        }
    }
    assert_eq!(expected, tiled);
}

#[test]
fn swizzle_keeps_the_bytes_of_a_pixel_together() {
    for bytes_per_pixel in [1, 2, 4, 8, 16] {
        let width = 9;
        let height = 19;
        let linear = pattern(width * height * bytes_per_pixel);
        let tiled = swizzle(width, height, 1, BlockHeight::Four, bytes_per_pixel, &linear).unwrap();
        let width_in_gobs = div_round_up(width * bytes_per_pixel, 64);
        assert_eq!(width_in_gobs * 512 * 4, tiled.len());
        let mut expected = vec![0u8; tiled.len()];
        for y in 0..height {
            for x in 0..width {
                let from = (y * width + x) * bytes_per_pixel;
                let to = get_addr_block_linear(x * bytes_per_pixel, y, width_in_gobs, BlockHeight::Four);
                expected[to..to + bytes_per_pixel]
                    .copy_from_slice(&linear[from..from + bytes_per_pixel]);
            }
        }
        assert_eq!(expected, tiled);
    }
}

#[test]
fn depth_slices_follow_one_another() {
    let linear = pattern(3 * 5 * 4 * 2);
    let tiled = swizzle(3, 5, 2, BlockHeight::One, 4, &linear).unwrap();
    assert_eq!(2 * 512, tiled.len());
    let first = swizzle(3, 5, 1, BlockHeight::One, 4, &linear[..60]).unwrap();
    let second = swizzle(3, 5, 1, BlockHeight::One, 4, &linear[60..]).unwrap();
    assert_eq!(first[..], tiled[..512]);
    assert_eq!(second[..], tiled[512..]);
    assert_eq!(Ok(linear), deswizzle(3, 5, 2, BlockHeight::One, 4, &tiled));
}

#[test]
fn swizzle_rejects_short_data() {
    let linear = pattern(63);
    assert_eq!(
        Err(SwizzleError::NotEnoughData),
        swizzle(4, 4, 1, BlockHeight::One, 4, &linear)
    );
    assert_eq!(
        Err(SwizzleError::NotEnoughData),
        deswizzle(4, 4, 1, BlockHeight::One, 4, &pattern(511))
    );
}

#[test]
fn swizzle_ignores_bytes_after_the_surface() {
    let mut linear = pattern(64);
    let tiled = swizzle(4, 4, 1, BlockHeight::One, 4, &linear).unwrap();
    linear.extend_from_slice(&[9, 9, 9]);
    assert_eq!(tiled, swizzle(4, 4, 1, BlockHeight::One, 4, &linear).unwrap());
}

#[test]
fn empty_dimensions_give_empty_data() {
    assert_eq!(Ok(Vec::new()), swizzle(0, 4, 1, BlockHeight::One, 4, &[]));
    assert_eq!(Ok(Vec::new()), swizzle(4, 0, 1, BlockHeight::One, 4, &[]));
    assert_eq!(Ok(Vec::new()), deswizzle(4, 4, 0, BlockHeight::One, 4, &[]));
}

#[test]
fn div_round_up_values() {
    assert_eq!(0, div_round_up(0, 4));
    assert_eq!(1, div_round_up(1, 4));
    assert_eq!(1, div_round_up(4, 4));
    assert_eq!(2, div_round_up(5, 4));
    assert_eq!(usize::MAX / 2 + 1, div_round_up(usize::MAX, 2));
}

#[test]
fn base_block_heights() {
    assert_eq!(BlockHeight::One, block_height_mip0(0));
    assert_eq!(BlockHeight::One, block_height_mip0(10));
    assert_eq!(BlockHeight::Two, block_height_mip0(11));
    assert_eq!(BlockHeight::Two, block_height_mip0(21));
    assert_eq!(BlockHeight::Four, block_height_mip0(22));
    assert_eq!(BlockHeight::Four, block_height_mip0(42));
    assert_eq!(BlockHeight::Eight, block_height_mip0(43));
    assert_eq!(BlockHeight::Eight, block_height_mip0(85));
    assert_eq!(BlockHeight::Sixteen, block_height_mip0(86));
    assert_eq!(BlockHeight::Sixteen, block_height_mip0(usize::MAX));
}

#[test]
fn mip_block_heights() {
    assert_eq!(BlockHeight::Sixteen, mip_block_height(128, BlockHeight::Sixteen));
    assert_eq!(BlockHeight::Sixteen, mip_block_height(65, BlockHeight::Sixteen));
    assert_eq!(BlockHeight::Eight, mip_block_height(64, BlockHeight::Sixteen));
    assert_eq!(BlockHeight::Four, mip_block_height(32, BlockHeight::Sixteen));
    assert_eq!(BlockHeight::Two, mip_block_height(9, BlockHeight::Sixteen));
    assert_eq!(BlockHeight::One, mip_block_height(8, BlockHeight::Sixteen));
    assert_eq!(BlockHeight::One, mip_block_height(1, BlockHeight::Sixteen));
    assert_eq!(BlockHeight::Two, mip_block_height(300, BlockHeight::Two));
    assert_eq!(BlockHeight::One, mip_block_height(300, BlockHeight::One));
}

fn round_trip(format: NutexbFormat, width: usize, height: usize, depth: usize, mips: usize, layers: usize) {
    let block_dim = BlockDim {
        width: format.block_width(),
        height: format.block_height(),
        depth: format.block_depth(),
    };
    let bpp = format.bytes_per_pixel() as usize;
    let linear_size = nutexb::surface::deswizzled_surface_size(
        width, height, depth, block_dim, bpp, mips, layers,
    )
    .unwrap();
    let tiled_size =
        nutexb::surface::swizzled_surface_size(width, height, depth, block_dim, bpp, mips, layers)
            .unwrap();
    let linear = pattern(linear_size);
    let tiled = swizzle_data(width, height, depth, block_dim, bpp, &linear, mips, layers).unwrap();
    assert_eq!(tiled_size, tiled.len());
    assert!(tiled.len() >= linear.len());
    let back = deswizzle_data(width, height, depth, block_dim, bpp, &tiled, mips, layers).unwrap();
    assert_eq!(linear, back);
}

const FORMATS: [NutexbFormat; 20] = [
    NutexbFormat::R8Unorm,
    NutexbFormat::R8G8B8A8Unorm,
    NutexbFormat::R8G8B8A8Srgb,
    NutexbFormat::R32G32B32A32Float,
    NutexbFormat::B8G8R8A8Unorm,
    NutexbFormat::B8G8R8A8Srgb,
    NutexbFormat::BC1Unorm,
    NutexbFormat::BC1Srgb,
    NutexbFormat::BC2Unorm,
    NutexbFormat::BC2Srgb,
    NutexbFormat::BC3Unorm,
    NutexbFormat::BC3Srgb,
    NutexbFormat::BC4Unorm,
    NutexbFormat::BC4Snorm,
    NutexbFormat::BC5Unorm,
    NutexbFormat::BC5Snorm,
    NutexbFormat::BC6Ufloat,
    NutexbFormat::BC6Sfloat,
    NutexbFormat::BC7Unorm,
    NutexbFormat::BC7Srgb,
];

#[test]
fn surface_round_trip_small_sizes() {
    for format in FORMATS {
        for &(width, height) in &[(1, 1), (7, 17), (17, 7), (64, 64)] {
            for &depth in &[1, 4] {
                for &mips in &[1, 4] {
                    for &layers in &[1, 6] {
                        round_trip(format, width, height, depth, mips, layers);
                    }
                }
            }
        }
    }
}

#[test]
fn surface_round_trip_300() {
    for format in [NutexbFormat::R8Unorm, NutexbFormat::R8G8B8A8Srgb, NutexbFormat::BC1Unorm, NutexbFormat::BC7Srgb] {
        round_trip(format, 300, 300, 1, 4, 1);
        round_trip(format, 300, 7, 1, 1, 6);
        round_trip(format, 1, 300, 4, 4, 1);
    }
}

#[test]
fn surface_sizes_of_bc1_8x8_with_two_mipmaps() {
    let block_dim = BlockDim { width: 4, height: 4, depth: 1 };
    assert_eq!(
        Some(32 + 8),
        nutexb::surface::deswizzled_surface_size(8, 8, 1, block_dim, 8, 2, 1)
    );
    assert_eq!(
        Some(512 + 512),
        nutexb::surface::swizzled_surface_size(8, 8, 1, block_dim, 8, 2, 1)
    );
}

#[test]
fn surface_rejects_short_data() {
    let block_dim = BlockDim { width: 1, height: 1, depth: 1 };
    assert_eq!(
        Err(SwizzleError::NotEnoughData),
        swizzle_data(4, 4, 1, block_dim, 4, &pattern(64 + 16 + 4 - 1), 3, 1)
    );
    assert!(swizzle_data(4, 4, 1, block_dim, 4, &pattern(64 + 16 + 4), 3, 1).is_ok());
    assert_eq!(
        Err(SwizzleError::NotEnoughData),
        deswizzle_data(4, 4, 1, block_dim, 4, &pattern(3 * 512 - 1), 3, 1)
    );
    assert_eq!(
        Err(SwizzleError::NotEnoughData),
        swizzle_data(u32::MAX as usize, u32::MAX as usize, u32::MAX as usize, block_dim, 16, &pattern(64), 1, 1)
    );
}

#[test]
fn surface_without_mipmaps_or_layers_is_empty() {
    let block_dim = BlockDim { width: 1, height: 1, depth: 1 };
    assert_eq!(Ok(Vec::new()), swizzle_data(4, 4, 1, block_dim, 4, &[], 0, 1));
    assert_eq!(Ok(Vec::new()), swizzle_data(4, 4, 1, block_dim, 4, &[], 1, 0));
    assert_eq!(Ok(Vec::new()), deswizzle_data(4, 4, 1, block_dim, 0, &[], usize::MAX, usize::MAX));
}

#[test]
fn layers_follow_one_another() {
    let block_dim = BlockDim { width: 1, height: 1, depth: 1 };
    let linear = pattern(2 * (64 + 16));
    let tiled = swizzle_data(4, 4, 1, block_dim, 4, &linear, 2, 2).unwrap();
    assert_eq!(4 * 512, tiled.len());
    let first = swizzle(4, 4, 1, BlockHeight::One, 4, &linear[0..64]).unwrap();
    let second = swizzle(2, 2, 1, BlockHeight::One, 4, &linear[64..80]).unwrap();
    let third = swizzle(4, 4, 1, BlockHeight::One, 4, &linear[80..144]).unwrap();
    let fourth = swizzle(2, 2, 1, BlockHeight::One, 4, &linear[144..160]).unwrap();
    assert_eq!(first[..], tiled[0..512]);
    assert_eq!(second[..], tiled[512..1024]);
    assert_eq!(third[..], tiled[1024..1536]);
    assert_eq!(fourth[..], tiled[1536..2048]);
}
