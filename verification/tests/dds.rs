use nutexb::dds::{
    create_dds, create_surface, dds_image_format, dxgi_format, image_format_from_d3d,
    image_format_from_dxgi, image_format_from_fourcc, layer_count, D3dFormat, DdsImage, NewDds,
    ReadDdsError,
};
use nutexb::tegra_swizzle::SwizzleError;
use nutexb::{NutexbFile, NutexbFormat, Surface};

const DXGI: [(NutexbFormat, u32); 20] = [
    (NutexbFormat::R8Unorm, 61),
    (NutexbFormat::R8G8B8A8Unorm, 28),
    (NutexbFormat::R8G8B8A8Srgb, 29),
    (NutexbFormat::R32G32B32A32Float, 2),
    (NutexbFormat::B8G8R8A8Unorm, 87),
    (NutexbFormat::B8G8R8A8Srgb, 91),
    (NutexbFormat::BC1Unorm, 71),
    (NutexbFormat::BC1Srgb, 72),
    (NutexbFormat::BC2Unorm, 74),
    (NutexbFormat::BC2Srgb, 75),
    (NutexbFormat::BC3Unorm, 77),
    (NutexbFormat::BC3Srgb, 78),
    (NutexbFormat::BC4Unorm, 80),
    (NutexbFormat::BC4Snorm, 81),
    (NutexbFormat::BC5Unorm, 83),
    (NutexbFormat::BC5Snorm, 84),
    (NutexbFormat::BC6Ufloat, 95),
    (NutexbFormat::BC6Sfloat, 96),
    (NutexbFormat::BC7Unorm, 98),
    (NutexbFormat::BC7Srgb, 99),
];

fn image(data: Vec<u8>) -> DdsImage {
    DdsImage {
        width: 4,
        height: 4,
        depth: 1,
        mipmap_levels: 1,
        array_layers: 1,
        is_cube_map: false,
        dxgi_format: Some(28),
        d3d_format: None,
        fourcc: None,
        data,
    }
}

fn bytes(len: usize) -> Vec<u8> {
    (0..len).map(|i| (i * 3 + 1) as u8).collect()
}

#[test]
fn dxgi_formats() {
    for (format, number) in DXGI {
        assert_eq!(number, dxgi_format(format));
        assert_eq!(Some(format), image_format_from_dxgi(number));
    }
    let numbers: Vec<u32> = DXGI.iter().map(|entry| entry.1).collect();
    for number in 0..200 {
        if !numbers.contains(&number) {
            assert_eq!(None, image_format_from_dxgi(number));
        }
    }
}

#[test]
fn d3d_formats() {
    assert_eq!(Some(NutexbFormat::BC1Unorm), image_format_from_d3d(D3dFormat::Dxt1));
    assert_eq!(Some(NutexbFormat::BC2Unorm), image_format_from_d3d(D3dFormat::Dxt2));
    assert_eq!(Some(NutexbFormat::BC2Unorm), image_format_from_d3d(D3dFormat::Dxt3));
    assert_eq!(Some(NutexbFormat::BC3Unorm), image_format_from_d3d(D3dFormat::Dxt4));
    assert_eq!(Some(NutexbFormat::BC3Unorm), image_format_from_d3d(D3dFormat::Dxt5));
    assert_eq!(None, image_format_from_d3d(D3dFormat::Other));
}

#[test]
fn fourcc_formats() {
    let code = |text: &[u8; 4]| u32::from_le_bytes(*text);
    assert_eq!(Some(NutexbFormat::BC1Unorm), image_format_from_fourcc(code(b"DXT1")));
    assert_eq!(Some(NutexbFormat::BC2Unorm), image_format_from_fourcc(code(b"DXT2")));
    assert_eq!(Some(NutexbFormat::BC2Unorm), image_format_from_fourcc(code(b"DXT3")));
    assert_eq!(Some(NutexbFormat::BC3Unorm), image_format_from_fourcc(code(b"DXT4")));
    assert_eq!(Some(NutexbFormat::BC3Unorm), image_format_from_fourcc(code(b"DXT5")));
    assert_eq!(Some(NutexbFormat::BC4Unorm), image_format_from_fourcc(code(b"BC4U")));
    assert_eq!(Some(NutexbFormat::BC4Snorm), image_format_from_fourcc(code(b"BC4S")));
    assert_eq!(Some(NutexbFormat::BC5Unorm), image_format_from_fourcc(code(b"ATI2")));
    assert_eq!(Some(NutexbFormat::BC5Unorm), image_format_from_fourcc(code(b"BC5U")));
    assert_eq!(Some(NutexbFormat::BC5Snorm), image_format_from_fourcc(code(b"BC5S")));
    assert_eq!(None, image_format_from_fourcc(code(b"ATI1")));
    assert_eq!(None, image_format_from_fourcc(code(b"DX10")));
    assert_eq!(None, image_format_from_fourcc(0));
}

#[test]
fn format_of_a_dds_file() {
    let mut dds = image(Vec::new());
    dds.d3d_format = Some(D3dFormat::Dxt1);
    dds.fourcc = Some(u32::from_le_bytes(*b"BC4S"));
    assert_eq!(Some(NutexbFormat::R8G8B8A8Unorm), dds_image_format(&dds));
    dds.dxgi_format = Some(1);
    assert_eq!(Some(NutexbFormat::BC1Unorm), dds_image_format(&dds));
    dds.d3d_format = Some(D3dFormat::Other);
    assert_eq!(Some(NutexbFormat::BC4Snorm), dds_image_format(&dds));
    dds.d3d_format = None;
    dds.dxgi_format = None;
    assert_eq!(Some(NutexbFormat::BC4Snorm), dds_image_format(&dds));
    dds.fourcc = None;
    assert_eq!(None, dds_image_format(&dds));
}

#[test]
fn layers_of_a_cube_map() {
    let mut dds = image(Vec::new());
    assert_eq!(1, layer_count(&dds));
    dds.is_cube_map = true;
    assert_eq!(6, layer_count(&dds));
    dds.array_layers = 3;
    assert_eq!(18, layer_count(&dds));
    dds.is_cube_map = false;
    assert_eq!(3, layer_count(&dds));
    dds.is_cube_map = true;
    dds.array_layers = u32::MAX;
    assert_eq!(u32::MAX.wrapping_mul(6), layer_count(&dds));
}

#[test]
fn surface_of_a_dds_file() {
    let mut dds = image(bytes(6 * 64));
    dds.is_cube_map = true;
    assert_eq!(
        Ok(Surface {
            width: 4,
            height: 4,
            depth: 1,
            image_data: bytes(6 * 64),
            mipmap_count: 1,
            layer_count: 6,
            image_format: NutexbFormat::R8G8B8A8Unorm,
        }),
        create_surface(&dds)
    );
    dds.dxgi_format = Some(1000);
    assert_eq!(Err(ReadDdsError::UnrecognizedFormat), create_surface(&dds));
    assert_eq!(
        Err(ReadDdsError::UnrecognizedFormat),
        NutexbFile::from_dds(&dds, "cube")
    );
}

#[test]
fn nutexb_from_dds_and_back() {
    let mut dds = image(bytes(6 * 64));
    dds.is_cube_map = true;
    let file = NutexbFile::from_dds(&dds, "cube").unwrap();
    assert_eq!(6, file.footer.layer_count);
    assert_eq!(9, file.footer.unk2);
    assert_eq!(6 * 512, file.data.len());
    let expected = NewDds {
        height: 4,
        width: 4,
        depth: Some(1),
        format: 28,
        mipmap_levels: Some(1),
        array_layers: Some(6),
        is_volume: false,
        is_cubemap: true,
        data: bytes(6 * 64),
    };
    assert_eq!(Ok(expected.clone()), file.to_dds());
    assert_eq!(Ok(expected), create_dds(&file));
}

#[test]
fn dds_of_a_volume_texture() {
    let surface = Surface {
        width: 2,
        height: 2,
        depth: 2,
        image_data: bytes(8),
        mipmap_count: 1,
        layer_count: 1,
        image_format: NutexbFormat::R8Unorm,
    };
    let mut file = NutexbFile::from_surface(&surface, "volume").unwrap();
    assert_eq!(8, file.footer.unk2);
    let dds = create_dds(&file).unwrap();
    assert_eq!(Some(2), dds.depth);
    assert!(dds.is_volume);
    assert!(!dds.is_cubemap);
    assert_eq!(61, dds.format);
    assert_eq!(bytes(8), dds.data);
    file.footer.depth = 0;
    file.footer.mipmap_count = 0;
    let dds = create_dds(&file).unwrap();
    assert_eq!(None, dds.depth);
    assert_eq!(None, dds.mipmap_levels);
    assert!(!dds.is_volume);
}

#[test]
fn dds_errors() {
    let dds = image(bytes(63));
    assert_eq!(
        Err(ReadDdsError::SwizzleError(SwizzleError::NotEnoughData)),
        NutexbFile::from_dds(&dds, "short")
    );
    let mut file = NutexbFile::from_dds(&image(bytes(64)), "short").unwrap();
    file.data.pop();
    assert_eq!(Err(SwizzleError::NotEnoughData), create_dds(&file));
    assert_eq!("unrecognized DDS format", ReadDdsError::UnrecognizedFormat.message());
    assert_eq!(
        "failed to swizzle surface: not enough data",
        ReadDdsError::SwizzleError(SwizzleError::NotEnoughData).message()
    );
    assert_eq!(
        "failed to swizzle surface: surface too large",
        ReadDdsError::SwizzleError(SwizzleError::SurfaceTooLarge).message()
    );
}
