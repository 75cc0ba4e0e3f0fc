use nutexb::file::NutexbFile;
use nutexb::footer::{NutexbFooter, ReadError};
use nutexb::mipmaps::LayerMipmaps;
use nutexb::tegra_swizzle::SwizzleError;
use nutexb::{create_nutexb, create_nutexb_unswizzled, NutexbFormat, Surface};

fn bytes(len: usize) -> Vec<u8> {
    (0..len).map(|i| (i * 13 + 5) as u8).collect()
}

fn rgba_4x4() -> Surface {
    Surface {
        width: 4,
        height: 4,
        depth: 1,
        image_data: bytes(64),
        mipmap_count: 1,
        layer_count: 1,
        image_format: NutexbFormat::R8G8B8A8Unorm,
    }
}

fn small_file() -> NutexbFile {
    NutexbFile {
        data: vec![1, 2, 3],
        layer_mipmaps: vec![LayerMipmaps {
            mipmap_sizes: vec![0x0403_0201, 7],
        }],
        footer: NutexbFooter {
            string: b"ab".to_vec(),
            width: 0x1122_3344,
            height: 2,
            depth: 3,
            image_format: NutexbFormat::BC7Srgb,
            unk2: 4,
            mipmap_count: 2,
            unk3: 0x1000,
            layer_count: 1,
            data_size: 3,
            version: (0x0102, 0x0304),
        },
    }
}

fn small_file_bytes() -> Vec<u8> {
    let mut expected = vec![1u8, 2, 3];
    // the mipmap table of the only layer
    expected.extend_from_slice(&[1, 2, 3, 4, 7, 0, 0, 0]);
    expected.extend_from_slice(&[0; 56]);
    // the footer
    expected.extend_from_slice(b" XNT");
    expected.extend_from_slice(b"ab");
    expected.extend_from_slice(&[0; 62]);
    expected.extend_from_slice(&[0x44, 0x33, 0x22, 0x11]);
    expected.extend_from_slice(&[2, 0, 0, 0]);
    expected.extend_from_slice(&[3, 0, 0, 0]);
    expected.extend_from_slice(&[0xe5, 0x04, 0, 0]);
    expected.extend_from_slice(&[4, 0, 0, 0]);
    expected.extend_from_slice(&[2, 0, 0, 0]);
    expected.extend_from_slice(&[0, 0x10, 0, 0]);
    expected.extend_from_slice(&[1, 0, 0, 0]);
    expected.extend_from_slice(&[3, 0, 0, 0]);
    expected.extend_from_slice(b" XET");
    expected.extend_from_slice(&[0x02, 0x01, 0x04, 0x03]);
    expected
}

#[test]
fn write_lays_out_every_field() {
    let written = small_file().write();
    assert_eq!(3 + 64 + 112, written.len());
    assert_eq!(small_file_bytes(), written);
}

#[test]
fn read_takes_every_field() {
    assert_eq!(Ok(small_file()), NutexbFile::read(&small_file_bytes()));
}

#[test]
fn read_ignores_the_data_size_of_the_footer() {
    let mut written = small_file_bytes();
    let at = written.len() - 12;
    written[at] = 200;
    let file = NutexbFile::read(&written).unwrap();
    assert_eq!(vec![1, 2, 3], file.data);
    assert_eq!(200, file.footer.data_size);
}

#[test]
fn rgba_4x4_file() {
    let file = create_nutexb(&rgba_4x4(), "rgba").unwrap();
    assert!(file.data.len() >= 64);
    assert_eq!(512, file.data.len());
    assert_eq!(512, file.footer.data_size);
    assert_eq!(0x1000, file.footer.unk3);
    assert_eq!(4, file.footer.unk2);
    assert_eq!((1, 2), file.footer.version);
    assert_eq!(b"rgba".to_vec(), file.footer.string);
    assert_eq!(vec![LayerMipmaps { mipmap_sizes: vec![64] }], file.layer_mipmaps);
    let linear = file.deswizzled_data().unwrap();
    assert_eq!(64, linear.len());
    assert_eq!(rgba_4x4().image_data, linear);
}

#[test]
fn short_input_is_malformed() {
    assert_eq!(Err(ReadError::MalformedContainer), NutexbFile::read(&[]));
    assert_eq!(
        Err(ReadError::MalformedContainer),
        NutexbFile::read(&small_file_bytes()[68..])
    );
    let footer_only = &small_file_bytes()[67..];
    assert_eq!(112, footer_only.len());
    // The footer counts one layer, so its table is missing.
    assert_eq!(Err(ReadError::MalformedContainer), NutexbFile::read(footer_only));
}

#[test]
fn unswizzled_cycle() {
    let surface = Surface {
        width: 5,
        height: 3,
        depth: 1,
        image_data: bytes(5 * 3 * 4),
        mipmap_count: 1,
        layer_count: 1,
        image_format: NutexbFormat::B8G8R8A8Srgb,
    };
    let file = create_nutexb_unswizzled(&surface, "plain");
    assert_eq!(0, file.footer.unk3);
    assert_eq!(2, file.footer.unk2);
    assert_eq!((2, 0), file.footer.version);
    assert_eq!(60, file.footer.data_size);
    let read = NutexbFile::read(&file.write()).unwrap();
    assert_eq!(file, read);
    assert_eq!(surface.image_data, read.data);
    assert_eq!(Ok(surface.image_data.clone()), read.deswizzled_data());
}

#[test]
fn unswizzled_file_counts_one_mipmap_and_one_layer() {
    let mut surface = rgba_4x4();
    surface.mipmap_count = 3;
    surface.layer_count = 6;
    surface.depth = 2;
    let file = create_nutexb_unswizzled(&surface, "x");
    assert_eq!(1, file.footer.mipmap_count);
    assert_eq!(1, file.footer.layer_count);
    assert_eq!(2, file.footer.depth);
    assert_eq!(vec![LayerMipmaps { mipmap_sizes: vec![128] }], file.layer_mipmaps);
}

#[test]
fn container_round_trip() {
    for format in [NutexbFormat::R8Unorm, NutexbFormat::BC1Unorm, NutexbFormat::R32G32B32A32Float] {
        for (mips, layers) in [(1, 1), (4, 1), (1, 6), (4, 6)] {
            let mut surface = Surface {
                width: 17,
                height: 7,
                depth: 1,
                image_data: Vec::new(),
                mipmap_count: mips,
                layer_count: layers,
                image_format: format,
            };
            let table = nutexb::mipmaps::layer_mip_sizes(17, 7, 1, format, mips);
            let layer_size: u32 = table.mipmap_sizes.iter().sum();
            surface.image_data = bytes((layer_size * layers) as usize);
            let file = create_nutexb(&surface, "name").unwrap();
            let read = NutexbFile::read(&file.write()).unwrap();
            assert_eq!(file.data, read.data);
            assert_eq!(file.footer, read.footer);
            assert_eq!(file, read);
            assert_eq!(layers as usize, read.layer_mipmaps.len());
            assert_eq!(Ok(surface.image_data), read.deswizzled_data());
        }
    }
}

#[test]
fn unk2_depends_on_depth_and_layers() {
    assert_eq!(4, nutexb::convert::unk2(1, 1));
    assert_eq!(4, nutexb::convert::unk2(0, 0));
    assert_eq!(9, nutexb::convert::unk2(1, 6));
    assert_eq!(9, nutexb::convert::unk2(1, 2));
    assert_eq!(8, nutexb::convert::unk2(2, 1));
    assert_eq!(8, nutexb::convert::unk2(4, 6));
}

#[test]
fn name_of_63_characters_round_trips() {
    let name: String = (0..63).map(|i| (b'a' + (i % 26) as u8) as char).collect();
    let file = create_nutexb(&rgba_4x4(), &name).unwrap();
    assert_eq!(name.as_bytes(), &file.footer.string[..]);
    let read = NutexbFile::read(&file.write()).unwrap();
    assert_eq!(name.as_bytes(), &read.footer.string[..]);
}

#[test]
fn name_of_64_characters_is_cut_to_63() {
    let name: String = (0..64).map(|i| (b'a' + (i % 26) as u8) as char).collect();
    let file = create_nutexb(&rgba_4x4(), &name).unwrap();
    assert_eq!(&name.as_bytes()[..63], &file.footer.string[..]);
    let written = file.write();
    assert_eq!(512 + 64 + 112, written.len());
    let read = NutexbFile::read(&written).unwrap();
    assert_eq!(&name.as_bytes()[..63], &read.footer.string[..]);
    assert_eq!(file, read);
}

#[test]
fn name_ends_at_a_zero_byte() {
    let file = create_nutexb_unswizzled(&rgba_4x4(), "ab\0cd");
    assert_eq!(b"ab".to_vec(), file.footer.string);
    assert_eq!(2, nutexb::footer::stored_name_len(b"ab\0cd"));
    assert_eq!(0, nutexb::footer::stored_name_len(b""));
    assert_eq!(63, nutexb::footer::stored_name_len(&[b'x'; 100]));
}

#[test]
fn write_cuts_a_long_name_of_a_footer() {
    let mut file = small_file();
    file.footer.string = vec![b'n'; 70];
    let written = file.write();
    assert_eq!(3 + 64 + 112, written.len());
    let read = NutexbFile::read(&written).unwrap();
    assert_eq!(vec![b'n'; 63], read.footer.string);
    assert_eq!(file.data, read.data);
    assert_eq!(file.layer_mipmaps, read.layer_mipmaps);
}

#[test]
fn read_rejects_a_wrong_marker() {
    let good = small_file_bytes();
    let start = good.len() - 112;
    let mut wrong = good.clone();
    wrong[start + 1] = b'Y';
    assert_eq!(Err(ReadError::MalformedContainer), NutexbFile::read(&wrong));
    let mut wrong = good.clone();
    wrong[start + 106] = b'N';
    assert_eq!(Err(ReadError::MalformedContainer), NutexbFile::read(&wrong));
}

#[test]
fn read_rejects_a_name_without_end() {
    let mut wrong = small_file_bytes();
    let start = wrong.len() - 112;
    for byte in &mut wrong[start + 4..start + 68] {
        *byte = b'x';
    }
    assert_eq!(Err(ReadError::MalformedContainer), NutexbFile::read(&wrong));
    // With a zero in the last byte of the field the name has 63 bytes.
    wrong[start + 67] = 0;
    assert_eq!(vec![b'x'; 63], NutexbFile::read(&wrong).unwrap().footer.string);
}

#[test]
fn read_rejects_an_unknown_format() {
    let mut wrong = small_file_bytes();
    let start = wrong.len() - 112;
    wrong[start + 80] = 0xe6;
    assert_eq!(Err(ReadError::FormatUnsupported), NutexbFile::read(&wrong));
}

#[test]
fn read_rejects_missing_tables() {
    let mut wrong = small_file_bytes();
    let start = wrong.len() - 112;
    wrong[start + 96] = 2;
    assert_eq!(Err(ReadError::MalformedContainer), NutexbFile::read(&wrong));
    wrong[start + 96] = 0;
    let file = NutexbFile::read(&wrong).unwrap();
    assert_eq!(0, file.layer_mipmaps.len());
    assert_eq!(3 + 64, file.data.len());
    wrong[start + 99] = 0xff;
    assert_eq!(Err(ReadError::MalformedContainer), NutexbFile::read(&wrong));
}

#[test]
fn tables_hold_at_most_sixteen_sizes() {
    let mut file = small_file();
    file.footer.mipmap_count = 20;
    file.layer_mipmaps = vec![LayerMipmaps {
        mipmap_sizes: (1..=20).collect(),
    }];
    let written = file.write();
    assert_eq!(3 + 64 + 112, written.len());
    let read = NutexbFile::read(&written).unwrap();
    assert_eq!(file.data, read.data);
    assert_eq!(file.footer, read.footer);
    assert_eq!((1..=16).collect::<Vec<u32>>(), read.layer_mipmaps[0].mipmap_sizes);
}

#[test]
fn tables_are_read_as_long_as_the_mipmap_count() {
    let mut written = small_file_bytes();
    let start = written.len() - 112;
    written[start + 88] = 3;
    let read = NutexbFile::read(&written).unwrap();
    assert_eq!(vec![0x0403_0201, 7, 0], read.layer_mipmaps[0].mipmap_sizes);
    written[start + 88] = 0;
    let read = NutexbFile::read(&written).unwrap();
    assert_eq!(Vec::<u32>::new(), read.layer_mipmaps[0].mipmap_sizes);
}

#[test]
fn create_rejects_short_data() {
    let mut surface = rgba_4x4();
    surface.image_data.pop();
    assert_eq!(Err(SwizzleError::NotEnoughData), create_nutexb(&surface, "short"));
    assert_eq!(
        Err(SwizzleError::NotEnoughData),
        NutexbFile::from_surface(&surface, "short")
    );
    assert_eq!(
        Err(SwizzleError::NotEnoughData),
        NutexbFile::from_image(4, 4, &surface.image_data, "short")
    );
}

#[test]
fn deswizzled_data_rejects_short_data() {
    let mut file = create_nutexb(&rgba_4x4(), "rgba").unwrap();
    file.data.pop();
    assert_eq!(Err(SwizzleError::NotEnoughData), file.deswizzled_data());
    file.footer.unk3 = 0;
    assert_eq!(Ok(file.data.clone()), file.deswizzled_data());
}

#[test]
fn from_image_makes_an_srgb_texture() {
    let pixels = bytes(3 * 2 * 4);
    let file = NutexbFile::from_image(3, 2, &pixels, "image").unwrap();
    assert_eq!(NutexbFormat::R8G8B8A8Srgb, file.footer.image_format);
    assert_eq!((3, 2, 1), (file.footer.width, file.footer.height, file.footer.depth));
    assert_eq!((1, 1), (file.footer.mipmap_count, file.footer.layer_count));
    assert_eq!(vec![LayerMipmaps { mipmap_sizes: vec![24] }], file.layer_mipmaps);
    assert_eq!(Ok(pixels), file.deswizzled_data());
    let surface = Surface {
        width: 3,
        height: 2,
        depth: 1,
        image_data: bytes(24),
        mipmap_count: 1,
        layer_count: 1,
        image_format: NutexbFormat::R8G8B8A8Srgb,
    };
    assert_eq!(NutexbFile::from_surface(&surface, "image"), Ok(file));
}

#[test]
fn optimize_size_removes_padding() {
    let mut file = create_nutexb(&rgba_4x4(), "rgba").unwrap();
    let tiled = file.data.clone();
    file.data.extend_from_slice(&[7; 100]);
    file.footer.data_size = 0;
    assert_eq!(Ok(()), file.optimize_size());
    assert_eq!(tiled, file.data);
    assert_eq!(512, file.footer.data_size);
}

#[test]
fn optimize_size_fills_up_with_zeros() {
    let mut file = create_nutexb(&rgba_4x4(), "rgba").unwrap();
    file.data.truncate(10);
    let start = file.data.clone();
    assert_eq!(Ok(()), file.optimize_size());
    assert_eq!(512, file.data.len());
    assert_eq!(start[..], file.data[..10]);
    assert!(file.data[10..].iter().all(|&byte| byte == 0));
}

#[test]
fn optimize_size_of_unswizzled_data() {
    let mut file = create_nutexb_unswizzled(&rgba_4x4(), "rgba");
    file.data.extend_from_slice(&[1; 10]);
    assert_eq!(Ok(()), file.optimize_size());
    assert_eq!(rgba_4x4().image_data, file.data);
    assert_eq!(64, file.footer.data_size);
}

#[test]
fn optimize_size_leaves_a_file_that_is_too_large() {
    let mut file = create_nutexb(&rgba_4x4(), "rgba").unwrap();
    file.footer.width = u32::MAX;
    file.footer.height = u32::MAX;
    file.footer.depth = u32::MAX;
    let before = file.clone();
    assert_eq!(Err(SwizzleError::SurfaceTooLarge), file.optimize_size());
    assert_eq!(before, file);
}

#[test]
fn footer_clone_is_equal() {
    let footer = small_file().footer;
    assert_eq!(footer, footer.clone());
}

#[test]
fn write_nutexb_writes_the_created_file() {
    let surface = rgba_4x4();
    let file = create_nutexb(&surface, "rgba").unwrap();
    assert_eq!(Ok(file.write()), nutexb::write_nutexb("rgba", &surface));
    assert_eq!(Ok(file.write()), nutexb::convert::write_surface("rgba", &surface));
    let plain = create_nutexb_unswizzled(&surface, "rgba");
    assert_eq!(Ok(plain.write()), nutexb::write_nutexb_unswizzled("rgba", &surface));
    assert_eq!(plain.write(), nutexb::convert::write_surface_unswizzled("rgba", &surface));
}

fn describe<N: nutexb::ToNutexb>(image: &N) -> nutexb::ImageDescription {
    nutexb::ImageDescription {
        width: image.width(),
        height: image.height(),
        depth: image.depth(),
        image_data: image.image_data(),
        mipmap_count: image.mipmap_count(),
        layer_count: image.layer_count(),
        image_format: image.image_format(),
    }
}

struct Broken;

impl nutexb::ToNutexb for Broken {
    fn description(&self) -> nutexb::ImageDescription {
        describe(self)
    }
    fn width(&self) -> u32 {
        1
    }
    fn height(&self) -> u32 {
        1
    }
    fn depth(&self) -> u32 {
        1
    }
    fn image_data(&self) -> Result<Vec<u8>, nutexb::CreateError> {
        Ok(vec![1, 2, 3])
    }
    fn mipmap_count(&self) -> u32 {
        1
    }
    fn layer_count(&self) -> u32 {
        1
    }
    fn image_format(&self) -> Result<NutexbFormat, nutexb::CreateError> {
        Ok(NutexbFormat::R8G8B8A8Unorm)
    }
}

struct NoFormat;

impl nutexb::ToNutexb for NoFormat {
    fn description(&self) -> nutexb::ImageDescription {
        describe(self)
    }
    fn width(&self) -> u32 {
        1
    }
    fn height(&self) -> u32 {
        1
    }
    fn depth(&self) -> u32 {
        1
    }
    fn image_data(&self) -> Result<Vec<u8>, nutexb::CreateError> {
        Err(nutexb::CreateError::ImageData)
    }
    fn mipmap_count(&self) -> u32 {
        1
    }
    fn layer_count(&self) -> u32 {
        1
    }
    fn image_format(&self) -> Result<NutexbFormat, nutexb::CreateError> {
        Err(nutexb::CreateError::FormatUnsupported)
    }
}

struct NoData;

impl nutexb::ToNutexb for NoData {
    fn description(&self) -> nutexb::ImageDescription {
        describe(self)
    }
    fn width(&self) -> u32 {
        1
    }
    fn height(&self) -> u32 {
        1
    }
    fn depth(&self) -> u32 {
        1
    }
    fn image_data(&self) -> Result<Vec<u8>, nutexb::CreateError> {
        Err(nutexb::CreateError::ImageData)
    }
    fn mipmap_count(&self) -> u32 {
        1
    }
    fn layer_count(&self) -> u32 {
        1
    }
    fn image_format(&self) -> Result<NutexbFormat, nutexb::CreateError> {
        Ok(NutexbFormat::R8Unorm)
    }
}

#[test]
fn description_of_a_surface_holds_its_parts() {
    let surface = rgba_4x4();
    assert_eq!(4, nutexb::ToNutexb::width(&surface));
    assert_eq!(4, nutexb::ToNutexb::height(&surface));
    assert_eq!(1, nutexb::ToNutexb::depth(&surface));
    assert_eq!(1, nutexb::ToNutexb::mipmap_count(&surface));
    assert_eq!(1, nutexb::ToNutexb::layer_count(&surface));
    assert_eq!(Ok(surface.image_data.clone()), nutexb::ToNutexb::image_data(&surface));
    assert_eq!(
        Ok(NutexbFormat::R8G8B8A8Unorm),
        nutexb::ToNutexb::image_format(&surface)
    );
}

#[test]
fn write_nutexb_reports_the_first_error_of_the_image() {
    // The format is asked for before the image data.
    assert_eq!(
        Err(nutexb::CreateError::FormatUnsupported),
        nutexb::write_nutexb("none", &NoFormat)
    );
}

#[test]
fn write_nutexb_reports_missing_image_data() {
    assert_eq!(
        Err(nutexb::CreateError::ImageData),
        nutexb::write_nutexb("none", &NoData)
    );
    assert_eq!(
        Err(nutexb::CreateError::ImageData),
        nutexb::write_nutexb_unswizzled("none", &NoData)
    );
}

#[test]
fn write_nutexb_reports_errors() {
    assert_eq!(
        Err(nutexb::CreateError::Swizzle(SwizzleError::NotEnoughData)),
        nutexb::write_nutexb("broken", &Broken)
    );
    assert_eq!(
        Err(nutexb::CreateError::FormatUnsupported),
        nutexb::write_nutexb("none", &NoFormat)
    );
    assert_eq!(
        Err(nutexb::CreateError::FormatUnsupported),
        nutexb::write_nutexb_unswizzled("none", &NoFormat)
    );
    let written = nutexb::write_nutexb_unswizzled("broken", &Broken).unwrap();
    assert_eq!(vec![1, 2, 3], NutexbFile::read(&written).unwrap().data);
}
