//! Creating a nutexb file from the image data of a surface.

use crate::file::{
    file_bytes,
    footer_layout,
    is_swizzled,
    lemma_file_round_trip,
    parse,
    FileView,
    NutexbFile,
};
use crate::footer::{
    copy_bytes,
    lemma_stored_name,
    lemma_table_round_trip,
    stored_name,
    stored_name_len,
    SWIZZLED,
    FooterView,
    NutexbFooter,
    ReadError,
};
use crate::format::NutexbFormat;
use crate::mipmaps::{calculate_layer_mip_sizes, mip_table};
use crate::surface::{lemma_surface_round_trip, swizzle_surface, SurfaceLayout};
use crate::tegra_swizzle::SwizzleError;
use vstd::prelude::*;
use vstd::slice::slice_subrange;
use vstd::string::StringSliceAdditionalSpecFns;

verus! {

/// A surface describing a contiguous chunk of image data for the array layers and mipmaps used to create a [NutexbFile].
#[derive(Debug, Clone, PartialEq, Eq)]
pub struct Surface {
    /// The width of the image in pixels.
    pub width: u32,
    /// The height of the image in pixels.
    pub height: u32,
    /// The depth of the image in pixels. This should be `1` for 2D textures.
    pub depth: u32,
    /// The raw image data for each layer and mipmap before applying any swizzling.
    /// Data should be arranged in row-major order with no padding between arrays and mipmaps.
    pub image_data: Vec<u8>,
    /// The number of mipmaps or `1` to indicate no mipmaps.
    pub mipmap_count: u32,
    /// The number of array layers or `1` to indicate no layers.
    /// This should be `6` for cube maps.
    pub layer_count: u32,
    /// The format of the data stored in the image data.
    pub image_format: NutexbFormat,
}

/// A surface as plain values.
pub struct SurfaceView {
    pub width: u32,
    pub height: u32,
    pub depth: u32,
    pub image_data: Seq<u8>,
    pub mipmap_count: u32,
    pub layer_count: u32,
    pub image_format: NutexbFormat,
}

impl View for Surface {
    type V = SurfaceView;

    open spec fn view(&self) -> SurfaceView {
        SurfaceView {
            width: self.width,
            height: self.height,
            depth: self.depth,
            image_data: self.image_data@,
            mipmap_count: self.mipmap_count,
            layer_count: self.layer_count,
            image_format: self.image_format,
        }
    }
}

/// The layout of the image data of a surface with the given dimensions.
pub open spec fn layout_of(
    width: u32,
    height: u32,
    depth: u32,
    image_format: NutexbFormat,
    mipmap_count: u32,
    layer_count: u32,
) -> SurfaceLayout {
    SurfaceLayout {
        width: width as usize,
        height: height as usize,
        depth: depth as usize,
        block_dim: image_format.spec_block_dim(),
        bytes_per_pixel: image_format.unit_bytes() as usize,
        mipmap_count: mipmap_count as usize,
        layer_count: layer_count as usize,
    }
}

impl SurfaceView {
    /// The layout of the image data of the surface.
    pub open spec fn layout(self) -> SurfaceLayout {
        layout_of(
            self.width,
            self.height,
            self.depth,
            self.image_format,
            self.mipmap_count,
            self.layer_count,
        )
    }
}

/// The value of `unk2` for a swizzled texture: one value for textures with
/// depth, another for textures with several layers, a third for all others.
pub open spec fn spec_unk2(depth: u32, layer_count: u32) -> u32 {
    if depth > 1 {
        8
    } else if layer_count > 1 {
        9
    } else {
        4
    }
}

/// The same mipmap table for each layer.
pub open spec fn mip_tables(
    width: u32,
    height: u32,
    depth: u32,
    image_format: NutexbFormat,
    mipmap_count: u32,
    layer_count: u32,
) -> Seq<Seq<u32>> {
    Seq::new(
        layer_count as nat,
        |layer: int|
            mip_table(width as int, height as int, depth as int, image_format, mipmap_count as int),
    )
}

/// The file with the swizzled image data of a surface and the given name.
pub open spec fn swizzled_file(surface: SurfaceView, name: Seq<u8>) -> FileView {
    FileView {
        data: surface.layout().swizzled(surface.image_data),
        layer_mipmaps: mip_tables(
            surface.width,
            surface.height,
            surface.depth,
            surface.image_format,
            surface.mipmap_count,
            surface.layer_count,
        ),
        footer: FooterView {
            string: stored_name(name),
            width: surface.width,
            height: surface.height,
            depth: surface.depth,
            image_format: surface.image_format,
            unk2: spec_unk2(surface.depth, surface.layer_count),
            mipmap_count: surface.mipmap_count,
            unk3: 0x1000,
            layer_count: surface.layer_count,
            data_size: (surface.layout().tiled_size() % 0x1_0000_0000) as u32,
            version: (1, 2),
        },
    }
}

/// The file with the image data of a surface as it is and the given name.
/// The file counts one mipmap and one layer, whatever the surface counts.
pub open spec fn unswizzled_file(surface: SurfaceView, name: Seq<u8>) -> FileView {
    FileView {
        data: surface.image_data,
        layer_mipmaps: mip_tables(
            surface.width,
            surface.height,
            surface.depth,
            surface.image_format,
            1,
            1,
        ),
        footer: FooterView {
            string: stored_name(name),
            width: surface.width,
            height: surface.height,
            depth: surface.depth,
            image_format: surface.image_format,
            unk2: 2,
            mipmap_count: 1,
            unk3: 0,
            layer_count: 1,
            data_size: (surface.image_data.len() % 0x1_0000_0000) as u32,
            version: (2, 0),
        },
    }
}

/// The value of `unk2` for a swizzled texture.
pub fn unk2(depth: u32, layer_count: u32) -> (value: u32)
    ensures
        value == spec_unk2(depth, layer_count),
{
    if depth > 1 {
        8
    } else if layer_count > 1 {
        9
    } else {
        4
    }
}

/// The bytes of `name` that a file stores.
pub fn name_bytes(name: &str) -> (bytes: Vec<u8>)
    ensures
        bytes@ == stored_name(name.spec_bytes()),
{
    let all = name.as_bytes();
    let len: usize = stored_name_len(all);
    proof {
        lemma_stored_name(all@);
    }
    copy_bytes(slice_subrange(all, 0, len))
}

/// The surface with the given dimensions and image data.
pub open spec fn surface_of(
    width: u32,
    height: u32,
    depth: u32,
    image_data: Seq<u8>,
    mipmap_count: u32,
    layer_count: u32,
    image_format: NutexbFormat,
) -> SurfaceView {
    SurfaceView { width, height, depth, image_data, mipmap_count, layer_count, image_format }
}

/// Creates a [NutexbFile] with the nutexb string set to `name` from the
/// image data of a surface with the given dimensions and format. The image
/// data is swizzled.
pub fn swizzled_nutexb(
    width: u32,
    height: u32,
    depth: u32,
    image_data: &[u8],
    mipmap_count: u32,
    layer_count: u32,
    image_format: NutexbFormat,
    name: &str,
) -> (result: Result<NutexbFile, SwizzleError>)
    ensures
        ({
            let surface = surface_of(
                width,
                height,
                depth,
                image_data@,
                mipmap_count,
                layer_count,
                image_format,
            );
            match result {
                Ok(file) => {
                    &&& surface.layout().linear_size() <= image_data@.len()
                    &&& surface.layout().tiled_size() <= usize::MAX
                    &&& file@ == swizzled_file(surface, name.spec_bytes())
                },
                Err(SwizzleError::NotEnoughData) => image_data@.len()
                    < surface.layout().linear_size(),
                Err(SwizzleError::SurfaceTooLarge) => {
                    &&& surface.layout().linear_size() <= image_data@.len()
                    &&& surface.layout().tiled_size() > usize::MAX
                },
            }
        }),
{
    let layout = SurfaceLayout {
        width: width as usize,
        height: height as usize,
        depth: depth as usize,
        block_dim: image_format.block_dim(),
        bytes_per_pixel: image_format.bytes_per_pixel() as usize,
        mipmap_count: mipmap_count as usize,
        layer_count: layer_count as usize,
    };
    let data = match swizzle_surface(&layout, image_data) {
        Ok(data) => data,
        Err(error) => {
            return Err(error);
        },
    };
    let layer_mipmaps = calculate_layer_mip_sizes(
        width,
        height,
        depth,
        image_format,
        mipmap_count,
        layer_count,
    );
    let size: u32 = (data.len() as u64 % 0x1_0000_0000) as u32;
    let file = NutexbFile {
        data,
        layer_mipmaps,
        footer: NutexbFooter {
            string: name_bytes(name),
            width,
            height,
            depth,
            image_format,
            unk2: unk2(depth, layer_count),
            mipmap_count,
            unk3: SWIZZLED,
            layer_count,
            data_size: size,
            version: (1, 2),
        },
    };
    proof {
        let surface = surface_of(
            width,
            height,
            depth,
            image_data@,
            mipmap_count,
            layer_count,
            image_format,
        );
        assert(file@.layer_mipmaps =~= swizzled_file(surface, name.spec_bytes()).layer_mipmaps);
    }
    Ok(file)
}

/// Creates a [NutexbFile] from `image` with the nutexb string set to `name`.
/// The data in `image` is swizzled according to the specified dimensions and format.
pub fn create_nutexb(image: &Surface, name: &str) -> (result: Result<NutexbFile, SwizzleError>)
    ensures
        match result {
            Ok(file) => {
                &&& image@.layout().linear_size() <= image.image_data@.len()
                &&& image@.layout().tiled_size() <= usize::MAX
                &&& file@ == swizzled_file(image@, name.spec_bytes())
            },
            Err(SwizzleError::NotEnoughData) => image.image_data@.len()
                < image@.layout().linear_size(),
            Err(SwizzleError::SurfaceTooLarge) => {
                &&& image@.layout().linear_size() <= image.image_data@.len()
                &&& image@.layout().tiled_size() > usize::MAX
            },
        },
{
    swizzled_nutexb(
        image.width,
        image.height,
        image.depth,
        image.image_data.as_slice(),
        image.mipmap_count,
        image.layer_count,
        image.image_format,
        name,
    )
}

/// Creates a [NutexbFile] from `surface` with the nutexb string set to `name` without any swizzling.
/// This assumes no layers or mipmaps for `surface`.
pub fn create_nutexb_unswizzled(surface: &Surface, name: &str) -> (file: NutexbFile)
    ensures
        file@ == unswizzled_file(surface@, name.spec_bytes()),
{
    let width = surface.width;
    let height = surface.height;
    let depth = surface.depth;
    let data = copy_bytes(surface.image_data.as_slice());
    let image_format = surface.image_format;
    let layer_mipmaps = calculate_layer_mip_sizes(width, height, depth, image_format, 1, 1);
    let size: u32 = (data.len() as u64 % 0x1_0000_0000) as u32;
    let file = NutexbFile {
        data,
        layer_mipmaps,
        footer: NutexbFooter {
            string: name_bytes(name),
            width,
            height,
            depth,
            image_format,
            unk2: 2,
            mipmap_count: 1,
            unk3: 0,
            layer_count: 1,
            data_size: size,
            version: (2, 0),
        },
    };
    proof {
        assert(file@.layer_mipmaps =~= unswizzled_file(surface@, name.spec_bytes()).layer_mipmaps);
    }
    file
}

impl NutexbFile {
    /// Creates a [NutexbFile] from `image` with the nutexb string set to `name`.
    /// The data in `image` is swizzled according to the specified dimensions and format.
    pub fn from_surface(image: &Surface, name: &str) -> (result: Result<NutexbFile, SwizzleError>)
        ensures
            match result {
                Ok(file) => {
                    &&& image@.layout().linear_size() <= image.image_data@.len()
                    &&& image@.layout().tiled_size() <= usize::MAX
                    &&& file@ == swizzled_file(image@, name.spec_bytes())
                },
                Err(SwizzleError::NotEnoughData) => image.image_data@.len()
                    < image@.layout().linear_size(),
                Err(SwizzleError::SurfaceTooLarge) => {
                    &&& image@.layout().linear_size() <= image.image_data@.len()
                    &&& image@.layout().tiled_size() > usize::MAX
                },
            },
    {
        create_nutexb(image, name)
    }

    /// Creates a swizzled 2D [NutexbFile] with the Nutexb string set to
    /// `name` and without mipmaps from the pixels of an image of `width` by
    /// `height` pixels. `pixels` holds four bytes for each pixel, row by row.
    pub fn from_image(width: u32, height: u32, pixels: &[u8], name: &str) -> (result: Result<
        NutexbFile,
        SwizzleError,
    >)
        ensures
            ({
                let surface = surface_of(
                    width,
                    height,
                    1,
                    pixels@,
                    1,
                    1,
                    NutexbFormat::R8G8B8A8Srgb,
                );
                match result {
                    Ok(file) => {
                        &&& surface.layout().linear_size() <= pixels@.len()
                        &&& surface.layout().tiled_size() <= usize::MAX
                        &&& file@ == swizzled_file(surface, name.spec_bytes())
                    },
                    Err(SwizzleError::NotEnoughData) => pixels@.len()
                        < surface.layout().linear_size(),
                    Err(SwizzleError::SurfaceTooLarge) => {
                        &&& surface.layout().linear_size() <= pixels@.len()
                        &&& surface.layout().tiled_size() > usize::MAX
                    },
                }
            }),
    {
        // No depth for a 2d image
        swizzled_nutexb(width, height, 1, pixels, 1, 1, NutexbFormat::R8G8B8A8Srgb, name)
    }

    /// Creates a [NutexbFile] from `surface` with the nutexb string set to `name` without any swizzling.
    /// This assumes no layers or mipmaps for `image`.
    /// Prefer [NutexbFile::from_surface] for better memory access performance in most cases.
    pub fn from_surface_unswizzled(surface: &Surface, name: &str) -> (file: NutexbFile)
        ensures
            file@ == unswizzled_file(surface@, name.spec_bytes()),
    {
        create_nutexb_unswizzled(surface, name)
    }
}

/// Reading the bytes of a file made from a surface gives the image data and
/// the footer of that file byte for byte, and also its mipmap tables if the
/// surface has no more than sixteen mipmaps.
pub proof fn lemma_swizzled_file_round_trip(surface: SurfaceView, name: Seq<u8>)
    ensures
        parse(file_bytes(swizzled_file(surface, name))) is Ok,
        parse(file_bytes(swizzled_file(surface, name))).unwrap().data == swizzled_file(
            surface,
            name,
        ).data,
        parse(file_bytes(swizzled_file(surface, name))).unwrap().footer == swizzled_file(
            surface,
            name,
        ).footer,
        surface.mipmap_count <= 16 ==> parse(file_bytes(swizzled_file(surface, name))) == Ok::<
            FileView,
            ReadError,
        >(swizzled_file(surface, name)),
{
    let file = swizzled_file(surface, name);
    lemma_file_round_trip(file);
    lemma_stored_name(name);
    let read = parse(file_bytes(file)).unwrap();
    if surface.mipmap_count <= 16 {
        assert forall|layer: int| 0 <= layer < file.layer_mipmaps.len() implies read.layer_mipmaps[layer]
            == file.layer_mipmaps[layer] by {
            lemma_table_round_trip(file.layer_mipmaps[layer], surface.mipmap_count);
        }
        assert(read.layer_mipmaps =~= file.layer_mipmaps);
    }
}

/// Reading the bytes of a file made from a surface without swizzling gives
/// that file, and with it the image data of the surface unchanged.
pub proof fn lemma_unswizzled_file_round_trip(surface: SurfaceView, name: Seq<u8>)
    ensures
        parse(file_bytes(unswizzled_file(surface, name))) == Ok::<FileView, ReadError>(
            unswizzled_file(surface, name),
        ),
        unswizzled_file(surface, name).data == surface.image_data,
        !is_swizzled(unswizzled_file(surface, name).footer),
{
    let file = unswizzled_file(surface, name);
    lemma_file_round_trip(file);
    lemma_stored_name(name);
    let read = parse(file_bytes(file)).unwrap();
    assert forall|layer: int| 0 <= layer < file.layer_mipmaps.len() implies read.layer_mipmaps[layer]
        == file.layer_mipmaps[layer] by {
        lemma_table_round_trip(file.layer_mipmaps[layer], 1);
    }
    assert(read.layer_mipmaps =~= file.layer_mipmaps);
}

/// Deswizzling the image data of a file made from a surface gives the image
/// data of the surface, without the bytes that follow its last mipmap.
pub proof fn lemma_swizzled_file_deswizzles(surface: SurfaceView, name: Seq<u8>)
    requires
        surface.layout().linear_size() <= surface.image_data.len(),
    ensures
        is_swizzled(swizzled_file(surface, name).footer),
        footer_layout(swizzled_file(surface, name).footer) == surface.layout(),
        surface.layout().deswizzled(swizzled_file(surface, name).data)
            == surface.image_data.subrange(0, surface.layout().linear_size()),
{
    lemma_surface_round_trip(surface.layout(), surface.image_data);
}

/// Errors while creating a nutexb file from an image of another kind.
#[derive(Debug, Clone, Copy, PartialEq, Eq, Structural)]
pub enum CreateError {
    /// The image could not give its image data.
    ImageData,
    /// The format of the image is not a supported nutexb format.
    FormatUnsupported,
    /// The image data could not be swizzled.
    Swizzle(SwizzleError),
}

/// What an image gives when it is asked for the parts of a surface: one
/// answer for each method of [`ToNutexb`].
#[derive(Debug, PartialEq, Eq)]
pub struct ImageDescription {
    pub width: u32,
    pub height: u32,
    pub depth: u32,
    pub image_data: Result<Vec<u8>, CreateError>,
    pub mipmap_count: u32,
    pub layer_count: u32,
    pub image_format: Result<NutexbFormat, CreateError>,
}

/// A trait for creating a Nutexb from unswizzled image data.
/// Implement this trait for an image type to support writing a nutexb file with [write_nutexb].
///
/// An image answers the same on every call: each method gives the part of
/// [`ToNutexb::description`] that has its name.
pub trait ToNutexb {
    /// The answers of all the other methods.
    spec fn description(&self) -> ImageDescription;

    fn width(&self) -> (width: u32)
        ensures
            width == self.description().width,
    ;

    fn height(&self) -> (height: u32)
        ensures
            height == self.description().height,
    ;

    fn depth(&self) -> (depth: u32)
        ensures
            depth == self.description().depth,
    ;

    /// The raw image data for each layer and mipmap before applying any swizzling.
    fn image_data(&self) -> (data: Result<Vec<u8>, CreateError>)
        ensures
            match data {
                Ok(bytes) => self.description().image_data matches Ok(described)
                    && described@ == bytes@,
                Err(error) => self.description().image_data matches Err(described)
                    && described == error,
            },
    ;

    fn mipmap_count(&self) -> (count: u32)
        ensures
            count == self.description().mipmap_count,
    ;

    fn layer_count(&self) -> (count: u32)
        ensures
            count == self.description().layer_count,
    ;

    fn image_format(&self) -> (format: Result<NutexbFormat, CreateError>)
        ensures
            format == self.description().image_format,
    ;
}

impl ToNutexb for Surface {
    open spec fn description(&self) -> ImageDescription {
        ImageDescription {
            width: self.width,
            height: self.height,
            depth: self.depth,
            image_data: Ok(self.image_data),
            mipmap_count: self.mipmap_count,
            layer_count: self.layer_count,
            image_format: Ok(self.image_format),
        }
    }

    fn width(&self) -> (width: u32) {
        self.width
    }

    fn height(&self) -> (height: u32) {
        self.height
    }

    fn depth(&self) -> (depth: u32) {
        self.depth
    }

    fn image_data(&self) -> (data: Result<Vec<u8>, CreateError>) {
        Ok(copy_bytes(self.image_data.as_slice()))
    }

    fn mipmap_count(&self) -> (count: u32) {
        self.mipmap_count
    }

    fn layer_count(&self) -> (count: u32) {
        self.layer_count
    }

    fn image_format(&self) -> (format: Result<NutexbFormat, CreateError>) {
        Ok(self.image_format)
    }
}

/// The surface that an image describes: its dimensions, counts, format and
/// image data, or the error of the first of format and image data that the
/// image cannot give.
pub open spec fn described_surface(image: ImageDescription) -> Result<SurfaceView, CreateError> {
    match image.image_format {
        Err(error) => Err(error),
        Ok(image_format) => match image.image_data {
            Err(error) => Err(error),
            Ok(image_data) => Ok(
                SurfaceView {
                    width: image.width,
                    height: image.height,
                    depth: image.depth,
                    image_data: image_data@,
                    mipmap_count: image.mipmap_count,
                    layer_count: image.layer_count,
                    image_format,
                },
            ),
        },
    }
}

/// The surface that an image describes.
fn surface_from<N: ToNutexb>(image: &N) -> (result: Result<Surface, CreateError>)
    ensures
        match result {
            Ok(surface) => described_surface(image.description()) == Ok::<SurfaceView, CreateError>(surface@),
            Err(error) => described_surface(image.description()) == Err::<SurfaceView, CreateError>(error),
        },
{
    let width = image.width();
    let height = image.height();
    let depth = image.depth();
    let image_format = match image.image_format() {
        Ok(image_format) => image_format,
        Err(error) => {
            return Err(error);
        },
    };
    let image_data = match image.image_data() {
        Ok(image_data) => image_data,
        Err(error) => {
            return Err(error);
        },
    };
    let mipmap_count = image.mipmap_count();
    let layer_count = image.layer_count();
    Ok(Surface { width, height, depth, image_data, mipmap_count, layer_count, image_format })
}

/// The bytes of the file that [`create_nutexb`] makes from a surface.
pub fn write_surface(name: &str, surface: &Surface) -> (result: Result<Vec<u8>, SwizzleError>)
    ensures
        match result {
            Ok(bytes) => {
                &&& surface@.layout().linear_size() <= surface.image_data@.len()
                &&& surface@.layout().tiled_size() <= usize::MAX
                &&& bytes@ == file_bytes(swizzled_file(surface@, name.spec_bytes()))
            },
            Err(SwizzleError::NotEnoughData) => surface.image_data@.len()
                < surface@.layout().linear_size(),
            Err(SwizzleError::SurfaceTooLarge) => {
                &&& surface@.layout().linear_size() <= surface.image_data@.len()
                &&& surface@.layout().tiled_size() > usize::MAX
            },
        },
{
    match create_nutexb(surface, name) {
        Ok(file) => Ok(file.write()),
        Err(error) => Err(error),
    }
}

/// The bytes of the file that [`create_nutexb_unswizzled`] makes from a
/// surface.
pub fn write_surface_unswizzled(name: &str, surface: &Surface) -> (bytes: Vec<u8>)
    ensures
        bytes@ == file_bytes(unswizzled_file(surface@, name.spec_bytes())),
{
    create_nutexb_unswizzled(surface, name).write()
}

/// Creates a [NutexbFile] with the nutexb string set to `name` from the
/// surface that `image` describes, and gives its bytes.
///
/// An image that cannot give its format or its image data gives its own
/// error. Image data that is too short for the dimensions, or too long once
/// swizzled, gives the error of the swizzling.
pub fn write_nutexb<N: ToNutexb>(name: &str, image: &N) -> (result: Result<Vec<u8>, CreateError>)
    ensures
        match described_surface(image.description()) {
            Err(error) => result == Err::<Vec<u8>, CreateError>(error),
            Ok(surface) => if surface.image_data.len() < surface.layout().linear_size() {
                result == Err::<Vec<u8>, CreateError>(
                    CreateError::Swizzle(SwizzleError::NotEnoughData),
                )
            } else if surface.layout().tiled_size() > usize::MAX {
                result == Err::<Vec<u8>, CreateError>(
                    CreateError::Swizzle(SwizzleError::SurfaceTooLarge),
                )
            } else {
                &&& result matches Ok(bytes)
                &&& bytes@ == file_bytes(swizzled_file(surface, name.spec_bytes()))
            },
        },
{
    let surface = match surface_from(image) {
        Ok(surface) => surface,
        Err(error) => {
            return Err(error);
        },
    };
    match write_surface(name, &surface) {
        Ok(bytes) => Ok(bytes),
        Err(error) => Err(CreateError::Swizzle(error)),
    }
}

/// Writes a nutexb without any swizzling: creates a [NutexbFile] with the
/// nutexb string set to `name` from the surface that `image` describes,
/// with its image data as it is, and gives its bytes.
///
/// An image that cannot give its format or its image data gives its own
/// error. There is no other error.
pub fn write_nutexb_unswizzled<N: ToNutexb>(name: &str, image: &N) -> (result: Result<
    Vec<u8>,
    CreateError,
>)
    ensures
        match described_surface(image.description()) {
            Err(error) => result == Err::<Vec<u8>, CreateError>(error),
            Ok(surface) => {
                &&& result matches Ok(bytes)
                &&& bytes@ == file_bytes(unswizzled_file(surface, name.spec_bytes()))
            },
        },
{
    let surface = match surface_from(image) {
        Ok(surface) => surface,
        Err(error) => {
            return Err(error);
        },
    };
    Ok(write_surface_unswizzled(name, &surface))
}

} // verus!
