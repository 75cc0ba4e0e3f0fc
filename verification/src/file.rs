//! A nutexb file in memory, and its form as bytes.
//!
//! The image data comes first, then one mipmap table for each array layer,
//! then the footer. Nothing in front of the footer says how long the image
//! data is, so a file is read from its end: the footer gives the number of
//! layers, the number of layers gives the place of the tables, and the image
//! data is what stands before the tables.

use crate::footer::{
    copy_bytes,
    footer_bytes,
    lemma_footer_fields,
    lemma_footer_round_trip,
    lemma_table_round_trip,
    parse_footer,
    stored_footer,
    table_bytes,
    table_of,
    tables_bytes,
    FooterView,
    NutexbFooter,
    ReadError,
    FOOTER_SIZE,
    LAYER_MIPMAPS_SIZE,
    SWIZZLED,
};
use crate::mipmaps::LayerMipmaps;
use crate::surface::{
    checked_linear_size,
    checked_tiled_size,
    deswizzle_surface,
    SurfaceLayout,
};
use crate::tegra_swizzle::SwizzleError;
use vstd::prelude::*;
use vstd::slice::slice_subrange;

verus! {

/// The data stored in a nutexb file like `"def_001_col.nutexb"`.
#[derive(Debug, Clone, PartialEq, Eq)]
pub struct NutexbFile {
    /// Combined image data for all array layer and mipmap levels.
    pub data: Vec<u8>,
    /// The size of the mipmaps for each array layer.
    ///
    /// Most nutexb files use swizzled image data, so these sizes won't add
    /// up to the length of the image data.
    pub layer_mipmaps: Vec<LayerMipmaps>,
    /// Information about the image stored in the image data.
    pub footer: NutexbFooter,
}

/// A file as plain values.
pub struct FileView {
    pub data: Seq<u8>,
    pub layer_mipmaps: Seq<Seq<u32>>,
    pub footer: FooterView,
}

/// The mipmap tables as plain values.
pub open spec fn tables_view(tables: Seq<LayerMipmaps>) -> Seq<Seq<u32>> {
    Seq::new(tables.len(), |layer: int| tables[layer]@)
}

impl View for NutexbFile {
    type V = FileView;

    open spec fn view(&self) -> FileView {
        FileView {
            data: self.data@,
            layer_mipmaps: tables_view(self.layer_mipmaps@),
            footer: self.footer@,
        }
    }
}

/// The bytes of a file: the image data, the mipmap tables and the footer.
pub open spec fn file_bytes(file: FileView) -> Seq<u8> {
    file.data + tables_bytes(file.layer_mipmaps) + footer_bytes(file.footer)
}

/// The mipmap tables that stand in `bytes` from `start` on.
pub open spec fn tables_at(bytes: Seq<u8>, start: int, layer_count: u32, mipmap_count: u32) -> Seq<
    Seq<u32>,
> {
    Seq::new(
        layer_count as nat,
        |layer: int|
            table_of(bytes.subrange(start + 64 * layer, start + 64 * layer + 64), mipmap_count),
    )
}

/// What the bytes of a file stand for: a file, or the reason why they are
/// none.
///
/// The last 112 bytes are the footer. Before it stand as many tables of 64
/// bytes as the footer counts layers, and all bytes before the tables are
/// image data, whatever size the footer gives for it.
pub open spec fn parse(bytes: Seq<u8>) -> Result<FileView, ReadError> {
    if bytes.len() < 112 {
        Err(ReadError::MalformedContainer)
    } else {
        match parse_footer(bytes.subrange(bytes.len() - 112, bytes.len() as int)) {
            Err(error) => Err(error),
            Ok(footer) => {
                let data_size = bytes.len() - 112 - 64 * footer.layer_count;
                if data_size < 0 {
                    Err(ReadError::MalformedContainer)
                } else {
                    Ok(
                        FileView {
                            data: bytes.subrange(0, data_size),
                            layer_mipmaps: tables_at(
                                bytes,
                                data_size,
                                footer.layer_count,
                                footer.mipmap_count,
                            ),
                            footer,
                        },
                    )
                }
            },
        }
    }
}

/// The layout of the image data that a footer describes.
pub open spec fn footer_layout(footer: FooterView) -> SurfaceLayout {
    SurfaceLayout {
        width: footer.width as usize,
        height: footer.height as usize,
        depth: footer.depth as usize,
        block_dim: footer.image_format.spec_block_dim(),
        bytes_per_pixel: footer.image_format.unit_bytes() as usize,
        mipmap_count: footer.mipmap_count as usize,
        layer_count: footer.layer_count as usize,
    }
}

/// Whether a footer says that the image data is in the tiled layout.
pub open spec fn is_swizzled(footer: FooterView) -> bool {
    footer.unk3 == SWIZZLED
}

/// The size in bytes that the image data should have according to the
/// footer.
pub open spec fn expected_data_size(footer: FooterView) -> int {
    if is_swizzled(footer) {
        footer_layout(footer).tiled_size()
    } else {
        footer_layout(footer).linear_size()
    }
}

/// `data` cut off or filled up with zeros to `len` bytes.
pub open spec fn resized(data: Seq<u8>, len: int) -> Seq<u8> {
    Seq::new(
        len as nat,
        |i: int|
            if i < data.len() {
                data[i]
            } else {
                0u8
            },
    )
}

/// The layout of the image data that a footer describes.
pub fn layout_of_footer(footer: &NutexbFooter) -> (layout: SurfaceLayout)
    ensures
        layout == footer_layout(footer@),
        layout.valid(),
{
    SurfaceLayout {
        width: footer.width as usize,
        height: footer.height as usize,
        depth: footer.depth as usize,
        block_dim: footer.image_format.block_dim(),
        bytes_per_pixel: footer.image_format.bytes_per_pixel() as usize,
        mipmap_count: footer.mipmap_count as usize,
        layer_count: footer.layer_count as usize,
    }
}

impl NutexbFile {
    /// Reads the file that `bytes` holds.
    pub fn read(bytes: &[u8]) -> (result: Result<NutexbFile, ReadError>)
        ensures
            match result {
                Ok(file) => parse(bytes@) == Ok::<FileView, ReadError>(file@),
                Err(error) => parse(bytes@) == Err::<FileView, ReadError>(error),
            },
            bytes@.len() < 112 ==> result matches Err(ReadError::MalformedContainer),
    {
        let length: usize = bytes.len();
        if length < FOOTER_SIZE {
            return Err(ReadError::MalformedContainer);
        }
        // We need the footer to know the size of the layer mipmaps.
        let footer_start: usize = length - FOOTER_SIZE;
        let footer = match NutexbFooter::read(slice_subrange(bytes, footer_start, length)) {
            Ok(footer) => footer,
            Err(error) => {
                return Err(error);
            },
        };
        // We need the layer mipmaps to know the size of the data section.
        let tables_size: u64 = LAYER_MIPMAPS_SIZE as u64 * (footer.layer_count as u64);
        if tables_size > footer_start as u64 {
            return Err(ReadError::MalformedContainer);
        }
        // The image data takes up the remaining space.
        let data_size: usize = footer_start - tables_size as usize;
        let ghost tables = tables_at(
            bytes@,
            data_size as int,
            footer.layer_count,
            footer.mipmap_count,
        );
        let mut layer_mipmaps: Vec<LayerMipmaps> = Vec::new();
        let mut layer: usize = 0;
        assert(tables_view(layer_mipmaps@) =~= tables.take(0));
        while layer < footer.layer_count as usize
            invariant
                layer <= footer.layer_count,
                data_size + 64 * footer.layer_count + 112 == bytes@.len() == length,
                tables == tables_at(
                    bytes@,
                    data_size as int,
                    footer.layer_count,
                    footer.mipmap_count,
                ),
                layer_mipmaps@.len() == layer,
                tables_view(layer_mipmaps@) == tables.take(layer as int),
            decreases footer.layer_count - layer,
        {
            let start: usize = data_size + LAYER_MIPMAPS_SIZE * layer;
            let table = LayerMipmaps::read(
                slice_subrange(bytes, start, start + LAYER_MIPMAPS_SIZE),
                footer.mipmap_count,
            );
            let ghost read_so_far = layer_mipmaps@;
            layer_mipmaps.push(table);
            proof {
                assert forall|i: int| 0 <= i <= layer implies tables_view(layer_mipmaps@)[i]
                    == tables[i] by {
                    if i < layer {
                        assert(layer_mipmaps@[i] == read_so_far[i]);
                        assert(tables_view(read_so_far)[i] == tables.take(layer as int)[i]);
                    }
                }
                assert(tables_view(layer_mipmaps@) =~= tables.take(layer + 1));
            }
            layer = layer + 1;
        }
        assert(tables.take(footer.layer_count as int) =~= tables);
        let data = copy_bytes(slice_subrange(bytes, 0, data_size));
        Ok(NutexbFile { data, layer_mipmaps, footer })
    }

    /// The bytes of the file.
    pub fn write(&self) -> (bytes: Vec<u8>)
        ensures
            bytes@ == file_bytes(self@),
    {
        let mut bytes = copy_bytes(self.data.as_slice());
        let ghost tables = tables_bytes(self@.layer_mipmaps);
        let mut layer: usize = 0;
        assert(bytes@ =~= self.data@ + tables.take(0));
        while layer < self.layer_mipmaps.len()
            invariant
                layer <= self.layer_mipmaps@.len(),
                tables == tables_bytes(self@.layer_mipmaps),
                bytes@ == self.data@ + tables.take(64 * layer),
            decreases self.layer_mipmaps@.len() - layer,
        {
            let ghost so_far = bytes@;
            self.layer_mipmaps[layer].write(&mut bytes);
            proof {
                let record = table_bytes(self.layer_mipmaps@[layer as int]@);
                assert forall|i: int| 0 <= i < 64 implies record[i] == tables[64 * layer + i] by {
                    assert((64 * layer + i) / 64 == layer && (64 * layer + i) % 64 == i);
                }
                assert(bytes@ =~= self.data@ + tables.take(64 * (layer + 1)));
            }
            layer = layer + 1;
        }
        assert(tables.take(64 * layer) =~= tables);
        self.footer.write(&mut bytes);
        bytes
    }

    /// Deswizzles all the layers and mipmaps in the image data.
    ///
    /// Image data that the footer marks as not swizzled is returned as it
    /// is.
    pub fn deswizzled_data(&self) -> (result: Result<Vec<u8>, SwizzleError>)
        ensures
            match result {
                Ok(linear) => if is_swizzled(self@.footer) {
                    &&& footer_layout(self@.footer).tiled_size() <= self@.data.len()
                    &&& linear@ == footer_layout(self@.footer).deswizzled(self@.data)
                } else {
                    linear@ == self@.data
                },
                Err(SwizzleError::NotEnoughData) => {
                    &&& is_swizzled(self@.footer)
                    &&& self@.data.len() < footer_layout(self@.footer).tiled_size()
                },
                Err(SwizzleError::SurfaceTooLarge) => false,
            },
    {
        if self.footer.unk3 == SWIZZLED {
            let layout = layout_of_footer(&self.footer);
            deswizzle_surface(&layout, self.data.as_slice())
        } else {
            Ok(copy_bytes(self.data.as_slice()))
        }
    }

    /// Resizes the image data to the expected size based on the footer
    /// information by truncating or padding with zeros, and sets the data
    /// size of the footer to the new size.
    ///
    /// Nothing changes if the expected size is more than a `usize` can hold.
    pub fn optimize_size(&mut self) -> (result: Result<(), SwizzleError>)
        ensures
            match result {
                Ok(_) => {
                    &&& expected_data_size(old(self)@.footer) <= usize::MAX
                    &&& final(self)@.data == resized(
                        old(self)@.data,
                        expected_data_size(old(self)@.footer),
                    )
                    &&& final(self)@.layer_mipmaps == old(self)@.layer_mipmaps
                    &&& final(self)@.footer == (FooterView {
                        data_size: (expected_data_size(old(self)@.footer)
                            % 0x1_0000_0000) as u32,
                        ..old(self)@.footer
                    })
                },
                Err(error) => {
                    &&& error == SwizzleError::SurfaceTooLarge
                    &&& expected_data_size(old(self)@.footer) > usize::MAX
                    &&& final(self)@ == old(self)@
                },
            },
    {
        let layout = layout_of_footer(&self.footer);
        let expected = if self.footer.unk3 == SWIZZLED {
            checked_tiled_size(&layout, usize::MAX)
        } else {
            // Not all nutexbs store swizzled surfaces.
            checked_linear_size(&layout, usize::MAX)
        };
        let new_len: usize = match expected {
            Some(new_len) => new_len,
            None => {
                return Err(SwizzleError::SurfaceTooLarge);
            },
        };
        // Remove padding and align the surface to the appropriate size.
        let ghost before = self.data@;
        self.data.truncate(new_len);
        assert(self.data@ =~= resized(before, self.data@.len() as int));
        while self.data.len() < new_len
            invariant
                self.data@.len() <= new_len,
                self.data@.len() >= before.len() || self.data@.len() == new_len,
                self.data@ == resized(before, self.data@.len() as int),
                self.layer_mipmaps == old(self).layer_mipmaps,
                self.footer == old(self).footer,
            decreases new_len - self.data@.len(),
        {
            let ghost so_far = self.data@;
            self.data.push(0u8);
            assert(self.data@ =~= resized(before, self.data@.len() as int));
        }
        self.footer.data_size = (new_len as u64 % 0x1_0000_0000) as u32;
        Ok(())
    }
}

/// Where the parts of a file lie in its bytes.
pub proof fn lemma_file_parts(file: FileView)
    ensures
        file_bytes(file).len() == file.data.len() + 64 * file.layer_mipmaps.len() + 112,
        file_bytes(file).subrange(0, file.data.len() as int) == file.data,
        file_bytes(file).subrange(
            (file.data.len() + 64 * file.layer_mipmaps.len()) as int,
            file_bytes(file).len() as int,
        ) == footer_bytes(file.footer),
        forall|layer: int|
            0 <= layer < file.layer_mipmaps.len() ==> #[trigger] file_bytes(file).subrange(
                file.data.len() + 64 * layer,
                file.data.len() + 64 * layer + 64,
            ) == table_bytes(file.layer_mipmaps[layer]),
{
    let tables = tables_bytes(file.layer_mipmaps);
    let footer = footer_bytes(file.footer);
    let data_size = file.data.len() as int;
    lemma_footer_fields(file.footer);
    lemma_three_parts(file.data, tables, footer);
    assert forall|layer: int| 0 <= layer < file.layer_mipmaps.len() implies #[trigger] file_bytes(
        file,
    ).subrange(data_size + 64 * layer, data_size + 64 * layer + 64) == table_bytes(
        file.layer_mipmaps[layer],
    ) by {
        let record = tables.subrange(64 * layer, 64 * layer + 64);
        lemma_middle_part(file.data, tables, footer, 64 * layer, 64 * layer + 64);
        assert forall|i: int| 0 <= i < 64 implies record[i] == table_bytes(
            file.layer_mipmaps[layer],
        )[i] by {
            assert((64 * layer + i) / 64 == layer && (64 * layer + i) % 64 == i);
        }
        assert(record =~= table_bytes(file.layer_mipmaps[layer]));
    }
}

/// The first and the last of three parts, cut from the whole.
proof fn lemma_three_parts(first: Seq<u8>, second: Seq<u8>, third: Seq<u8>)
    ensures
        (first + second + third).len() == first.len() + second.len() + third.len(),
        (first + second + third).subrange(0, first.len() as int) == first,
        (first + second + third).subrange(
            (first.len() + second.len()) as int,
            (first.len() + second.len() + third.len()) as int,
        ) == third,
{
    let whole = first + second + third;
    assert(whole.subrange(0, first.len() as int) =~= first);
    assert(whole.subrange(
        (first.len() + second.len()) as int,
        (first.len() + second.len() + third.len()) as int,
    ) =~= third);
}

/// A piece of the second of three parts, cut from the whole.
proof fn lemma_middle_part(first: Seq<u8>, second: Seq<u8>, third: Seq<u8>, from: int, to: int)
    requires
        0 <= from <= to <= second.len(),
    ensures
        (first + second + third).subrange(first.len() + from, first.len() + to) == second.subrange(
            from,
            to,
        ),
{
    assert((first + second + third).subrange(first.len() + from, first.len() + to)
        =~= second.subrange(from, to));
}

/// Reading the bytes of a file gives the file as it is stored: the image
/// data and the footer come back byte for byte, except that the name is cut
/// off where the footer cuts it off, and each table comes back with as many
/// sizes as the footer counts mipmaps, or sixteen.
pub proof fn lemma_file_round_trip(file: FileView)
    requires
        file.layer_mipmaps.len() == file.footer.layer_count,
    ensures
        parse(file_bytes(file)) == Ok::<FileView, ReadError>(
            FileView {
                data: file.data,
                layer_mipmaps: Seq::new(
                    file.layer_mipmaps.len(),
                    |layer: int|
                        table_of(table_bytes(file.layer_mipmaps[layer]), file.footer.mipmap_count),
                ),
                footer: stored_footer(file.footer),
            },
        ),
{
    let bytes = file_bytes(file);
    let data_size = file.data.len() as int;
    lemma_file_parts(file);
    lemma_footer_round_trip(file.footer);
    let wanted = Seq::new(
        file.layer_mipmaps.len(),
        |layer: int| table_of(table_bytes(file.layer_mipmaps[layer]), file.footer.mipmap_count),
    );
    let found = tables_at(bytes, data_size, file.footer.layer_count, file.footer.mipmap_count);
    assert forall|layer: int| 0 <= layer < file.layer_mipmaps.len() implies found[layer]
        == wanted[layer] by {
        assert(bytes.subrange(data_size + 64 * layer, data_size + 64 * layer + 64) == table_bytes(
            file.layer_mipmaps[layer],
        ));
    }
    assert(found =~= wanted);
}

/// A file whose name is stored as it is, with one table for each layer and
/// one size for each of at most sixteen mipmaps in each table, is read back
/// from its bytes exactly.
pub proof fn lemma_file_round_trip_exact(file: FileView)
    requires
        file.layer_mipmaps.len() == file.footer.layer_count,
        file.footer.mipmap_count <= 16,
        forall|layer: int|
            0 <= layer < file.layer_mipmaps.len() ==> (#[trigger] file.layer_mipmaps[layer]).len()
                == file.footer.mipmap_count,
        crate::footer::stored_name(file.footer.string) == file.footer.string,
    ensures
        parse(file_bytes(file)) == Ok::<FileView, ReadError>(file),
{
    lemma_file_round_trip(file);
    let tables = Seq::new(
        file.layer_mipmaps.len(),
        |layer: int| table_of(table_bytes(file.layer_mipmaps[layer]), file.footer.mipmap_count),
    );
    assert forall|layer: int| 0 <= layer < file.layer_mipmaps.len() implies tables[layer]
        == file.layer_mipmaps[layer] by {
        lemma_table_round_trip(file.layer_mipmaps[layer], file.footer.mipmap_count);
    }
    assert(tables =~= file.layer_mipmaps);
}

} // verus!
