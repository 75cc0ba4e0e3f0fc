//! The data of a whole surface: every mipmap of every array layer.
//!
//! In both layouts the layers follow one another, and within a layer the
//! mipmaps from the largest to the smallest. Each mipmap is tiled on its own,
//! with a block height that fits its height, so the tiled form of a surface
//! is in general longer than its row-major form.

use crate::format::BlockDim;
use crate::mipmaps::{lemma_mip_units, mip_dimension, mip_units};
use crate::pieces::{
    concat_pieces,
    cut,
    lemma_concat_cut,
    lemma_concat_equal,
    lemma_concat_len,
    lemma_cut_agrees,
    lemma_cut_concat,
    lemma_cut_uniform,
    lemma_subrange_of_subrange,
    lemma_total_size_equal,
    lemma_total_size_grows,
    lemma_total_size_uniform,
    total_size,
    uniform,
};
use crate::block_height::{
    base_block_height,
    block_height_mip0,
    level_block_height,
    mip_block_height,
    BlockHeight,
};
use crate::gob::{lemma_tiled_region_size_bounds, tiled_region_size};
use crate::tegra_swizzle::{
    checked_tiled_region_size,
    deswizzle_level,
    deswizzled_level,
    lemma_empty_level,
    lemma_level_len,
    lemma_level_round_trip,
    linear_level_size,
    swizzle_level,
    swizzled_level,
    tiled_level_size,
    SwizzleError,
};
use vstd::prelude::*;

verus! {

/// What determines how the data of a surface is laid out: its dimensions in
/// pixels, the size of a pixel or compressed block, and the numbers of
/// mipmaps and array layers.
#[derive(Debug, Clone, Copy, PartialEq, Eq, Structural)]
pub struct SurfaceLayout {
    pub width: usize,
    pub height: usize,
    pub depth: usize,
    pub block_dim: BlockDim,
    pub bytes_per_pixel: usize,
    pub mipmap_count: usize,
    pub layer_count: usize,
}

impl SurfaceLayout {
    /// A pixel or compressed block is at least one pixel in each direction.
    pub open spec fn valid(self) -> bool {
        self.block_dim.width > 0 && self.block_dim.height > 0 && self.block_dim.depth > 0
    }

    /// The length in bytes of one row of a mipmap.
    pub open spec fn row_bytes(self, mip: int) -> int {
        mip_units(self.width as int, self.block_dim.width as int, mip) * self.bytes_per_pixel
    }

    /// The number of rows of pixels or compressed blocks of a mipmap.
    pub open spec fn rows(self, mip: int) -> int {
        mip_units(self.height as int, self.block_dim.height as int, mip)
    }

    /// The number of depth slices of a mipmap.
    pub open spec fn slices(self, mip: int) -> int {
        mip_units(self.depth as int, self.block_dim.depth as int, mip)
    }

    /// The block height of the base level, chosen from the height of the
    /// surface.
    pub open spec fn base_block_height(self) -> BlockHeight {
        base_block_height(self.rows(0))
    }

    /// The block height of a mipmap.
    pub open spec fn block_height(self, mip: int) -> BlockHeight {
        level_block_height(self.rows(mip), self.base_block_height())
    }

    /// The size in bytes of the row-major form of a mipmap.
    pub open spec fn linear_mip_size(self, mip: int) -> int {
        linear_level_size(self.row_bytes(mip), self.rows(mip), self.slices(mip))
    }

    /// The size in bytes of the tiled form of a mipmap.
    pub open spec fn tiled_mip_size(self, mip: int) -> int {
        tiled_level_size(
            self.row_bytes(mip),
            self.rows(mip),
            self.slices(mip),
            self.block_height(mip).gobs(),
        )
    }

    /// The sizes of the row-major mipmaps of a layer.
    pub open spec fn linear_mip_sizes(self) -> spec_fn(int) -> int {
        |mip: int| self.linear_mip_size(mip)
    }

    /// The sizes of the tiled mipmaps of a layer.
    pub open spec fn tiled_mip_sizes(self) -> spec_fn(int) -> int {
        |mip: int| self.tiled_mip_size(mip)
    }

    /// The size in bytes of the row-major form of one layer.
    pub open spec fn linear_layer_size(self) -> int {
        total_size(self.mipmap_count as int, self.linear_mip_sizes())
    }

    /// The size in bytes of the tiled form of one layer.
    pub open spec fn tiled_layer_size(self) -> int {
        total_size(self.mipmap_count as int, self.tiled_mip_sizes())
    }

    /// The size in bytes of the row-major form of the surface.
    pub open spec fn linear_size(self) -> int {
        self.layer_count * self.linear_layer_size()
    }

    /// The size in bytes of the tiled form of the surface.
    pub open spec fn tiled_size(self) -> int {
        self.layer_count * self.tiled_layer_size()
    }

    /// The tiled form of mipmap number `mip`, given its row-major form.
    pub open spec fn swizzled_mip(self, linear: Seq<u8>, mip: int) -> Seq<u8> {
        swizzled_level(
            linear,
            self.row_bytes(mip),
            self.rows(mip),
            self.slices(mip),
            self.block_height(mip).gobs(),
        )
    }

    /// The tiled mipmaps of a layer, given the row-major form of the layer.
    pub open spec fn swizzled_mips(self, linear: Seq<u8>) -> spec_fn(int) -> Seq<u8> {
        |mip: int| self.swizzled_mip(cut(linear, self.linear_mip_sizes())(mip), mip)
    }

    /// The tiled form of a layer: its tiled mipmaps in order.
    pub open spec fn swizzled_layer(self, linear: Seq<u8>) -> Seq<u8> {
        concat_pieces(self.mipmap_count as int, self.swizzled_mips(linear))
    }

    /// The tiled layers of the surface, given its row-major form.
    pub open spec fn swizzled_layers(self, linear: Seq<u8>) -> spec_fn(int) -> Seq<u8> {
        |layer: int| self.swizzled_layer(cut(linear, uniform(self.linear_layer_size()))(layer))
    }

    /// The tiled form of the surface: its tiled layers in order.
    pub open spec fn swizzled(self, linear: Seq<u8>) -> Seq<u8> {
        concat_pieces(self.layer_count as int, self.swizzled_layers(linear))
    }

    /// The row-major form of mipmap number `mip`, given its tiled form.
    pub open spec fn deswizzled_mip(self, tiled: Seq<u8>, mip: int) -> Seq<u8> {
        deswizzled_level(
            tiled,
            self.row_bytes(mip),
            self.rows(mip),
            self.slices(mip),
            self.block_height(mip).gobs(),
        )
    }

    /// The row-major mipmaps of a layer, given the tiled form of the layer.
    pub open spec fn deswizzled_mips(self, tiled: Seq<u8>) -> spec_fn(int) -> Seq<u8> {
        |mip: int| self.deswizzled_mip(cut(tiled, self.tiled_mip_sizes())(mip), mip)
    }

    /// The row-major form of a layer: its row-major mipmaps in order.
    pub open spec fn deswizzled_layer(self, tiled: Seq<u8>) -> Seq<u8> {
        concat_pieces(self.mipmap_count as int, self.deswizzled_mips(tiled))
    }

    /// The row-major layers of the surface, given its tiled form.
    pub open spec fn deswizzled_layers(self, tiled: Seq<u8>) -> spec_fn(int) -> Seq<u8> {
        |layer: int| self.deswizzled_layer(cut(tiled, uniform(self.tiled_layer_size()))(layer))
    }

    /// The row-major form of the surface: its row-major layers in order.
    pub open spec fn deswizzled(self, tiled: Seq<u8>) -> Seq<u8> {
        concat_pieces(self.layer_count as int, self.deswizzled_layers(tiled))
    }
}

/// The dimensions of a mipmap are at least one, and neither form of a mipmap
/// has a negative size. The tiled form is at least as long as the row-major
/// form.
pub proof fn lemma_mip_shape(layout: SurfaceLayout, mip: int)
    requires
        layout.valid(),
        0 <= mip,
    ensures
        0 <= layout.row_bytes(mip),
        1 <= layout.rows(mip),
        1 <= layout.slices(mip),
        1 <= layout.block_height(mip).gobs() <= 16,
        0 <= layout.row_bytes(mip) * layout.rows(mip) <= layout.linear_mip_size(mip)
            <= layout.tiled_mip_size(mip),
        layout.row_bytes(mip) <= layout.row_bytes(mip) * layout.rows(mip),
        0 <= tiled_region_size(
            layout.row_bytes(mip),
            layout.rows(mip),
            layout.block_height(mip).gobs(),
        ) <= layout.tiled_mip_size(mip),
        layout.bytes_per_pixel == 0 ==> layout.tiled_mip_size(mip) == 0,
        layout.bytes_per_pixel > 0 ==> layout.linear_mip_size(mip) >= 1,
{
    let units = mip_units(layout.width as int, layout.block_dim.width as int, mip);
    let row_bytes = layout.row_bytes(mip);
    let rows = layout.rows(mip);
    let slices = layout.slices(mip);
    let gobs = layout.block_height(mip).gobs();
    lemma_mip_units(layout.width as int, layout.block_dim.width as int, mip, mip);
    lemma_mip_units(layout.height as int, layout.block_dim.height as int, mip, mip);
    lemma_mip_units(layout.depth as int, layout.block_dim.depth as int, mip, mip);
    assert(0 <= row_bytes && (layout.bytes_per_pixel > 0 ==> row_bytes >= 1) && (
    layout.bytes_per_pixel == 0 ==> row_bytes == 0)) by (nonlinear_arith)
        requires
            row_bytes == units * layout.bytes_per_pixel,
            1 <= units,
    ;
    lemma_tiled_region_size_bounds(row_bytes, rows, gobs);
    let region = row_bytes * rows;
    let tiled = tiled_region_size(row_bytes, rows, gobs);
    lemma_level_len(Seq::<u8>::empty(), row_bytes, rows, slices, gobs);
    assert(0 <= row_bytes <= region && region <= slices * region && tiled <= slices * tiled && (
    row_bytes >= 1 ==> slices * region >= 1)) by (nonlinear_arith)
        requires
            region == row_bytes * rows,
            0 <= row_bytes,
            1 <= rows,
            1 <= slices,
            0 <= tiled,
    ;
    if layout.bytes_per_pixel == 0 {
        lemma_empty_level(row_bytes, rows, slices, gobs);
    }
}

/// The lengths of the two forms of a layer.
pub proof fn lemma_layer_len(layout: SurfaceLayout, data: Seq<u8>)
    requires
        layout.valid(),
    ensures
        layout.swizzled_layer(data).len() == layout.tiled_layer_size(),
        layout.deswizzled_layer(data).len() == layout.linear_layer_size(),
        0 <= layout.linear_layer_size() <= layout.tiled_layer_size(),
        layout.bytes_per_pixel == 0 ==> layout.tiled_layer_size() == 0,
{
    let count = layout.mipmap_count as int;
    assert forall|mip: int| 0 <= mip < count implies (#[trigger] layout.swizzled_mips(data)(
        mip,
    )).len() == layout.tiled_mip_sizes()(mip) by {
        lemma_mip_shape(layout, mip);
        lemma_level_len(
            cut(data, layout.linear_mip_sizes())(mip),
            layout.row_bytes(mip),
            layout.rows(mip),
            layout.slices(mip),
            layout.block_height(mip).gobs(),
        );
    }
    assert forall|mip: int| 0 <= mip < count implies (#[trigger] layout.deswizzled_mips(data)(
        mip,
    )).len() == layout.linear_mip_sizes()(mip) by {
        lemma_mip_shape(layout, mip);
        lemma_level_len(
            cut(data, layout.tiled_mip_sizes())(mip),
            layout.row_bytes(mip),
            layout.rows(mip),
            layout.slices(mip),
            layout.block_height(mip).gobs(),
        );
    }
    lemma_concat_len(count, layout.swizzled_mips(data), layout.tiled_mip_sizes());
    lemma_concat_len(count, layout.deswizzled_mips(data), layout.linear_mip_sizes());
    lemma_layer_sizes(layout, count);
    if layout.bytes_per_pixel == 0 {
        assert forall|mip: int| 0 <= mip < count implies #[trigger] layout.tiled_mip_sizes()(mip)
            == uniform(0)(mip) by {
            lemma_mip_shape(layout, mip);
        }
        lemma_total_size_equal(count, layout.tiled_mip_sizes(), uniform(0));
        lemma_total_size_uniform(count, 0);
    }
}

/// The first `count` mipmaps of a layer take no more bytes tiled than
/// row-major, and no fewer than none.
pub proof fn lemma_layer_sizes(layout: SurfaceLayout, count: int)
    requires
        layout.valid(),
        0 <= count,
    ensures
        0 <= total_size(count, layout.linear_mip_sizes()) <= total_size(
            count,
            layout.tiled_mip_sizes(),
        ),
        forall|mip: int| 0 <= mip < count ==> 0 <= #[trigger] layout.linear_mip_sizes()(mip),
        forall|mip: int| 0 <= mip < count ==> 0 <= #[trigger] layout.tiled_mip_sizes()(mip),
    decreases count,
{
    if count > 0 {
        lemma_layer_sizes(layout, count - 1);
        lemma_mip_shape(layout, count - 1);
        assert forall|mip: int| 0 <= mip < count implies 0 <= #[trigger] layout.linear_mip_sizes()(
            mip,
        ) by {
            lemma_mip_shape(layout, mip);
        }
        assert forall|mip: int| 0 <= mip < count implies 0 <= #[trigger] layout.tiled_mip_sizes()(
            mip,
        ) by {
            lemma_mip_shape(layout, mip);
        }
    }
}

/// Tiling a layer and reading it back gives the layer.
pub proof fn lemma_layer_round_trip(layout: SurfaceLayout, linear: Seq<u8>)
    requires
        layout.valid(),
        layout.linear_layer_size() <= linear.len(),
    ensures
        layout.deswizzled_layer(layout.swizzled_layer(linear)) == linear.subrange(
            0,
            layout.linear_layer_size(),
        ),
{
    let count = layout.mipmap_count as int;
    let tiled = layout.swizzled_layer(linear);
    let forward = layout.swizzled_mips(linear);
    let backward = layout.deswizzled_mips(tiled);
    let sizes = layout.linear_mip_sizes();
    lemma_layer_sizes(layout, count);
    assert forall|mip: int| 0 <= mip < count implies (#[trigger] forward(mip)).len()
        == layout.tiled_mip_sizes()(mip) by {
        lemma_mip_shape(layout, mip);
        lemma_level_len(
            cut(linear, sizes)(mip),
            layout.row_bytes(mip),
            layout.rows(mip),
            layout.slices(mip),
            layout.block_height(mip).gobs(),
        );
    }
    assert forall|mip: int| 0 <= mip < count implies #[trigger] backward(mip) == cut(linear, sizes)(
        mip,
    ) by {
        lemma_mip_shape(layout, mip);
        let piece = cut(linear, sizes)(mip);
        lemma_cut_agrees(linear, linear, sizes, count, mip);
        lemma_cut_concat(count, forward, layout.tiled_mip_sizes(), mip);
        lemma_level_round_trip(
            piece,
            layout.row_bytes(mip),
            layout.rows(mip),
            layout.slices(mip),
            layout.block_height(mip).gobs(),
        );
        assert(piece.subrange(0, piece.len() as int) =~= piece);
    }
    lemma_concat_equal(count, backward, cut(linear, sizes));
    lemma_concat_cut(count, linear, sizes);
}

/// The lengths of the two forms of a surface.
pub proof fn lemma_surface_len(layout: SurfaceLayout, data: Seq<u8>)
    requires
        layout.valid(),
    ensures
        layout.swizzled(data).len() == layout.tiled_size(),
        layout.deswizzled(data).len() == layout.linear_size(),
        0 <= layout.linear_size() <= layout.tiled_size(),
        layout.bytes_per_pixel == 0 || layout.mipmap_count == 0 || layout.layer_count == 0
            ==> layout.tiled_size() == 0,
{
    let count = layout.layer_count as int;
    let linear_layer = layout.linear_layer_size();
    let tiled_layer = layout.tiled_layer_size();
    lemma_layer_len(layout, data);
    assert forall|layer: int| 0 <= layer < count implies (#[trigger] layout.swizzled_layers(data)(
        layer,
    )).len() == uniform(tiled_layer)(layer) by {
        lemma_layer_len(layout, cut(data, uniform(linear_layer))(layer));
    }
    assert forall|layer: int| 0 <= layer < count implies (#[trigger] layout.deswizzled_layers(
        data,
    )(layer)).len() == uniform(linear_layer)(layer) by {
        lemma_layer_len(layout, cut(data, uniform(tiled_layer))(layer));
    }
    lemma_concat_len(count, layout.swizzled_layers(data), uniform(tiled_layer));
    lemma_concat_len(count, layout.deswizzled_layers(data), uniform(linear_layer));
    lemma_total_size_uniform(count, tiled_layer);
    lemma_total_size_uniform(count, linear_layer);
    assert(0 <= count * linear_layer <= count * tiled_layer && (tiled_layer == 0 || count == 0
        ==> count * tiled_layer == 0)) by (nonlinear_arith)
        requires
            0 <= count,
            0 <= linear_layer <= tiled_layer,
    ;
}

/// Converting a surface to the tiled layout and back gives the surface:
/// every byte of every mipmap of every layer comes back as it was. Bytes of
/// `linear` after the surface are not part of it and do not come back.
pub proof fn lemma_surface_round_trip(layout: SurfaceLayout, linear: Seq<u8>)
    requires
        layout.valid(),
        layout.linear_size() <= linear.len(),
    ensures
        layout.deswizzled(layout.swizzled(linear)) == linear.subrange(0, layout.linear_size()),
{
    let count = layout.layer_count as int;
    let linear_layer = layout.linear_layer_size();
    let tiled_layer = layout.tiled_layer_size();
    let tiled = layout.swizzled(linear);
    let forward = layout.swizzled_layers(linear);
    let backward = layout.deswizzled_layers(tiled);
    lemma_layer_len(layout, linear);
    lemma_total_size_uniform(count, linear_layer);
    assert forall|layer: int| 0 <= layer < count implies (#[trigger] forward(layer)).len()
        == uniform(tiled_layer)(layer) by {
        lemma_layer_len(layout, cut(linear, uniform(linear_layer))(layer));
    }
    assert forall|layer: int| 0 <= layer < count implies #[trigger] backward(layer) == cut(
        linear,
        uniform(linear_layer),
    )(layer) by {
        let piece = cut(linear, uniform(linear_layer))(layer);
        lemma_cut_agrees(linear, linear, uniform(linear_layer), count, layer);
        lemma_cut_concat(count, forward, uniform(tiled_layer), layer);
        lemma_layer_round_trip(layout, piece);
        assert(piece.subrange(0, piece.len() as int) =~= piece);
    }
    lemma_concat_equal(count, backward, cut(linear, uniform(linear_layer)));
    lemma_concat_cut(count, linear, uniform(linear_layer));
}

/// The layout of a surface with the given dimensions and counts.
pub open spec fn surface_layout(
    width: usize,
    height: usize,
    depth: usize,
    block_dim: BlockDim,
    bytes_per_pixel: usize,
    mipmap_count: usize,
    layer_count: usize,
) -> SurfaceLayout {
    SurfaceLayout {
        width,
        height,
        depth,
        block_dim,
        bytes_per_pixel,
        mipmap_count,
        layer_count,
    }
}

/// The dimensions and sizes of the row-major form of one mipmap.
pub(crate) struct LinearMip {
    pub row_bytes: usize,
    pub rows: usize,
    pub slices: usize,
    pub region_size: usize,
    pub size: usize,
}

/// The block height and sizes of the tiled form of one mipmap.
pub(crate) struct TiledMip {
    pub block_height: BlockHeight,
    pub region_size: usize,
    pub size: usize,
}

impl LinearMip {
    pub(crate) open spec fn describes(self, layout: SurfaceLayout, mip: int) -> bool {
        &&& self.row_bytes == layout.row_bytes(mip)
        &&& self.rows == layout.rows(mip)
        &&& self.slices == layout.slices(mip)
        &&& self.region_size == layout.row_bytes(mip) * layout.rows(mip)
        &&& self.size == layout.linear_mip_size(mip)
    }
}

impl TiledMip {
    pub(crate) open spec fn describes(self, layout: SurfaceLayout, mip: int) -> bool {
        &&& self.block_height == layout.block_height(mip)
        &&& self.region_size == tiled_region_size(
            layout.row_bytes(mip),
            layout.rows(mip),
            layout.block_height(mip).gobs(),
        )
        &&& self.size == layout.tiled_mip_size(mip)
    }
}

/// The block height of the base level of a surface.
pub(crate) fn layout_base_block_height(layout: &SurfaceLayout) -> (base: BlockHeight)
    requires
        layout.valid(),
    ensures
        base == layout.base_block_height(),
{
    block_height_mip0(mip_dimension(layout.height, layout.block_dim.height as usize, 0))
}

/// The row-major form of mipmap number `mip`, or `None` if its size is more
/// than a `usize` can hold.
pub(crate) fn linear_mip(layout: &SurfaceLayout, mip: usize) -> (linear: Option<LinearMip>)
    requires
        layout.valid(),
    ensures
        match linear {
            Some(linear) => linear.describes(*layout, mip as int),
            None => layout.linear_mip_size(mip as int) > usize::MAX,
        },
{
    proof {
        lemma_mip_shape(*layout, mip as int);
    }
    let width: usize = mip_dimension(layout.width, layout.block_dim.width as usize, mip);
    let rows: usize = mip_dimension(layout.height, layout.block_dim.height as usize, mip);
    let slices: usize = mip_dimension(layout.depth, layout.block_dim.depth as usize, mip);
    let row_bytes: usize = match width.checked_mul(layout.bytes_per_pixel) {
        Some(row_bytes) => row_bytes,
        None => {
            return None;
        },
    };
    let region_size: usize = match row_bytes.checked_mul(rows) {
        Some(region_size) => region_size,
        None => {
            return None;
        },
    };
    let size: usize = match slices.checked_mul(region_size) {
        Some(size) => size,
        None => {
            return None;
        },
    };
    Some(LinearMip { row_bytes, rows, slices, region_size, size })
}

/// The tiled form of mipmap number `mip`, or `None` if its size is more than
/// a `usize` can hold.
pub(crate) fn tiled_mip(
    layout: &SurfaceLayout,
    base: BlockHeight,
    linear: &LinearMip,
    mip: usize,
) -> (tiled: Option<TiledMip>)
    requires
        layout.valid(),
        base == layout.base_block_height(),
        linear.describes(*layout, mip as int),
    ensures
        match tiled {
            Some(tiled) => tiled.describes(*layout, mip as int),
            None => layout.tiled_mip_size(mip as int) > usize::MAX,
        },
{
    proof {
        lemma_mip_shape(*layout, mip as int);
    }
    let block_height = mip_block_height(linear.rows, base);
    let region_size: usize = match checked_tiled_region_size(
        linear.row_bytes,
        linear.rows,
        block_height,
    ) {
        Some(region_size) => region_size,
        None => {
            return None;
        },
    };
    let size: usize = match linear.slices.checked_mul(region_size) {
        Some(size) => size,
        None => {
            return None;
        },
    };
    Some(TiledMip { block_height, region_size, size })
}

/// The size in bytes of the row-major form of one layer, or `None` if it is
/// more than `limit`.
pub fn checked_linear_layer_size(layout: &SurfaceLayout, limit: usize) -> (size: Option<usize>)
    requires
        layout.valid(),
    ensures
        match size {
            Some(size) => size == layout.linear_layer_size() && size <= limit,
            None => layout.linear_layer_size() > limit,
        },
{
    proof {
        lemma_layer_len(*layout, Seq::<u8>::empty());
    }
    if layout.bytes_per_pixel == 0 {
        return Some(0);
    }
    let mut total: usize = 0;
    let mut mip: usize = 0;
    while mip < layout.mipmap_count
        invariant
            layout.valid(),
            mip <= layout.mipmap_count,
            total == total_size(mip as int, layout.linear_mip_sizes()),
            total <= limit,
        decreases layout.mipmap_count - mip,
    {
        proof {
            lemma_layer_sizes(*layout, layout.mipmap_count as int);
            lemma_total_size_grows(mip + 1, layout.mipmap_count as int, layout.linear_mip_sizes());
            assert(layout.linear_mip_sizes()(mip as int) == layout.linear_mip_size(mip as int));
        }
        let size: usize = match linear_mip(layout, mip) {
            Some(linear) => linear.size,
            None => {
                return None;
            },
        };
        total = match total.checked_add(size) {
            Some(total) => total,
            None => {
                return None;
            },
        };
        if total > limit {
            return None;
        }
        mip = mip + 1;
    }
    Some(total)
}

/// The size in bytes of the tiled form of one layer, or `None` if it is more
/// than `limit`.
pub fn checked_tiled_layer_size(layout: &SurfaceLayout, limit: usize) -> (size: Option<usize>)
    requires
        layout.valid(),
    ensures
        match size {
            Some(size) => size == layout.tiled_layer_size() && size <= limit,
            None => layout.tiled_layer_size() > limit,
        },
{
    proof {
        lemma_layer_len(*layout, Seq::<u8>::empty());
    }
    if layout.bytes_per_pixel == 0 {
        return Some(0);
    }
    let base = layout_base_block_height(layout);
    let mut total: usize = 0;
    let mut mip: usize = 0;
    while mip < layout.mipmap_count
        invariant
            layout.valid(),
            base == layout.base_block_height(),
            mip <= layout.mipmap_count,
            total == total_size(mip as int, layout.tiled_mip_sizes()),
            total <= limit,
        decreases layout.mipmap_count - mip,
    {
        proof {
            lemma_layer_sizes(*layout, layout.mipmap_count as int);
            lemma_total_size_grows(mip + 1, layout.mipmap_count as int, layout.tiled_mip_sizes());
            lemma_mip_shape(*layout, mip as int);
            assert(layout.tiled_mip_sizes()(mip as int) == layout.tiled_mip_size(mip as int));
        }
        let size: usize = match linear_mip(layout, mip) {
            Some(linear) => match tiled_mip(layout, base, &linear, mip) {
                Some(tiled) => tiled.size,
                None => {
                    return None;
                },
            },
            None => {
                return None;
            },
        };
        total = match total.checked_add(size) {
            Some(total) => total,
            None => {
                return None;
            },
        };
        if total > limit {
            return None;
        }
        mip = mip + 1;
    }
    Some(total)
}

/// The size in bytes of the row-major form of a surface, or `None` if it is
/// more than a `usize` can hold.
pub fn deswizzled_surface_size(
    width: usize,
    height: usize,
    depth: usize,
    block_dim: BlockDim,
    bytes_per_pixel: usize,
    mipmap_count: usize,
    layer_count: usize,
) -> (size: Option<usize>)
    requires
        block_dim.width > 0,
        block_dim.height > 0,
        block_dim.depth > 0,
    ensures
        match size {
            Some(size) => size == surface_layout(
                width,
                height,
                depth,
                block_dim,
                bytes_per_pixel,
                mipmap_count,
                layer_count,
            ).linear_size(),
            None => surface_layout(
                width,
                height,
                depth,
                block_dim,
                bytes_per_pixel,
                mipmap_count,
                layer_count,
            ).linear_size() > usize::MAX,
        },
{
    let layout = SurfaceLayout {
        width,
        height,
        depth,
        block_dim,
        bytes_per_pixel,
        mipmap_count,
        layer_count,
    };
    checked_linear_size(&layout, usize::MAX)
}

/// The size in bytes of the tiled form of a surface, or `None` if it is more
/// than a `usize` can hold.
pub fn swizzled_surface_size(
    width: usize,
    height: usize,
    depth: usize,
    block_dim: BlockDim,
    bytes_per_pixel: usize,
    mipmap_count: usize,
    layer_count: usize,
) -> (size: Option<usize>)
    requires
        block_dim.width > 0,
        block_dim.height > 0,
        block_dim.depth > 0,
    ensures
        match size {
            Some(size) => size == surface_layout(
                width,
                height,
                depth,
                block_dim,
                bytes_per_pixel,
                mipmap_count,
                layer_count,
            ).tiled_size(),
            None => surface_layout(
                width,
                height,
                depth,
                block_dim,
                bytes_per_pixel,
                mipmap_count,
                layer_count,
            ).tiled_size() > usize::MAX,
        },
{
    let layout = SurfaceLayout {
        width,
        height,
        depth,
        block_dim,
        bytes_per_pixel,
        mipmap_count,
        layer_count,
    };
    checked_tiled_size(&layout, usize::MAX)
}

/// The size in bytes of the row-major form of a surface, or `None` if it is
/// more than `limit`.
pub fn checked_linear_size(layout: &SurfaceLayout, limit: usize) -> (size: Option<usize>)
    requires
        layout.valid(),
    ensures
        match size {
            Some(size) => size == layout.linear_size() && size <= limit,
            None => layout.linear_size() > limit,
        },
{
    proof {
        lemma_surface_len(*layout, Seq::<u8>::empty());
    }
    if layout.layer_count == 0 || layout.mipmap_count == 0 || layout.bytes_per_pixel == 0 {
        return Some(0);
    }
    let layer_size: usize = match checked_linear_layer_size(layout, limit) {
        Some(layer_size) => layer_size,
        None => {
            proof {
                assert(layout.layer_count * layout.linear_layer_size()
                    >= layout.linear_layer_size()) by (nonlinear_arith)
                    requires
                        layout.layer_count >= 1,
                        layout.linear_layer_size() >= 0,
                ;
            }
            return None;
        },
    };
    match layout.layer_count.checked_mul(layer_size) {
        Some(size) => if size <= limit {
            Some(size)
        } else {
            None
        },
        None => None,
    }
}

/// The size in bytes of the tiled form of a surface, or `None` if it is more
/// than `limit`.
pub fn checked_tiled_size(layout: &SurfaceLayout, limit: usize) -> (size: Option<usize>)
    requires
        layout.valid(),
    ensures
        match size {
            Some(size) => size == layout.tiled_size() && size <= limit,
            None => layout.tiled_size() > limit,
        },
{
    proof {
        lemma_surface_len(*layout, Seq::<u8>::empty());
        lemma_layer_len(*layout, Seq::<u8>::empty());
    }
    if layout.layer_count == 0 || layout.mipmap_count == 0 || layout.bytes_per_pixel == 0 {
        return Some(0);
    }
    let layer_size: usize = match checked_tiled_layer_size(layout, limit) {
        Some(layer_size) => layer_size,
        None => {
            proof {
                assert(layout.layer_count * layout.tiled_layer_size() >= layout.tiled_layer_size())
                    by (nonlinear_arith)
                    requires
                        layout.layer_count >= 1,
                        layout.tiled_layer_size() >= 0,
                ;
            }
            return None;
        },
    };
    match layout.layer_count.checked_mul(layer_size) {
        Some(size) => if size <= limit {
            Some(size)
        } else {
            None
        },
        None => None,
    }
}

/// Appends the tiled form of one layer of `linear` to `out`. The layer
/// starts at `start`.
fn swizzle_layer(
    out: &mut Vec<u8>,
    linear: &[u8],
    start: usize,
    layout: &SurfaceLayout,
    base: BlockHeight,
    layer_size: usize,
)
    requires
        layout.valid(),
        base == layout.base_block_height(),
        layer_size == layout.linear_layer_size(),
        layout.tiled_layer_size() <= usize::MAX,
        start + layer_size <= linear@.len(),
    ensures
        final(out)@ == old(out)@ + layout.swizzled_layer(
            linear@.subrange(start as int, start + layer_size),
        ),
{
    let ghost before = out@;
    let ghost layer = linear@.subrange(start as int, start + layer_size);
    let ghost pieces = layout.swizzled_mips(layer);
    let ghost sizes = layout.linear_mip_sizes();
    let ghost count = layout.mipmap_count as int;
    let length: usize = linear.len();
    let mut mip: usize = 0;
    let mut mip_start: usize = start;
    proof {
        lemma_layer_sizes(*layout, count);
        assert(out@ =~= before + concat_pieces(0, pieces));
    }
    while mip < layout.mipmap_count
        invariant
            layout.valid(),
            base == layout.base_block_height(),
            layer_size == layout.linear_layer_size(),
            layout.tiled_layer_size() <= usize::MAX,
            start + layer_size <= linear@.len() == length,
            layer == linear@.subrange(start as int, start + layer_size),
            pieces == layout.swizzled_mips(layer),
            sizes == layout.linear_mip_sizes(),
            count == layout.mipmap_count,
            forall|k: int| 0 <= k < count ==> 0 <= #[trigger] sizes(k),
            forall|k: int| 0 <= k < count ==> 0 <= #[trigger] layout.tiled_mip_sizes()(k),
            mip <= layout.mipmap_count,
            mip_start == start + total_size(mip as int, sizes),
            out@ == before + concat_pieces(mip as int, pieces),
        decreases layout.mipmap_count - mip,
    {
        let ghost so_far = out@;
        proof {
            lemma_cut_agrees(layer, layer, sizes, count, mip as int);
            lemma_total_size_grows(mip as int, mip + 1, layout.tiled_mip_sizes());
            lemma_total_size_grows(mip + 1, count, layout.tiled_mip_sizes());
            assert(sizes(mip as int) == layout.linear_mip_size(mip as int));
            assert(layout.tiled_mip_sizes()(mip as int) == layout.tiled_mip_size(mip as int));
            lemma_subrange_of_subrange(
                linear@,
                start as int,
                start + layer_size,
                total_size(mip as int, sizes),
                total_size(mip + 1, sizes),
            );
        }
        match linear_mip(layout, mip) {
            Some(shape) => {
                match tiled_mip(layout, base, &shape, mip) {
                    Some(tiled) => {
                        swizzle_level(
                            out,
                            linear,
                            mip_start,
                            shape.row_bytes,
                            shape.rows,
                            shape.slices,
                            tiled.block_height,
                            shape.region_size,
                            tiled.region_size,
                        );
                        proof {
                            assert(out@ == so_far + pieces(mip as int));
                            assert(out@ =~= before + concat_pieces(mip + 1, pieces));
                        }
                        mip_start = mip_start + shape.size;
                    },
                    None => {
                        assert(false);
                    },
                }
            },
            None => {
                assert(false);
            },
        }
        mip = mip + 1;
    }
}

/// Appends the row-major form of one tiled layer of `tiled` to `out`. The
/// tiled layer starts at `start`.
fn deswizzle_layer(
    out: &mut Vec<u8>,
    tiled: &[u8],
    start: usize,
    layout: &SurfaceLayout,
    base: BlockHeight,
    layer_size: usize,
)
    requires
        layout.valid(),
        base == layout.base_block_height(),
        layer_size == layout.tiled_layer_size(),
        start + layer_size <= tiled@.len(),
    ensures
        final(out)@ == old(out)@ + layout.deswizzled_layer(
            tiled@.subrange(start as int, start + layer_size),
        ),
{
    let ghost before = out@;
    let ghost layer = tiled@.subrange(start as int, start + layer_size);
    let ghost pieces = layout.deswizzled_mips(layer);
    let ghost sizes = layout.tiled_mip_sizes();
    let ghost count = layout.mipmap_count as int;
    let length: usize = tiled.len();
    let mut mip: usize = 0;
    let mut mip_start: usize = start;
    proof {
        lemma_layer_sizes(*layout, count);
        assert(out@ =~= before + concat_pieces(0, pieces));
    }
    while mip < layout.mipmap_count
        invariant
            layout.valid(),
            base == layout.base_block_height(),
            layer_size == layout.tiled_layer_size(),
            start + layer_size <= tiled@.len() == length,
            layer == tiled@.subrange(start as int, start + layer_size),
            pieces == layout.deswizzled_mips(layer),
            sizes == layout.tiled_mip_sizes(),
            count == layout.mipmap_count,
            forall|k: int| 0 <= k < count ==> 0 <= #[trigger] sizes(k),
            mip <= layout.mipmap_count,
            mip_start == start + total_size(mip as int, sizes),
            out@ == before + concat_pieces(mip as int, pieces),
        decreases layout.mipmap_count - mip,
    {
        let ghost so_far = out@;
        proof {
            lemma_cut_agrees(layer, layer, sizes, count, mip as int);
            lemma_mip_shape(*layout, mip as int);
            assert(sizes(mip as int) == layout.tiled_mip_size(mip as int));
            lemma_subrange_of_subrange(
                tiled@,
                start as int,
                start + layer_size,
                total_size(mip as int, sizes),
                total_size(mip + 1, sizes),
            );
        }
        match linear_mip(layout, mip) {
            Some(shape) => {
                match tiled_mip(layout, base, &shape, mip) {
                    Some(level) => {
                        deswizzle_level(
                            out,
                            tiled,
                            mip_start,
                            shape.row_bytes,
                            shape.rows,
                            shape.slices,
                            level.block_height,
                            level.region_size,
                        );
                        proof {
                            assert(out@ == so_far + pieces(mip as int));
                            assert(out@ =~= before + concat_pieces(mip + 1, pieces));
                        }
                        mip_start = mip_start + level.size;
                    },
                    None => {
                        assert(false);
                    },
                }
            },
            None => {
                assert(false);
            },
        }
        mip = mip + 1;
    }
}

/// Converts the data of a surface from the row-major to the tiled layout.
///
/// `data` holds the layers one after another, each with its mipmaps from
/// the largest to the smallest, row by row without padding. Bytes of `data`
/// after the surface are ignored.
pub fn swizzle_data(
    width: usize,
    height: usize,
    depth: usize,
    block_dim: BlockDim,
    bytes_per_pixel: usize,
    data: &[u8],
    mipmap_count: usize,
    array_count: usize,
) -> (result: Result<Vec<u8>, SwizzleError>)
    requires
        block_dim.width > 0,
        block_dim.height > 0,
        block_dim.depth > 0,
    ensures
        ({
            let layout = surface_layout(
                width,
                height,
                depth,
                block_dim,
                bytes_per_pixel,
                mipmap_count,
                array_count,
            );
            match result {
                Ok(tiled) => {
                    &&& layout.linear_size() <= data@.len()
                    &&& tiled@ == layout.swizzled(data@)
                    &&& tiled@.len() == layout.tiled_size()
                },
                Err(SwizzleError::NotEnoughData) => data@.len() < layout.linear_size(),
                Err(SwizzleError::SurfaceTooLarge) => {
                    &&& layout.linear_size() <= data@.len()
                    &&& layout.tiled_size() > usize::MAX
                },
            }
        }),
{
    let layout = SurfaceLayout {
        width,
        height,
        depth,
        block_dim,
        bytes_per_pixel,
        mipmap_count,
        layer_count: array_count,
    };
    swizzle_surface(&layout, data)
}

/// Converts the data of a surface from the tiled to the row-major layout.
///
/// `data` holds the tiled layers one after another, each with its tiled
/// mipmaps from the largest to the smallest. Bytes of `data` after the
/// surface are ignored.
pub fn deswizzle_data(
    width: usize,
    height: usize,
    depth: usize,
    block_dim: BlockDim,
    bytes_per_pixel: usize,
    data: &[u8],
    mipmap_count: usize,
    array_count: usize,
) -> (result: Result<Vec<u8>, SwizzleError>)
    requires
        block_dim.width > 0,
        block_dim.height > 0,
        block_dim.depth > 0,
    ensures
        ({
            let layout = surface_layout(
                width,
                height,
                depth,
                block_dim,
                bytes_per_pixel,
                mipmap_count,
                array_count,
            );
            match result {
                Ok(linear) => {
                    &&& layout.tiled_size() <= data@.len()
                    &&& linear@ == layout.deswizzled(data@)
                    &&& linear@.len() == layout.linear_size()
                },
                Err(SwizzleError::NotEnoughData) => data@.len() < layout.tiled_size(),
                Err(SwizzleError::SurfaceTooLarge) => false,
            }
        }),
{
    let layout = SurfaceLayout {
        width,
        height,
        depth,
        block_dim,
        bytes_per_pixel,
        mipmap_count,
        layer_count: array_count,
    };
    deswizzle_surface(&layout, data)
}

/// Converts the data of a surface with the given layout from the row-major
/// to the tiled layout.
pub fn swizzle_surface(layout: &SurfaceLayout, data: &[u8]) -> (result: Result<
    Vec<u8>,
    SwizzleError,
>)
    requires
        layout.valid(),
    ensures
        match result {
            Ok(tiled) => {
                &&& layout.linear_size() <= data@.len()
                &&& tiled@ == layout.swizzled(data@)
                &&& tiled@.len() == layout.tiled_size()
            },
            Err(SwizzleError::NotEnoughData) => data@.len() < layout.linear_size(),
            Err(SwizzleError::SurfaceTooLarge) => {
                &&& layout.linear_size() <= data@.len()
                &&& layout.tiled_size() > usize::MAX
            },
        },
{
    let mut out: Vec<u8> = Vec::new();
    let length: usize = data.len();
    proof {
        lemma_surface_len(*layout, data@);
        lemma_layer_len(*layout, data@);
    }
    if layout.layer_count == 0 || layout.mipmap_count == 0 || layout.bytes_per_pixel == 0 {
        proof {
            assert(out@ =~= layout.swizzled(data@));
        }
        return Ok(out);
    }
    if checked_linear_size(layout, length).is_none() {
        return Err(SwizzleError::NotEnoughData);
    }
    if checked_tiled_size(layout, usize::MAX).is_none() {
        return Err(SwizzleError::SurfaceTooLarge);
    }
    proof {
        assert(layout.linear_layer_size() <= layout.layer_count * layout.linear_layer_size()
            && layout.tiled_layer_size() <= layout.layer_count * layout.tiled_layer_size())
            by (nonlinear_arith)
            requires
                layout.layer_count >= 1,
                layout.linear_layer_size() >= 0,
                layout.tiled_layer_size() >= 0,
        ;
    }
    let layer_size: usize = match checked_linear_layer_size(layout, length) {
        Some(layer_size) => layer_size,
        None => {
            assert(false);
            return Err(SwizzleError::NotEnoughData);
        },
    };
    let base = layout_base_block_height(layout);
    let ghost pieces = layout.swizzled_layers(data@);
    let mut layer: usize = 0;
    let mut layer_start: usize = 0;
    proof {
        assert(0 * layer_size == 0) by (nonlinear_arith);
        assert(out@ =~= concat_pieces(0, pieces));
    }
    while layer < layout.layer_count
        invariant
            layout.valid(),
            base == layout.base_block_height(),
            layer_size == layout.linear_layer_size(),
            layout.tiled_layer_size() <= usize::MAX,
            layout.layer_count * layer_size <= data@.len() == length,
            pieces == layout.swizzled_layers(data@),
            layer <= layout.layer_count,
            layer_start == layer * layer_size,
            out@ == concat_pieces(layer as int, pieces),
        decreases layout.layer_count - layer,
    {
        let ghost so_far = out@;
        proof {
            lemma_cut_uniform(data@, layer_size as int, layer as int);
            assert((layer + 1) * layer_size <= layout.layer_count * layer_size)
                by (nonlinear_arith)
                requires
                    layer < layout.layer_count,
            ;
        }
        swizzle_layer(&mut out, data, layer_start, layout, base, layer_size);
        proof {
            assert(out@ == so_far + pieces(layer as int));
        }
        layer_start = layer_start + layer_size;
        layer = layer + 1;
    }
    Ok(out)
}

/// Converts the data of a surface with the given layout from the tiled to
/// the row-major layout.
pub fn deswizzle_surface(layout: &SurfaceLayout, data: &[u8]) -> (result: Result<
    Vec<u8>,
    SwizzleError,
>)
    requires
        layout.valid(),
    ensures
        match result {
            Ok(linear) => {
                &&& layout.tiled_size() <= data@.len()
                &&& linear@ == layout.deswizzled(data@)
                &&& linear@.len() == layout.linear_size()
            },
            Err(SwizzleError::NotEnoughData) => data@.len() < layout.tiled_size(),
            Err(SwizzleError::SurfaceTooLarge) => false,
        },
{
    let mut out: Vec<u8> = Vec::new();
    let length: usize = data.len();
    proof {
        lemma_surface_len(*layout, data@);
        lemma_layer_len(*layout, data@);
    }
    if layout.layer_count == 0 || layout.mipmap_count == 0 || layout.bytes_per_pixel == 0 {
        proof {
            assert(out@ =~= layout.deswizzled(data@));
        }
        return Ok(out);
    }
    if checked_tiled_size(layout, length).is_none() {
        return Err(SwizzleError::NotEnoughData);
    }
    proof {
        assert(layout.tiled_layer_size() <= layout.layer_count * layout.tiled_layer_size())
            by (nonlinear_arith)
            requires
                layout.layer_count >= 1,
                layout.tiled_layer_size() >= 0,
        ;
    }
    let layer_size: usize = match checked_tiled_layer_size(layout, length) {
        Some(layer_size) => layer_size,
        None => {
            assert(false);
            return Err(SwizzleError::NotEnoughData);
        },
    };
    let base = layout_base_block_height(layout);
    let ghost pieces = layout.deswizzled_layers(data@);
    let mut layer: usize = 0;
    let mut layer_start: usize = 0;
    proof {
        assert(0 * layer_size == 0) by (nonlinear_arith);
        assert(out@ =~= concat_pieces(0, pieces));
    }
    while layer < layout.layer_count
        invariant
            layout.valid(),
            base == layout.base_block_height(),
            layer_size == layout.tiled_layer_size(),
            layout.layer_count * layer_size <= data@.len() == length,
            pieces == layout.deswizzled_layers(data@),
            layer <= layout.layer_count,
            layer_start == layer * layer_size,
            out@ == concat_pieces(layer as int, pieces),
        decreases layout.layer_count - layer,
    {
        let ghost so_far = out@;
        proof {
            lemma_cut_uniform(data@, layer_size as int, layer as int);
            assert((layer + 1) * layer_size <= layout.layer_count * layer_size)
                by (nonlinear_arith)
                requires
                    layer < layout.layer_count,
            ;
        }
        deswizzle_layer(&mut out, data, layer_start, layout, base, layer_size);
        proof {
            assert(out@ == so_far + pieces(layer as int));
        }
        layer_start = layer_start + layer_size;
        layer = layer + 1;
    }
    Ok(out)
}

} // verus!
