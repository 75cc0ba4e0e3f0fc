//! The sizes of the mipmaps of a surface.
//!
//! Each mipmap has half the width, height and depth of the one before it,
//! rounded down, and holds at least one pixel or compressed block in each
//! direction.

use crate::format::NutexbFormat;
use crate::gob::{ceil_div, div_round_up, lemma_ceil_div};
use vstd::arithmetic::div_mod::{
    lemma_basic_div,
    lemma_div_is_ordered,
    lemma_div_is_ordered_by_denominator,
    lemma_div_pos_is_pos,
};
use vstd::arithmetic::power2::{
    lemma2_to64,
    lemma_pow2_pos,
    lemma_pow2_strictly_increases,
    pow2,
};
use vstd::bits::lemma_u64_shr_is_div;
use vstd::prelude::*;

verus! {

/// The mipmap sizes for each array layer.
#[derive(Debug, Clone, PartialEq, Eq)]
pub struct LayerMipmaps {
    /// The size in bytes of the deswizzled data for each mipmap.
    pub mipmap_sizes: Vec<u32>,
}

impl View for LayerMipmaps {
    type V = Seq<u32>;

    open spec fn view(&self) -> Seq<u32> {
        self.mipmap_sizes@
    }
}

/// One dimension of mipmap number `mip`, counted in pixels or compressed
/// blocks of `block` pixels: the base dimension `dim` halved `mip` times,
/// then rounded up to whole blocks, and never less than one.
pub open spec fn mip_units(dim: int, block: int, mip: int) -> int {
    let units = ceil_div(dim / (pow2(mip as nat) as int), block);
    if units < 1 {
        1
    } else {
        units
    }
}

/// The size in bytes of mipmap number `mip` of one layer.
pub open spec fn mip_size(width: int, height: int, depth: int, format: NutexbFormat, mip: int) -> int {
    let size = mip_units(width, format.unit_side() as int, mip) * mip_units(
        height,
        format.unit_side() as int,
        mip,
    ) * mip_units(depth, 1, mip) * format.unit_bytes();
    if size < format.unit_bytes() {
        format.unit_bytes() as int
    } else {
        size
    }
}

/// A mipmap size as the footer of a file stores it: the low 32 bits.
pub open spec fn stored_size(size: int) -> u32 {
    (size % 0x1_0000_0000) as u32
}

/// The sizes of the first `mip_count` mipmaps of one layer as a file stores
/// them.
pub open spec fn mip_table(
    width: int,
    height: int,
    depth: int,
    format: NutexbFormat,
    mip_count: int,
) -> Seq<u32> {
    Seq::new(
        mip_count as nat,
        |mip: int| stored_size(mip_size(width, height, depth, format, mip)),
    )
}

/// A dimension of a mipmap is at least one and no more than the base
/// dimension, and it does not grow from one mipmap to the next.
pub proof fn lemma_mip_units(dim: int, block: int, mip: int, later: int)
    requires
        0 <= dim,
        1 <= block,
        0 <= mip <= later,
    ensures
        1 <= mip_units(dim, block, later) <= mip_units(dim, block, mip),
        mip_units(dim, block, mip) <= if dim < 1 {
            1
        } else {
            dim
        },
{
    let near = pow2(mip as nat) as int;
    let far = pow2(later as nat) as int;
    lemma_pow2_pos(mip as nat);
    lemma_pow2_pos(later as nat);
    if mip < later {
        lemma_pow2_strictly_increases(mip as nat, later as nat);
    }
    lemma_div_is_ordered_by_denominator(dim, near, far);
    lemma_div_pos_is_pos(dim, far);
    lemma_div_is_ordered(dim / far + block - 1, dim / near + block - 1, block);
    lemma_div_is_ordered_by_denominator(dim, 1, near);
    assert(dim / 1 == dim);
    lemma_ceil_div(dim / near, block);
}

/// The size of a mipmap is a whole number of pixels or blocks, so the floor
/// of one pixel or block never has to raise it.
pub proof fn lemma_mip_size_is_product(
    width: int,
    height: int,
    depth: int,
    format: NutexbFormat,
    mip: int,
)
    requires
        0 <= width,
        0 <= height,
        0 <= depth,
        0 <= mip,
    ensures
        mip_size(width, height, depth, format, mip) == mip_units(
            width,
            format.unit_side() as int,
            mip,
        ) * mip_units(height, format.unit_side() as int, mip) * mip_units(depth, 1, mip)
            * format.unit_bytes(),
        mip_size(width, height, depth, format, mip) >= format.unit_bytes(),
{
    let side = format.unit_side() as int;
    let bytes = format.unit_bytes() as int;
    let w = mip_units(width, side, mip);
    let h = mip_units(height, side, mip);
    let d = mip_units(depth, 1, mip);
    lemma_mip_units(width, side, mip, mip);
    lemma_mip_units(height, side, mip, mip);
    lemma_mip_units(depth, 1, mip, mip);
    assert(w * h * d * bytes >= bytes) by (nonlinear_arith)
        requires
            1 <= w,
            1 <= h,
            1 <= d,
            0 <= bytes,
    ;
}

/// For a fixed format and base dimensions, the size of a mipmap never grows
/// from one mipmap to the next.
pub proof fn lemma_mip_size_non_increasing(
    width: int,
    height: int,
    depth: int,
    format: NutexbFormat,
    mip: int,
    later: int,
)
    requires
        0 <= width,
        0 <= height,
        0 <= depth,
        0 <= mip <= later,
    ensures
        mip_size(width, height, depth, format, later) <= mip_size(
            width,
            height,
            depth,
            format,
            mip,
        ),
{
    let side = format.unit_side() as int;
    let bytes = format.unit_bytes() as int;
    lemma_mip_size_is_product(width, height, depth, format, mip);
    lemma_mip_size_is_product(width, height, depth, format, later);
    lemma_mip_units(width, side, mip, later);
    lemma_mip_units(height, side, mip, later);
    lemma_mip_units(depth, 1, mip, later);
    let w0 = mip_units(width, side, mip);
    let h0 = mip_units(height, side, mip);
    let d0 = mip_units(depth, 1, mip);
    let w1 = mip_units(width, side, later);
    let h1 = mip_units(height, side, later);
    let d1 = mip_units(depth, 1, later);
    assert(w1 * h1 * d1 * bytes <= w0 * h0 * d0 * bytes) by (nonlinear_arith)
        requires
            1 <= w1 <= w0,
            1 <= h1 <= h0,
            1 <= d1 <= d0,
            0 <= bytes,
    ;
}

/// As a file stores them, the sizes of the mipmaps never grow from one
/// mipmap to the next, as long as the size of the first of the two fits in 32
/// bits.
pub proof fn lemma_stored_size_non_increasing(
    width: int,
    height: int,
    depth: int,
    format: NutexbFormat,
    mip: int,
    later: int,
)
    requires
        0 <= width,
        0 <= height,
        0 <= depth,
        0 <= mip <= later,
        mip_size(width, height, depth, format, mip) <= u32::MAX,
    ensures
        stored_size(mip_size(width, height, depth, format, later)) <= stored_size(
            mip_size(width, height, depth, format, mip),
        ),
        stored_size(mip_size(width, height, depth, format, later)) == mip_size(
            width,
            height,
            depth,
            format,
            later,
        ),
{
    lemma_mip_size_non_increasing(width, height, depth, format, mip, later);
    lemma_mip_size_is_product(width, height, depth, format, later);
}

/// One dimension of mipmap number `mip`, counted in pixels or compressed
/// blocks of `block` pixels.
pub fn mip_dimension(dim: usize, block: usize, mip: usize) -> (units: usize)
    requires
        block > 0,
    ensures
        units == mip_units(dim as int, block as int, mip as int),
        1 <= units,
        dim >= 1 ==> units <= dim,
        dim == 0 ==> units == 1,
{
    proof {
        lemma_mip_units(dim as int, block as int, mip as int, mip as int);
        lemma_pow2_pos(mip as nat);
        lemma_div_is_ordered_by_denominator(dim as int, 1, pow2(mip as nat) as int);
        assert(dim as int / 1 == dim);
    }
    let halved: usize = if mip >= 64 {
        proof {
            lemma2_to64();
            if mip > 64 {
                lemma_pow2_strictly_increases(64, mip as nat);
            }
            lemma_basic_div(dim as int, pow2(mip as nat) as int);
        }
        0
    } else {
        proof {
            lemma_u64_shr_is_div(dim as u64, mip as u64);
        }
        ((dim as u64) >> (mip as u64)) as usize
    };
    let units: usize = div_round_up(halved, block);
    if units < 1 {
        1
    } else {
        units
    }
}

/// The size in bytes of mipmap number `mip_index` of one layer, as a file
/// stores it: the low 32 bits of the size.
pub fn mip_byte_size(width: u32, height: u32, depth: u32, format: NutexbFormat, mip_index: u32) -> (size:
    u32)
    ensures
        size == stored_size(
            mip_size(width as int, height as int, depth as int, format, mip_index as int),
        ),
{
    let block_width: usize = format.block_width() as usize;
    let block_height: usize = format.block_height() as usize;
    let block_depth: usize = format.block_depth() as usize;
    let mip: usize = mip_index as usize;
    let mip_width: u128 = mip_dimension(width as usize, block_width, mip) as u128;
    let mip_height: u128 = mip_dimension(height as usize, block_height, mip) as u128;
    let mip_depth: u128 = mip_dimension(depth as usize, block_depth, mip) as u128;
    let bytes: u128 = format.bytes_per_pixel() as u128;
    proof {
        assert(0 <= mip_width * mip_height <= 0x1_0000_0000 * 0x1_0000_0000 && 0 <= mip_width
            * mip_height * mip_depth <= 0x1_0000_0000 * 0x1_0000_0000 * 0x1_0000_0000 && 0
            <= mip_width * mip_height * mip_depth * bytes <= 0x1_0000_0000 * 0x1_0000_0000
            * 0x1_0000_0000 * 16) by (nonlinear_arith)
            requires
                0 <= mip_width <= 0x1_0000_0000,
                0 <= mip_height <= 0x1_0000_0000,
                0 <= mip_depth <= 0x1_0000_0000,
                0 <= bytes <= 16,
        ;
    }
    let size: u128 = mip_width * mip_height * mip_depth * bytes;
    let floored: u128 = if size < bytes {
        bytes
    } else {
        size
    };
    (floored % 0x1_0000_0000) as u32
}

/// The sizes of the first `mip_count` mipmaps of one layer.
pub fn layer_mip_sizes(width: u32, height: u32, depth: u32, format: NutexbFormat, mip_count: u32) -> (layer:
    LayerMipmaps)
    ensures
        layer@ == mip_table(width as int, height as int, depth as int, format, mip_count as int),
{
    let mut mipmap_sizes: Vec<u32> = Vec::new();
    let mut mip: u32 = 0;
    while mip < mip_count
        invariant
            mip <= mip_count,
            mipmap_sizes@ == mip_table(
                width as int,
                height as int,
                depth as int,
                format,
                mip as int,
            ),
        decreases mip_count - mip,
    {
        mipmap_sizes.push(mip_byte_size(width, height, depth, format, mip));
        mip = mip + 1;
        assert(mipmap_sizes@ =~= mip_table(
            width as int,
            height as int,
            depth as int,
            format,
            mip as int,
        ));
    }
    LayerMipmaps { mipmap_sizes }
}

/// The mipmap sizes of a surface: the same table for each of `layer_count`
/// layers, since all layers have the same dimensions and format.
pub fn calculate_layer_mip_sizes(
    width: u32,
    height: u32,
    depth: u32,
    format: NutexbFormat,
    mip_count: u32,
    layer_count: u32,
) -> (layers: Vec<LayerMipmaps>)
    ensures
        layers@.len() == layer_count,
        forall|layer: int|
            0 <= layer < layer_count ==> (#[trigger] layers@[layer])@ == mip_table(
                width as int,
                height as int,
                depth as int,
                format,
                mip_count as int,
            ),
{
    let mut layers: Vec<LayerMipmaps> = Vec::new();
    let mut layer: u32 = 0;
    while layer < layer_count
        invariant
            layer <= layer_count,
            layers@.len() == layer,
            forall|done: int|
                0 <= done < layer ==> (#[trigger] layers@[done])@ == mip_table(
                    width as int,
                    height as int,
                    depth as int,
                    format,
                    mip_count as int,
                ),
        decreases layer_count - layer,
    {
        layers.push(layer_mip_sizes(width, height, depth, format, mip_count));
        layer = layer + 1;
    }
    layers
}

} // verus!
