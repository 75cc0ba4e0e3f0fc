//! The block height of a tiled surface and of its mipmaps.
//!
//! GOBs are stacked vertically into blocks. The number of GOBs in a block is
//! chosen once for a surface from its height, and each mipmap that is less
//! high than such a block takes the smallest block height that still covers
//! it.

use vstd::prelude::*;

verus! {

/// The number of GOBs stacked vertically in a block.
#[derive(Debug, Clone, Copy, PartialEq, Eq, Structural)]
pub enum BlockHeight {
    One,
    Two,
    Four,
    Eight,
    Sixteen,
}

impl BlockHeight {
    /// The block height as a number of GOBs.
    pub open spec fn gobs(self) -> int {
        match self {
            BlockHeight::One => 1,
            BlockHeight::Two => 2,
            BlockHeight::Four => 4,
            BlockHeight::Eight => 8,
            BlockHeight::Sixteen => 16,
        }
    }

    /// The block height as a number of GOBs.
    pub fn gob_count(&self) -> (count: usize)
        ensures
            count == self.gobs(),
    {
        match self {
            BlockHeight::One => 1,
            BlockHeight::Two => 2,
            BlockHeight::Four => 4,
            BlockHeight::Eight => 8,
            BlockHeight::Sixteen => 16,
        }
    }

    /// The block height with half as many GOBs, or one GOB.
    pub fn half(&self) -> (half: BlockHeight)
        ensures
            half.gobs() == if self.gobs() == 1 {
                1
            } else {
                self.gobs() / 2
            },
    {
        match self {
            BlockHeight::One => BlockHeight::One,
            BlockHeight::Two => BlockHeight::One,
            BlockHeight::Four => BlockHeight::Two,
            BlockHeight::Eight => BlockHeight::Four,
            BlockHeight::Sixteen => BlockHeight::Eight,
        }
    }
}

/// The block height chosen for a surface whose base level has `height` rows
/// of pixels or compressed blocks. Taller surfaces get taller blocks, up to
/// sixteen GOBs.
pub open spec fn base_block_height(height: int) -> BlockHeight {
    let height_and_half = height + height / 2;
    if height_and_half >= 128 {
        BlockHeight::Sixteen
    } else if height_and_half >= 64 {
        BlockHeight::Eight
    } else if height_and_half >= 32 {
        BlockHeight::Four
    } else if height_and_half >= 16 {
        BlockHeight::Two
    } else {
        BlockHeight::One
    }
}

/// The smallest block height that covers `height` rows with a single block,
/// or sixteen GOBs if none does.
pub open spec fn covering_block_height(height: int) -> BlockHeight {
    if height <= 8 {
        BlockHeight::One
    } else if height <= 16 {
        BlockHeight::Two
    } else if height <= 32 {
        BlockHeight::Four
    } else if height <= 64 {
        BlockHeight::Eight
    } else {
        BlockHeight::Sixteen
    }
}

/// The block height of a mipmap of `mip_height` rows in a surface whose base
/// block height is `base`: the smallest that still covers the mipmap, and
/// never more than `base`.
pub open spec fn level_block_height(mip_height: int, base: BlockHeight) -> BlockHeight {
    if covering_block_height(mip_height).gobs() <= base.gobs() {
        covering_block_height(mip_height)
    } else {
        base
    }
}

/// The block height for the base level of a surface, from the height of the
/// surface in rows of pixels or compressed blocks.
pub fn block_height_mip0(height: usize) -> (block_height: BlockHeight)
    ensures
        block_height == base_block_height(height as int),
{
    let capped: usize = if height > 128 {
        128
    } else {
        height
    };
    let height_and_half: usize = capped + capped / 2;
    if height_and_half >= 128 {
        BlockHeight::Sixteen
    } else if height_and_half >= 64 {
        BlockHeight::Eight
    } else if height_and_half >= 32 {
        BlockHeight::Four
    } else if height_and_half >= 16 {
        BlockHeight::Two
    } else {
        BlockHeight::One
    }
}

/// The block height for a mipmap of `mip_height` rows, given the block height
/// of the base level. Small mipmaps take a smaller block height so that a
/// block is not much taller than the mipmap.
pub fn mip_block_height(mip_height: usize, block_height_mip0: BlockHeight) -> (block_height:
    BlockHeight)
    ensures
        block_height == level_block_height(mip_height as int, block_height_mip0),
        block_height.gobs() <= block_height_mip0.gobs(),
{
    let mut block_height = block_height_mip0;
    while block_height.gob_count() > 1 && mip_height <= (block_height.gob_count() / 2) * 8
        invariant
            block_height.gobs() <= block_height_mip0.gobs(),
            block_height == block_height_mip0 || mip_height <= 8 * block_height.gobs(),
        decreases block_height.gobs(),
    {
        block_height = block_height.half();
    }
    block_height
}

} // verus!
