//! Conversion of one mipmap between the row-major layout and the block
//! linear layout of the Tegra X1, a process known as swizzling.
//!
//! A mipmap is a run of depth slices. Each slice is tiled as a region of
//! its own, and the tiled regions follow one another in the order of the
//! slices.

use crate::block_height::BlockHeight;
use crate::gob::{
    height_in_blocks,
    lemma_tiled_region_size_bounds,
    tiled_region_size,
    width_in_gobs,
};
use crate::pieces::{
    concat_pieces,
    cut,
    lemma_concat_cut,
    lemma_concat_equal,
    lemma_concat_len,
    lemma_cut_concat,
    lemma_cut_uniform,
    lemma_subrange_of_subrange,
    lemma_total_size_uniform,
    uniform,
};
use crate::region::{
    deswizzle_region,
    deswizzled_region,
    lemma_region_round_trip,
    swizzle_region,
    swizzled_region,
};
use vstd::prelude::*;

pub use crate::block_height::{block_height_mip0, mip_block_height};
pub use crate::gob::{div_round_up, get_addr_block_linear};

verus! {

/// Errors while converting between the row-major and the tiled layout.
#[derive(Debug, Clone, Copy, PartialEq, Eq, Structural)]
pub enum SwizzleError {
    /// The data is shorter than the dimensions call for.
    NotEnoughData,
    /// The converted data would take more bytes than a `usize` can count.
    SurfaceTooLarge,
}

/// The size in bytes of the row-major form of a mipmap.
pub open spec fn linear_level_size(row_bytes: int, rows: int, slices: int) -> int {
    slices * (row_bytes * rows)
}

/// The size in bytes of the tiled form of a mipmap.
pub open spec fn tiled_level_size(row_bytes: int, rows: int, slices: int, block_height: int) -> int {
    slices * tiled_region_size(row_bytes, rows, block_height)
}

/// The tiled regions of one mipmap, one for each depth slice of `linear`.
pub open spec fn swizzled_regions(
    linear: Seq<u8>,
    row_bytes: int,
    rows: int,
    block_height: int,
) -> spec_fn(int) -> Seq<u8> {
    |z: int|
        swizzled_region(cut(linear, uniform(row_bytes * rows))(z), row_bytes, rows, block_height)
}

/// The tiled form of one mipmap: the tiled regions of its depth slices in
/// order.
pub open spec fn swizzled_level(
    linear: Seq<u8>,
    row_bytes: int,
    rows: int,
    slices: int,
    block_height: int,
) -> Seq<u8> {
    concat_pieces(slices, swizzled_regions(linear, row_bytes, rows, block_height))
}

/// The row-major regions of one mipmap, one for each tiled region of
/// `tiled`.
pub open spec fn deswizzled_regions(
    tiled: Seq<u8>,
    row_bytes: int,
    rows: int,
    block_height: int,
) -> spec_fn(int) -> Seq<u8> {
    |z: int|
        deswizzled_region(
            cut(tiled, uniform(tiled_region_size(row_bytes, rows, block_height)))(z),
            row_bytes,
            rows,
            block_height,
        )
}

/// The row-major form of one tiled mipmap: its depth slices in order.
pub open spec fn deswizzled_level(
    tiled: Seq<u8>,
    row_bytes: int,
    rows: int,
    slices: int,
    block_height: int,
) -> Seq<u8> {
    concat_pieces(slices, deswizzled_regions(tiled, row_bytes, rows, block_height))
}

/// The size in bytes of a tiled region, or `None` if it is more than a
/// `usize` can hold.
pub fn checked_tiled_region_size(row_bytes: usize, rows: usize, block_height: BlockHeight) -> (size:
    Option<usize>)
    ensures
        match size {
            Some(size) => size == tiled_region_size(
                row_bytes as int,
                rows as int,
                block_height.gobs(),
            ),
            None => tiled_region_size(row_bytes as int, rows as int, block_height.gobs())
                > usize::MAX,
        },
{
    let gobs: usize = block_height.gob_count();
    let width: usize = div_round_up(row_bytes, 64);
    let height: usize = div_round_up(rows, 8 * gobs);
    proof {
        assert(width * height * gobs * 512 == (width * height) * (gobs * 512) && (width * height)
            * (gobs * 512) >= width * height) by (nonlinear_arith)
            requires
                gobs >= 1,
        ;
    }
    match width.checked_mul(height) {
        None => None,
        Some(gob_columns) => gob_columns.checked_mul(gobs * 512),
    }
}

/// The sizes in bytes of the row-major form of a region and of a mipmap of
/// `slices` such regions, or `None` if they are more than `limit`.
fn checked_linear_level_size(row_bytes: usize, rows: usize, slices: usize, limit: usize) -> (sizes:
    Option<(usize, usize)>)
    requires
        slices > 0,
    ensures
        match sizes {
            Some((region, level)) => region == row_bytes * rows && level == linear_level_size(
                row_bytes as int,
                rows as int,
                slices as int,
            ) && level <= limit,
            None => linear_level_size(row_bytes as int, rows as int, slices as int) > limit,
        },
{
    proof {
        assert(slices * (row_bytes * rows) >= row_bytes * rows) by (nonlinear_arith)
            requires
                slices >= 1,
        ;
    }
    match row_bytes.checked_mul(rows) {
        None => None,
        Some(region) => match slices.checked_mul(region) {
            None => None,
            Some(level) => if level <= limit {
                Some((region, level))
            } else {
                None
            },
        },
    }
}

/// Converts one mipmap from the row-major to the tiled layout.
///
/// The mipmap is `width` pixels or compressed blocks wide, `height` high and
/// `depth` deep, each of `bytes_per_pixel` bytes. `data` holds its depth
/// slices one after another, each row by row without padding. Bytes of
/// `data` after the mipmap are ignored.
pub fn swizzle(
    width: usize,
    height: usize,
    depth: usize,
    block_height: BlockHeight,
    bytes_per_pixel: usize,
    data: &[u8],
) -> (result: Result<Vec<u8>, SwizzleError>)
    ensures
        match result {
            Ok(tiled) => {
                &&& linear_level_size(width * bytes_per_pixel, height as int, depth as int)
                    <= data@.len()
                &&& tiled@ == swizzled_level(
                    data@,
                    width * bytes_per_pixel,
                    height as int,
                    depth as int,
                    block_height.gobs(),
                )
            },
            Err(SwizzleError::NotEnoughData) => data@.len() < linear_level_size(
                width * bytes_per_pixel,
                height as int,
                depth as int,
            ),
            Err(SwizzleError::SurfaceTooLarge) => {
                &&& linear_level_size(width * bytes_per_pixel, height as int, depth as int)
                    <= data@.len()
                &&& tiled_level_size(
                    width * bytes_per_pixel,
                    height as int,
                    depth as int,
                    block_height.gobs(),
                ) > usize::MAX
            },
        },
{
    let mut out: Vec<u8> = Vec::new();
    proof {
        assert(0 <= width * bytes_per_pixel) by (nonlinear_arith);
    }
    if width == 0 || height == 0 || depth == 0 || bytes_per_pixel == 0 {
        proof {
            assert(width == 0 || bytes_per_pixel == 0 ==> width * bytes_per_pixel == 0)
                by (nonlinear_arith);
            lemma_empty_level(
                width * bytes_per_pixel,
                height as int,
                depth as int,
                block_height.gobs(),
            );
            lemma_level_len(
                data@,
                width * bytes_per_pixel,
                height as int,
                depth as int,
                block_height.gobs(),
            );
            assert(out@ =~= swizzled_level(
                data@,
                width * bytes_per_pixel,
                height as int,
                depth as int,
                block_height.gobs(),
            ));
        }
        return Ok(out);
    }
    let length: usize = data.len();
    let row_bytes: usize = match width.checked_mul(bytes_per_pixel) {
        Some(row_bytes) => row_bytes,
        None => {
            proof {
                assert(depth * ((width * bytes_per_pixel) * height) >= width * bytes_per_pixel)
                    by (nonlinear_arith)
                    requires
                        depth >= 1,
                        height >= 1,
                ;
            }
            return Err(SwizzleError::NotEnoughData);
        },
    };
    let (region_size, level_size) = match checked_linear_level_size(
        row_bytes,
        height,
        depth,
        length,
    ) {
        Some(sizes) => sizes,
        None => {
            return Err(SwizzleError::NotEnoughData);
        },
    };
    let tiled_size: usize = match checked_tiled_region_size(row_bytes, height, block_height) {
        Some(tiled_size) => tiled_size,
        None => {
            proof {
                assert(depth * tiled_region_size(
                    row_bytes as int,
                    height as int,
                    block_height.gobs(),
                ) >= tiled_region_size(row_bytes as int, height as int, block_height.gobs()))
                    by (nonlinear_arith)
                    requires
                        depth >= 1,
                        tiled_region_size(row_bytes as int, height as int, block_height.gobs())
                            >= 0,
                ;
            }
            return Err(SwizzleError::SurfaceTooLarge);
        },
    };
    if depth.checked_mul(tiled_size).is_none() {
        return Err(SwizzleError::SurfaceTooLarge);
    }
    swizzle_level(
        &mut out,
        data,
        0,
        row_bytes,
        height,
        depth,
        block_height,
        region_size,
        tiled_size,
    );
    proof {
        assert(data@.subrange(0, level_size as int).subrange(0, level_size as int)
            =~= data@.subrange(0, level_size as int));
        lemma_swizzled_level_start(
            data@.subrange(0, level_size as int),
            data@,
            row_bytes as int,
            height as int,
            depth as int,
            block_height.gobs(),
        );
    }
    Ok(out)
}

/// Converts one mipmap from the tiled to the row-major layout.
///
/// The mipmap is `width` pixels or compressed blocks wide, `height` high and
/// `depth` deep, each of `bytes_per_pixel` bytes. `data` holds the tiled
/// regions of its depth slices one after another. Bytes of `data` after the
/// mipmap are ignored.
pub fn deswizzle(
    width: usize,
    height: usize,
    depth: usize,
    block_height: BlockHeight,
    bytes_per_pixel: usize,
    data: &[u8],
) -> (result: Result<Vec<u8>, SwizzleError>)
    ensures
        match result {
            Ok(linear) => {
                &&& tiled_level_size(
                    width * bytes_per_pixel,
                    height as int,
                    depth as int,
                    block_height.gobs(),
                ) <= data@.len()
                &&& linear@ == deswizzled_level(
                    data@,
                    width * bytes_per_pixel,
                    height as int,
                    depth as int,
                    block_height.gobs(),
                )
            },
            Err(SwizzleError::NotEnoughData) => data@.len() < tiled_level_size(
                width * bytes_per_pixel,
                height as int,
                depth as int,
                block_height.gobs(),
            ),
            Err(SwizzleError::SurfaceTooLarge) => false,
        },
{
    let mut out: Vec<u8> = Vec::new();
    proof {
        assert(0 <= width * bytes_per_pixel) by (nonlinear_arith);
    }
    if width == 0 || height == 0 || depth == 0 || bytes_per_pixel == 0 {
        proof {
            assert(width == 0 || bytes_per_pixel == 0 ==> width * bytes_per_pixel == 0)
                by (nonlinear_arith);
            lemma_empty_level(
                width * bytes_per_pixel,
                height as int,
                depth as int,
                block_height.gobs(),
            );
            lemma_level_len(
                data@,
                width * bytes_per_pixel,
                height as int,
                depth as int,
                block_height.gobs(),
            );
            assert(out@ =~= deswizzled_level(
                data@,
                width * bytes_per_pixel,
                height as int,
                depth as int,
                block_height.gobs(),
            ));
        }
        return Ok(out);
    }
    let length: usize = data.len();
    proof {
        lemma_tiled_region_size_bounds(
            width * bytes_per_pixel,
            height as int,
            block_height.gobs(),
        );
        let tiled = tiled_region_size(width * bytes_per_pixel, height as int, block_height.gobs());
        assert(depth * tiled >= tiled && tiled >= width * bytes_per_pixel) by (nonlinear_arith)
            requires
                depth >= 1,
                height >= 1,
                tiled >= (width * bytes_per_pixel) * height,
                0 <= width * bytes_per_pixel,
        ;
    }
    let row_bytes: usize = match width.checked_mul(bytes_per_pixel) {
        Some(row_bytes) => row_bytes,
        None => {
            return Err(SwizzleError::NotEnoughData);
        },
    };
    let tiled_size: usize = match checked_tiled_region_size(row_bytes, height, block_height) {
        Some(tiled_size) => tiled_size,
        None => {
            return Err(SwizzleError::NotEnoughData);
        },
    };
    let level_size: usize = match depth.checked_mul(tiled_size) {
        Some(level_size) => level_size,
        None => {
            return Err(SwizzleError::NotEnoughData);
        },
    };
    if level_size > length {
        return Err(SwizzleError::NotEnoughData);
    }
    deswizzle_level(&mut out, data, 0, row_bytes, height, depth, block_height, tiled_size);
    proof {
        assert(data@.subrange(0, level_size as int).subrange(0, level_size as int)
            =~= data@.subrange(0, level_size as int));
        lemma_deswizzled_level_start(
            data@.subrange(0, level_size as int),
            data@,
            row_bytes as int,
            height as int,
            depth as int,
            block_height.gobs(),
        );
    }
    Ok(out)
}

/// Appends the tiled form of one mipmap of `linear` to `out`. The mipmap
/// starts at `start` and has `slices` regions of `region_size` bytes.
pub(crate) fn swizzle_level(
    out: &mut Vec<u8>,
    linear: &[u8],
    start: usize,
    row_bytes: usize,
    rows: usize,
    slices: usize,
    block_height: BlockHeight,
    region_size: usize,
    tiled_size: usize,
)
    requires
        region_size == row_bytes * rows,
        tiled_size == tiled_region_size(row_bytes as int, rows as int, block_height.gobs()),
        start + slices * region_size <= linear@.len(),
    ensures
        final(out)@ == old(out)@ + swizzled_level(
            linear@.subrange(start as int, start + slices * region_size),
            row_bytes as int,
            rows as int,
            slices as int,
            block_height.gobs(),
        ),
{
    let ghost before = out@;
    let ghost level = linear@.subrange(start as int, start + slices * region_size);
    let ghost pieces = swizzled_regions(
        level,
        row_bytes as int,
        rows as int,
        block_height.gobs(),
    );
    let length: usize = linear.len();
    let mut z: usize = 0;
    let mut region_start: usize = start;
    proof {
        assert(0 * region_size == 0 && 0 <= slices * region_size) by (nonlinear_arith);
        assert(out@ =~= before + concat_pieces(0, pieces));
    }
    while z < slices
        invariant
            z <= slices,
            region_start == start + z * region_size,
            region_size == row_bytes * rows,
            tiled_size == tiled_region_size(row_bytes as int, rows as int, block_height.gobs()),
            start + slices * region_size <= linear@.len() == length,
            level == linear@.subrange(start as int, start + slices * region_size),
            pieces == swizzled_regions(level, row_bytes as int, rows as int, block_height.gobs()),
            out@ == before + concat_pieces(z as int, pieces),
        decreases slices - z,
    {
        let ghost so_far = out@;
        proof {
            lemma_cut_uniform(level, region_size as int, z as int);
            assert((z + 1) * region_size <= slices * region_size) by (nonlinear_arith)
                requires
                    z < slices,
            ;
            lemma_subrange_of_subrange(
                linear@,
                start as int,
                start + slices * region_size,
                z * region_size,
                (z + 1) * region_size,
            );
        }
        swizzle_region(out, linear, region_start, row_bytes, rows, block_height, tiled_size);
        proof {
            assert(out@ == so_far + pieces(z as int));
            assert(out@ =~= before + concat_pieces(z + 1, pieces));
        }
        region_start = region_start + region_size;
        z = z + 1;
    }
}

/// Appends the row-major form of one tiled mipmap of `tiled` to `out`. The
/// tiled mipmap starts at `start` and has `slices` regions of `tiled_size`
/// bytes.
pub(crate) fn deswizzle_level(
    out: &mut Vec<u8>,
    tiled: &[u8],
    start: usize,
    row_bytes: usize,
    rows: usize,
    slices: usize,
    block_height: BlockHeight,
    tiled_size: usize,
)
    requires
        tiled_size == tiled_region_size(row_bytes as int, rows as int, block_height.gobs()),
        start + slices * tiled_size <= tiled@.len(),
    ensures
        final(out)@ == old(out)@ + deswizzled_level(
            tiled@.subrange(start as int, start + slices * tiled_size),
            row_bytes as int,
            rows as int,
            slices as int,
            block_height.gobs(),
        ),
{
    let ghost before = out@;
    let ghost level = tiled@.subrange(start as int, start + slices * tiled_size);
    let ghost pieces = deswizzled_regions(
        level,
        row_bytes as int,
        rows as int,
        block_height.gobs(),
    );
    let length: usize = tiled.len();
    let mut z: usize = 0;
    let mut region_start: usize = start;
    proof {
        assert(0 * tiled_size == 0 && 0 <= slices * tiled_size) by (nonlinear_arith);
        assert(out@ =~= before + concat_pieces(0, pieces));
    }
    while z < slices
        invariant
            z <= slices,
            region_start == start + z * tiled_size,
            tiled_size == tiled_region_size(row_bytes as int, rows as int, block_height.gobs()),
            start + slices * tiled_size <= tiled@.len() == length,
            level == tiled@.subrange(start as int, start + slices * tiled_size),
            pieces == deswizzled_regions(level, row_bytes as int, rows as int, block_height.gobs()),
            out@ == before + concat_pieces(z as int, pieces),
        decreases slices - z,
    {
        let ghost so_far = out@;
        proof {
            lemma_cut_uniform(level, tiled_size as int, z as int);
            assert((z + 1) * tiled_size <= slices * tiled_size) by (nonlinear_arith)
                requires
                    z < slices,
            ;
            lemma_subrange_of_subrange(
                tiled@,
                start as int,
                start + slices * tiled_size,
                z * tiled_size,
                (z + 1) * tiled_size,
            );
        }
        deswizzle_region(out, tiled, region_start, row_bytes, rows, block_height, tiled_size);
        proof {
            assert(out@ == so_far + pieces(z as int));
            assert(out@ =~= before + concat_pieces(z + 1, pieces));
        }
        region_start = region_start + tiled_size;
        z = z + 1;
    }
}

/// The lengths of the two forms of a mipmap.
pub proof fn lemma_level_len(
    data: Seq<u8>,
    row_bytes: int,
    rows: int,
    slices: int,
    block_height: int,
)
    requires
        0 <= row_bytes,
        0 <= rows,
        0 <= slices,
        1 <= block_height,
    ensures
        swizzled_level(data, row_bytes, rows, slices, block_height).len() == slices
            * tiled_region_size(row_bytes, rows, block_height),
        deswizzled_level(data, row_bytes, rows, slices, block_height).len() == slices * (row_bytes
            * rows),
        0 <= slices * (row_bytes * rows) <= slices * tiled_region_size(
            row_bytes,
            rows,
            block_height,
        ),
{
    let tiled_size = tiled_region_size(row_bytes, rows, block_height);
    let linear_size = row_bytes * rows;
    lemma_tiled_region_size_bounds(row_bytes, rows, block_height);
    assert(0 <= linear_size) by (nonlinear_arith)
        requires
            linear_size == row_bytes * rows,
            0 <= row_bytes,
            0 <= rows,
    ;
    lemma_concat_len(
        slices,
        swizzled_regions(data, row_bytes, rows, block_height),
        uniform(tiled_size),
    );
    lemma_concat_len(
        slices,
        deswizzled_regions(data, row_bytes, rows, block_height),
        uniform(linear_size),
    );
    lemma_total_size_uniform(slices, tiled_size);
    lemma_total_size_uniform(slices, linear_size);
    assert(0 <= slices * linear_size <= slices * tiled_size) by (nonlinear_arith)
        requires
            0 <= slices,
            0 <= linear_size <= tiled_size,
    ;
}

/// A mipmap without bytes has no tiled bytes either.
pub proof fn lemma_empty_level(row_bytes: int, rows: int, slices: int, block_height: int)
    requires
        0 <= row_bytes,
        0 <= rows,
        0 <= slices,
        1 <= block_height,
        row_bytes == 0 || rows == 0 || slices == 0,
    ensures
        linear_level_size(row_bytes, rows, slices) == 0,
        tiled_level_size(row_bytes, rows, slices, block_height) == 0,
{
    let width = width_in_gobs(row_bytes);
    let height = height_in_blocks(rows, block_height);
    assert(rows == 0 ==> height == 0) by (nonlinear_arith)
        requires
            height == (rows + 8 * block_height - 1) / (8 * block_height),
            1 <= block_height,
    ;
    assert(slices * (row_bytes * rows) == 0 && slices * (width * height * block_height * 512) == 0)
        by (nonlinear_arith)
        requires
            row_bytes == 0 || rows == 0 || slices == 0,
            row_bytes == 0 ==> width == 0,
            rows == 0 ==> height == 0,
    ;
}

/// Tiling a mipmap and reading it back gives the mipmap.
pub proof fn lemma_level_round_trip(
    linear: Seq<u8>,
    row_bytes: int,
    rows: int,
    slices: int,
    block_height: int,
)
    requires
        0 <= row_bytes,
        0 <= rows,
        0 <= slices,
        1 <= block_height,
        slices * (row_bytes * rows) <= linear.len(),
    ensures
        deswizzled_level(
            swizzled_level(linear, row_bytes, rows, slices, block_height),
            row_bytes,
            rows,
            slices,
            block_height,
        ) == linear.subrange(0, slices * (row_bytes * rows)),
{
    let tiled_size = tiled_region_size(row_bytes, rows, block_height);
    let linear_size = row_bytes * rows;
    let tiled = swizzled_level(linear, row_bytes, rows, slices, block_height);
    let forward = swizzled_regions(linear, row_bytes, rows, block_height);
    let backward = deswizzled_regions(tiled, row_bytes, rows, block_height);
    lemma_level_len(linear, row_bytes, rows, slices, block_height);
    assert forall|z: int| 0 <= z < slices implies #[trigger] backward(z) == cut(
        linear,
        uniform(linear_size),
    )(z) by {
        lemma_cut_uniform(linear, linear_size, z);
        assert((z + 1) * linear_size <= slices * linear_size) by (nonlinear_arith)
            requires
                z < slices,
                0 <= linear_size,
        ;
        let piece = cut(linear, uniform(linear_size))(z);
        lemma_region_round_trip(piece, row_bytes, rows, block_height);
        lemma_cut_concat(slices, forward, uniform(tiled_size), z);
        assert(piece.subrange(0, linear_size) =~= piece);
    }
    lemma_concat_equal(slices, backward, cut(linear, uniform(linear_size)));
    lemma_total_size_uniform(slices, linear_size);
    lemma_concat_cut(slices, linear, uniform(linear_size));
}

/// The tiled form of a mipmap depends only on the bytes that the mipmap
/// takes.
pub proof fn lemma_swizzled_level_start(
    first: Seq<u8>,
    second: Seq<u8>,
    row_bytes: int,
    rows: int,
    slices: int,
    block_height: int,
)
    requires
        0 <= row_bytes,
        0 <= rows,
        0 <= slices,
        slices * (row_bytes * rows) <= first.len(),
        slices * (row_bytes * rows) <= second.len(),
        first.subrange(0, slices * (row_bytes * rows)) == second.subrange(
            0,
            slices * (row_bytes * rows),
        ),
    ensures
        swizzled_level(first, row_bytes, rows, slices, block_height) == swizzled_level(
            second,
            row_bytes,
            rows,
            slices,
            block_height,
        ),
{
    let size = row_bytes * rows;
    assert(0 <= size) by (nonlinear_arith)
        requires
            size == row_bytes * rows,
            0 <= row_bytes,
            0 <= rows,
    ;
    assert forall|z: int| 0 <= z < slices implies #[trigger] swizzled_regions(
        first,
        row_bytes,
        rows,
        block_height,
    )(z) == swizzled_regions(second, row_bytes, rows, block_height)(z) by {
        lemma_pieces_agree(first, second, size, slices, z);
    }
    lemma_concat_equal(
        slices,
        swizzled_regions(first, row_bytes, rows, block_height),
        swizzled_regions(second, row_bytes, rows, block_height),
    );
}

/// The row-major form of a tiled mipmap depends only on the bytes that the
/// tiled mipmap takes.
pub proof fn lemma_deswizzled_level_start(
    first: Seq<u8>,
    second: Seq<u8>,
    row_bytes: int,
    rows: int,
    slices: int,
    block_height: int,
)
    requires
        0 <= row_bytes,
        0 <= rows,
        0 <= slices,
        1 <= block_height,
        slices * tiled_region_size(row_bytes, rows, block_height) <= first.len(),
        slices * tiled_region_size(row_bytes, rows, block_height) <= second.len(),
        first.subrange(0, slices * tiled_region_size(row_bytes, rows, block_height))
            == second.subrange(0, slices * tiled_region_size(row_bytes, rows, block_height)),
    ensures
        deswizzled_level(first, row_bytes, rows, slices, block_height) == deswizzled_level(
            second,
            row_bytes,
            rows,
            slices,
            block_height,
        ),
{
    let size = tiled_region_size(row_bytes, rows, block_height);
    lemma_tiled_region_size_bounds(row_bytes, rows, block_height);
    assert(0 <= row_bytes * rows) by (nonlinear_arith)
        requires
            0 <= row_bytes,
            0 <= rows,
    ;
    assert forall|z: int| 0 <= z < slices implies #[trigger] deswizzled_regions(
        first,
        row_bytes,
        rows,
        block_height,
    )(z) == deswizzled_regions(second, row_bytes, rows, block_height)(z) by {
        lemma_pieces_agree(first, second, size, slices, z);
    }
    lemma_concat_equal(
        slices,
        deswizzled_regions(first, row_bytes, rows, block_height),
        deswizzled_regions(second, row_bytes, rows, block_height),
    );
}

/// Two sequences that start with the same `count` pieces of one size have
/// each of these pieces in common.
proof fn lemma_pieces_agree(first: Seq<u8>, second: Seq<u8>, size: int, count: int, z: int)
    requires
        0 <= size,
        0 <= z < count,
        count * size <= first.len(),
        count * size <= second.len(),
        first.subrange(0, count * size) == second.subrange(0, count * size),
    ensures
        cut(first, uniform(size))(z) == cut(second, uniform(size))(z),
        cut(first, uniform(size))(z).len() == size,
{
    lemma_cut_uniform(first, size, z);
    lemma_cut_uniform(second, size, z);
    assert((z + 1) * size <= count * size) by (nonlinear_arith)
        requires
            z < count,
            0 <= size,
    ;
    lemma_subrange_of_subrange(first, 0, count * size, z * size, (z + 1) * size);
    lemma_subrange_of_subrange(second, 0, count * size, z * size, (z + 1) * size);
}

} // verus!
