//! One two-dimensional region in both layouts.
//!
//! A region is one depth slice of one mipmap: `rows` rows of `row_bytes`
//! bytes. Its row-major form holds the rows one after another. Its tiled
//! form holds each byte at its block linear address and zeros in the
//! padding.

use crate::block_height::BlockHeight;
use crate::gob::{
    div_round_up,
    get_addr_block_linear,
    gob_address,
    lemma_address_of_tiled_position,
    lemma_gob_address_in_bounds,
    lemma_tiled_position_of_address,
    lemma_tiled_region_size_bounds,
    tiled_column,
    tiled_region_size,
    tiled_row,
    width_in_gobs,
};
use vstd::arithmetic::div_mod::{lemma_fundamental_div_mod, lemma_fundamental_div_mod_converse};
use vstd::prelude::*;

verus! {

/// The tiled form of a region: each byte of `linear` at its address, and zero
/// in the padding.
pub open spec fn swizzled_region(linear: Seq<u8>, row_bytes: int, rows: int, block_height: int) -> Seq<
    u8,
> {
    Seq::new(
        tiled_region_size(row_bytes, rows, block_height) as nat,
        |offset: int|
            {
                let x = tiled_column(offset, width_in_gobs(row_bytes), block_height);
                let y = tiled_row(offset, width_in_gobs(row_bytes), block_height);
                if x < row_bytes && y < rows {
                    linear[y * row_bytes + x]
                } else {
                    0u8
                }
            },
    )
}

/// The row-major form of a tiled region: row after row, each byte taken from
/// its address in `tiled`.
pub open spec fn deswizzled_region(tiled: Seq<u8>, row_bytes: int, rows: int, block_height: int) -> Seq<
    u8,
> {
    Seq::new(
        (row_bytes * rows) as nat,
        |i: int|
            tiled[gob_address(i % row_bytes, i / row_bytes, width_in_gobs(row_bytes), block_height)],
    )
}

/// Index `i` of a row-major region lies in column `i % row_bytes` of row
/// `i / row_bytes`.
pub proof fn lemma_row_major_position(i: int, row_bytes: int, rows: int)
    requires
        0 <= i < row_bytes * rows,
        0 <= rows,
    ensures
        0 < row_bytes,
        0 <= i % row_bytes < row_bytes,
        0 <= i / row_bytes < rows,
        (i / row_bytes) * row_bytes + i % row_bytes == i,
{
    assert(0 < row_bytes) by (nonlinear_arith)
        requires
            0 < row_bytes * rows,
            0 <= rows,
    ;
    lemma_fundamental_div_mod(i, row_bytes);
    let q = i / row_bytes;
    let r = i % row_bytes;
    assert(0 <= r < row_bytes && q * row_bytes == row_bytes * q) by (nonlinear_arith)
        requires
            r == i % row_bytes,
            0 < row_bytes,
    ;
    assert(0 <= q < rows) by (nonlinear_arith)
        requires
            0 <= q * row_bytes + r < row_bytes * rows,
            0 <= r < row_bytes,
    ;
}

/// Column `x` of row `y` is index `y * row_bytes + x` of a row-major region.
pub proof fn lemma_row_major_index(x: int, y: int, row_bytes: int, rows: int)
    requires
        0 <= x < row_bytes,
        0 <= y < rows,
    ensures
        0 <= y * row_bytes + x < row_bytes * rows,
        (y * row_bytes + x) % row_bytes == x,
        (y * row_bytes + x) / row_bytes == y,
{
    assert(0 <= y * row_bytes + x < row_bytes * rows) by (nonlinear_arith)
        requires
            0 <= x < row_bytes,
            0 <= y < rows,
    ;
    lemma_fundamental_div_mod_converse(y * row_bytes + x, row_bytes, y, x);
}

/// Tiling a region and reading it back gives the region: no byte is lost and
/// no two bytes share an address.
pub proof fn lemma_region_round_trip(linear: Seq<u8>, row_bytes: int, rows: int, block_height: int)
    requires
        0 <= row_bytes,
        0 <= rows,
        1 <= block_height,
        row_bytes * rows <= linear.len(),
    ensures
        swizzled_region(linear, row_bytes, rows, block_height).len() == tiled_region_size(
            row_bytes,
            rows,
            block_height,
        ),
        deswizzled_region(
            swizzled_region(linear, row_bytes, rows, block_height),
            row_bytes,
            rows,
            block_height,
        ) == linear.subrange(0, row_bytes * rows),
{
    let wg = width_in_gobs(row_bytes);
    let tiled = swizzled_region(linear, row_bytes, rows, block_height);
    let back = deswizzled_region(tiled, row_bytes, rows, block_height);
    lemma_tiled_region_size_bounds(row_bytes, rows, block_height);
    assert(0 <= row_bytes * rows) by (nonlinear_arith)
        requires
            0 <= row_bytes,
            0 <= rows,
    ;
    assert forall|i: int| 0 <= i < row_bytes * rows implies back[i] == linear[i] by {
        lemma_row_major_position(i, row_bytes, rows);
        let x = i % row_bytes;
        let y = i / row_bytes;
        lemma_gob_address_in_bounds(x, y, row_bytes, rows, block_height);
        lemma_tiled_position_of_address(x, y, wg, block_height);
    }
    assert(back =~= linear.subrange(0, row_bytes * rows));
}

/// The tiled region after the first `done` bytes of `linear` have been
/// placed: the others are still zero.
spec fn swizzled_prefix(
    linear: Seq<u8>,
    row_bytes: int,
    rows: int,
    block_height: int,
    done: int,
) -> Seq<u8> {
    Seq::new(
        tiled_region_size(row_bytes, rows, block_height) as nat,
        |offset: int|
            {
                let x = tiled_column(offset, width_in_gobs(row_bytes), block_height);
                let y = tiled_row(offset, width_in_gobs(row_bytes), block_height);
                if x < row_bytes && y < rows && y * row_bytes + x < done {
                    linear[y * row_bytes + x]
                } else {
                    0u8
                }
            },
    )
}

/// Placing the byte in column `x` of row `y` extends the placed prefix by
/// one byte and changes nothing else.
proof fn lemma_swizzled_prefix_step(
    linear: Seq<u8>,
    row_bytes: int,
    rows: int,
    block_height: int,
    x: int,
    y: int,
)
    requires
        0 <= x < row_bytes,
        0 <= y < rows,
        1 <= block_height,
    ensures
        0 <= gob_address(x, y, width_in_gobs(row_bytes), block_height) < tiled_region_size(
            row_bytes,
            rows,
            block_height,
        ),
        swizzled_prefix(linear, row_bytes, rows, block_height, y * row_bytes + x).update(
            gob_address(x, y, width_in_gobs(row_bytes), block_height),
            linear[y * row_bytes + x],
        ) == swizzled_prefix(linear, row_bytes, rows, block_height, y * row_bytes + x + 1),
{
    let wg = width_in_gobs(row_bytes);
    let done = y * row_bytes + x;
    let address = gob_address(x, y, wg, block_height);
    let before = swizzled_prefix(linear, row_bytes, rows, block_height, done);
    let after = swizzled_prefix(linear, row_bytes, rows, block_height, done + 1);
    lemma_gob_address_in_bounds(x, y, row_bytes, rows, block_height);
    lemma_tiled_position_of_address(x, y, wg, block_height);
    assert forall|offset: int| 0 <= offset < before.len() implies #[trigger] before.update(
        address,
        linear[done],
    )[offset] == after[offset] by {
        if offset != address {
            let ox = tiled_column(offset, wg, block_height);
            let oy = tiled_row(offset, wg, block_height);
            lemma_address_of_tiled_position(offset, row_bytes, rows, block_height);
            if ox < row_bytes && oy < rows && oy * row_bytes + ox == done {
                lemma_row_major_index(ox, oy, row_bytes, rows);
                lemma_row_major_index(x, y, row_bytes, rows);
            }
        }
    }
    assert(before.update(address, linear[done]) =~= after);
}

/// Before any byte is placed the tiled region is all zero, and once every
/// byte is placed it is the tiled form of the region.
proof fn lemma_swizzled_prefix_ends(linear: Seq<u8>, row_bytes: int, rows: int, block_height: int)
    requires
        0 <= row_bytes,
        0 <= rows,
        1 <= block_height,
    ensures
        swizzled_prefix(linear, row_bytes, rows, block_height, 0) == Seq::new(
            tiled_region_size(row_bytes, rows, block_height) as nat,
            |offset: int| 0u8,
        ),
        swizzled_prefix(linear, row_bytes, rows, block_height, row_bytes * rows) == swizzled_region(
            linear,
            row_bytes,
            rows,
            block_height,
        ),
{
    let wg = width_in_gobs(row_bytes);
    let size = tiled_region_size(row_bytes, rows, block_height);
    let first = swizzled_prefix(linear, row_bytes, rows, block_height, 0);
    let last = swizzled_prefix(linear, row_bytes, rows, block_height, row_bytes * rows);
    assert forall|offset: int| 0 <= offset < size implies first[offset] == 0u8 && last[offset]
        == swizzled_region(linear, row_bytes, rows, block_height)[offset] by {
        let ox = tiled_column(offset, wg, block_height);
        let oy = tiled_row(offset, wg, block_height);
        lemma_address_of_tiled_position(offset, row_bytes, rows, block_height);
        if ox < row_bytes && oy < rows {
            lemma_row_major_index(ox, oy, row_bytes, rows);
        }
    }
    assert(first =~= Seq::new(size as nat, |offset: int| 0u8));
    assert(last =~= swizzled_region(linear, row_bytes, rows, block_height));
}

/// Appends the tiled form of one region of `linear` to `out`. The region
/// starts at `start` and has `rows` rows of `row_bytes` bytes.
///
/// The address of every byte of the region lies within the tiled region, so
/// every byte is placed.
pub(crate) fn swizzle_region(
    out: &mut Vec<u8>,
    linear: &[u8],
    start: usize,
    row_bytes: usize,
    rows: usize,
    block_height: BlockHeight,
    tiled_size: usize,
)
    requires
        start + row_bytes * rows <= linear@.len(),
        tiled_size == tiled_region_size(row_bytes as int, rows as int, block_height.gobs()),
    ensures
        final(out)@ == old(out)@ + swizzled_region(
            linear@.subrange(start as int, start + row_bytes * rows),
            row_bytes as int,
            rows as int,
            block_height.gobs(),
        ),
{
    let ghost before = out@;
    let ghost region = linear@.subrange(start as int, start + row_bytes * rows);
    let ghost gobs = block_height.gobs();
    let length: usize = linear.len();
    let base: usize = out.len();
    let mut filled: usize = 0;
    while filled < tiled_size
        invariant
            filled <= tiled_size,
            out@ == before + Seq::new(filled as nat, |offset: int| 0u8),
        decreases tiled_size - filled,
    {
        out.push(0u8);
        filled = filled + 1;
        assert(out@ =~= before + Seq::new(filled as nat, |offset: int| 0u8));
    }
    let total: usize = out.len();
    let width: usize = div_round_up(row_bytes, 64);
    proof {
        lemma_swizzled_prefix_ends(region, row_bytes as int, rows as int, gobs);
        assert(0 * row_bytes == 0) by (nonlinear_arith);
    }
    let mut y: usize = 0;
    let mut row_start: usize = start;
    while y < rows
        invariant
            y <= rows,
            row_start == start + y * row_bytes,
            start + row_bytes * rows <= linear@.len() == length,
            region == linear@.subrange(start as int, start + row_bytes * rows),
            gobs == block_height.gobs(),
            width == width_in_gobs(row_bytes as int),
            tiled_size == tiled_region_size(row_bytes as int, rows as int, gobs),
            base == before.len(),
            total == base + tiled_size,
            out@ == before + swizzled_prefix(
                region,
                row_bytes as int,
                rows as int,
                gobs,
                y * row_bytes,
            ),
        decreases rows - y,
    {
        let mut x: usize = 0;
        while x < row_bytes
            invariant
                x <= row_bytes,
                y < rows,
                row_start == start + y * row_bytes,
                start + row_bytes * rows <= linear@.len() == length,
                region == linear@.subrange(start as int, start + row_bytes * rows),
                gobs == block_height.gobs(),
                width == width_in_gobs(row_bytes as int),
                tiled_size == tiled_region_size(row_bytes as int, rows as int, gobs),
                base == before.len(),
                total == base + tiled_size,
                out@ == before + swizzled_prefix(
                    region,
                    row_bytes as int,
                    rows as int,
                    gobs,
                    y * row_bytes + x,
                ),
            decreases row_bytes - x,
        {
            proof {
                lemma_swizzled_prefix_step(
                    region,
                    row_bytes as int,
                    rows as int,
                    gobs,
                    x as int,
                    y as int,
                );
                lemma_row_major_index(x as int, y as int, row_bytes as int, rows as int);
            }
            let address: usize = get_addr_block_linear(x, y, width, block_height);
            let byte: u8 = linear[row_start + x];
            assert(byte == region[y * row_bytes + x]);
            let ghost placed = swizzled_prefix(
                region,
                row_bytes as int,
                rows as int,
                gobs,
                y * row_bytes + x,
            );
            out.set(base + address, byte);
            assert(out@ =~= before + placed.update(address as int, byte));
            x = x + 1;
        }
        proof {
            assert((y + 1) * row_bytes == y * row_bytes + row_bytes && (y + 1) * row_bytes
                <= rows * row_bytes == row_bytes * rows) by (nonlinear_arith)
                requires
                    y < rows,
            ;
        }
        row_start = row_start + row_bytes;
        y = y + 1;
    }
    proof {
        assert(y * row_bytes == row_bytes * rows) by (nonlinear_arith)
            requires
                y == rows,
        ;
    }
}

/// Appends the row-major form of one tiled region of `tiled` to `out`. The
/// tiled region starts at `start` and holds `rows` rows of `row_bytes` bytes.
pub(crate) fn deswizzle_region(
    out: &mut Vec<u8>,
    tiled: &[u8],
    start: usize,
    row_bytes: usize,
    rows: usize,
    block_height: BlockHeight,
    tiled_size: usize,
)
    requires
        start + tiled_size <= tiled@.len(),
        tiled_size == tiled_region_size(row_bytes as int, rows as int, block_height.gobs()),
    ensures
        final(out)@ == old(out)@ + deswizzled_region(
            tiled@.subrange(start as int, start + tiled_size),
            row_bytes as int,
            rows as int,
            block_height.gobs(),
        ),
{
    let ghost before = out@;
    let ghost region = tiled@.subrange(start as int, start + tiled_size);
    let ghost gobs = block_height.gobs();
    let length: usize = tiled.len();
    let ghost linear = deswizzled_region(region, row_bytes as int, rows as int, gobs);
    let width: usize = div_round_up(row_bytes, 64);
    proof {
        assert(0 * row_bytes == 0) by (nonlinear_arith);
        assert(0 <= row_bytes * rows) by (nonlinear_arith);
        assert(out@ =~= before + linear.subrange(0, 0));
    }
    let mut y: usize = 0;
    while y < rows
        invariant
            y <= rows,
            start + tiled_size <= tiled@.len() == length,
            region == tiled@.subrange(start as int, start + tiled_size),
            gobs == block_height.gobs(),
            width == width_in_gobs(row_bytes as int),
            tiled_size == tiled_region_size(row_bytes as int, rows as int, gobs),
            linear == deswizzled_region(region, row_bytes as int, rows as int, gobs),
            0 <= y * row_bytes <= row_bytes * rows,
            out@ == before + linear.subrange(0, y * row_bytes),
        decreases rows - y,
    {
        let mut x: usize = 0;
        while x < row_bytes
            invariant
                x <= row_bytes,
                y < rows,
                start + tiled_size <= tiled@.len() == length,
                region == tiled@.subrange(start as int, start + tiled_size),
                gobs == block_height.gobs(),
                width == width_in_gobs(row_bytes as int),
                tiled_size == tiled_region_size(row_bytes as int, rows as int, gobs),
                linear == deswizzled_region(region, row_bytes as int, rows as int, gobs),
                0 <= y * row_bytes + x <= row_bytes * rows,
                out@ == before + linear.subrange(0, y * row_bytes + x),
            decreases row_bytes - x,
        {
            proof {
                lemma_gob_address_in_bounds(
                    x as int,
                    y as int,
                    row_bytes as int,
                    rows as int,
                    gobs,
                );
                lemma_row_major_index(x as int, y as int, row_bytes as int, rows as int);
            }
            let address: usize = get_addr_block_linear(x, y, width, block_height);
            let byte: u8 = tiled[start + address];
            assert(byte == linear[y * row_bytes + x]);
            out.push(byte);
            assert(out@ =~= before + linear.subrange(0, y * row_bytes + x + 1));
            x = x + 1;
        }
        proof {
            assert((y + 1) * row_bytes == y * row_bytes + row_bytes && (y + 1) * row_bytes
                <= rows * row_bytes == row_bytes * rows) by (nonlinear_arith)
                requires
                    y < rows,
            ;
        }
        y = y + 1;
    }
    proof {
        assert(y * row_bytes == row_bytes * rows) by (nonlinear_arith)
            requires
                y == rows,
        ;
        assert(linear.subrange(0, row_bytes * rows) =~= linear);
    }
}

} // verus!
