//! Block linear addressing: where each byte of a region lies once the region
//! is tiled.
//!
//! The Tegra X1 stores a texture in GOBs ("groups of bytes"). A GOB covers 64
//! bytes of 8 consecutive rows, 512 bytes in all. GOBs are stacked
//! vertically into blocks, and the number of GOBs in a stack is the block
//! height. Blocks are laid out row by row over the region, so the tiled
//! region is padded to a whole number of GOBs in width and a whole number of
//! blocks in height.
//!
//! Positions are measured in bytes horizontally and in rows vertically. A
//! row of `width` pixels or compressed blocks of `bpp` bytes each is
//! `width * bpp` bytes long.

use crate::block_height::BlockHeight;
use vstd::arithmetic::div_mod::{
    lemma_breakdown,
    lemma_div_denominator,
    lemma_fundamental_div_mod,
    lemma_fundamental_div_mod_converse,
    lemma_mod_mod,
};
use vstd::prelude::*;

verus! {

/// `n / d` rounded up to a whole number.
pub open spec fn ceil_div(n: int, d: int) -> int {
    (n + d - 1) / d
}

/// The number of GOBs that cover a row of `row_bytes` bytes.
pub open spec fn width_in_gobs(row_bytes: int) -> int {
    ceil_div(row_bytes, 64)
}

/// The number of blocks of `block_height` GOBs that cover `rows` rows.
pub open spec fn height_in_blocks(rows: int, block_height: int) -> int {
    ceil_div(rows, 8 * block_height)
}

/// The size in bytes of the tiled form of a region of `rows` rows of
/// `row_bytes` bytes each.
pub open spec fn tiled_region_size(row_bytes: int, rows: int, block_height: int) -> int {
    width_in_gobs(row_bytes) * height_in_blocks(rows, block_height) * block_height * 512
}

/// The offset within a GOB of the byte in column `x` and row `y` of the GOB.
pub open spec fn offset_in_gob(x: int, y: int) -> int {
    ((x % 64) / 32) * 256 + ((y % 8) / 2) * 64 + ((x % 32) / 16) * 32 + (y % 2) * 16 + (x % 16)
}

/// The offset in a tiled region of the byte in column `x` of row `y`, for a
/// region that is `width_in_gobs` GOBs wide.
pub open spec fn gob_address(x: int, y: int, width_in_gobs: int, block_height: int) -> int {
    (y / (8 * block_height)) * width_in_gobs * block_height * 512
        + (x / 64) * block_height * 512
        + ((y % (8 * block_height)) / 8) * 512
        + offset_in_gob(x, y)
}

/// The column within a GOB of the byte at offset `within` of the GOB.
pub open spec fn column_in_gob(within: int) -> int {
    ((within / 256) % 2) * 32 + ((within / 32) % 2) * 16 + within % 16
}

/// The row within a GOB of the byte at offset `within` of the GOB.
pub open spec fn row_in_gob(within: int) -> int {
    ((within / 64) % 4) * 2 + (within / 16) % 2
}

/// The column of the byte at `offset` in a tiled region.
pub open spec fn tiled_column(offset: int, width_in_gobs: int, block_height: int) -> int {
    ((offset / 512 / block_height) % width_in_gobs) * 64 + column_in_gob(offset % 512)
}

/// The row of the byte at `offset` in a tiled region.
pub open spec fn tiled_row(offset: int, width_in_gobs: int, block_height: int) -> int {
    ((offset / 512 / block_height / width_in_gobs) * block_height + (offset / 512) % block_height)
        * 8 + row_in_gob(offset % 512)
}

/// The number of the GOB that holds the byte in column `x` of row `y`,
/// counting GOBs in the order in which the tiled region stores them.
pub open spec fn gob_number(x: int, y: int, width_in_gobs: int, block_height: int) -> int {
    ((y / 8 / block_height) * width_in_gobs + x / 64) * block_height + (y / 8) % block_height
}

/// `n / d` rounded up to a whole number.
pub fn div_round_up(n: usize, d: usize) -> (quotient: usize)
    requires
        d > 0,
    ensures
        quotient == ceil_div(n as int, d as int),
{
    proof {
        lemma_ceil_div(n as int, d as int);
    }
    if n % d == 0 {
        n / d
    } else {
        n / d + 1
    }
}

/// The offset in a tiled region of the byte in column `x` of row `y`.
///
/// `x` counts bytes: the first byte of pixel `p` of a row is in column
/// `p * bytes_per_pixel`. The region is `width_in_gobs` GOBs wide.
pub fn get_addr_block_linear(
    x: usize,
    y: usize,
    width_in_gobs: usize,
    block_height: BlockHeight,
) -> (address: usize)
    requires
        gob_address(x as int, y as int, width_in_gobs as int, block_height.gobs()) <= usize::MAX,
    ensures
        address == gob_address(x as int, y as int, width_in_gobs as int, block_height.gobs()),
{
    let gobs: usize = block_height.gob_count();
    let block_rows: usize = 8 * gobs;
    let block_row: usize = y / block_rows;
    let gob_column: usize = x / 64;
    let gob_in_block: usize = (y % block_rows) / 8;
    let within: usize = ((x % 64) / 32) * 256 + ((y % 8) / 2) * 64 + ((x % 32) / 16) * 32 + (y % 2)
        * 16 + (x % 16);
    proof {
        let a = block_row as int;
        let w = width_in_gobs as int;
        let g = gobs as int;
        let b = gob_column as int;
        let c = gob_in_block as int;
        assert(within == offset_in_gob(x as int, y as int));
        assert(0 <= a * w <= a * w * g <= a * w * g * 512 && 0 <= b * g <= b * g * 512 && 0 <= c
            * 512) by (nonlinear_arith)
            requires
                0 <= a,
                0 <= w,
                1 <= g,
                0 <= b,
                0 <= c,
        ;
    }
    block_row * width_in_gobs * gobs * 512 + gob_column * gobs * 512 + gob_in_block * 512 + within
}

/// The bytes of one pixel or compressed block stay together: where the size
/// of a pixel or block divides sixteen bytes, as it does for every image
/// format, byte number `k` of the pixel in column `x` lies `k` bytes after
/// the first byte of that pixel.
pub proof fn lemma_pixel_is_contiguous(
    x: int,
    y: int,
    bytes_per_pixel: int,
    k: int,
    width_in_gobs: int,
    block_height: int,
)
    requires
        0 <= x,
        0 <= y,
        bytes_per_pixel == 1 || bytes_per_pixel == 2 || bytes_per_pixel == 4 || bytes_per_pixel
            == 8 || bytes_per_pixel == 16,
        0 <= k < bytes_per_pixel,
    ensures
        gob_address(x * bytes_per_pixel + k, y, width_in_gobs, block_height) == gob_address(
            x * bytes_per_pixel,
            y,
            width_in_gobs,
            block_height,
        ) + k,
{
    let first = x * bytes_per_pixel;
    assert(0 <= first && first % bytes_per_pixel == 0) by (nonlinear_arith)
        requires
            first == x * bytes_per_pixel,
            0 <= x,
            1 <= bytes_per_pixel,
    ;
    lemma_mod_mod(first, bytes_per_pixel, 16int / bytes_per_pixel);
    let low = first % 16;
    assert(low % bytes_per_pixel == 0);
    assert(low + k < 16);
    assert(first == 16 * (first / 16) + low);
    assert((first + k) / 16 == first / 16 && (first + k) % 16 == low + k);
    lemma_same_sixteen(first, first + k);
}

/// The addresses of two bytes in the same sixteen bytes of a row differ as
/// their columns do.
proof fn lemma_same_sixteen(x: int, other: int)
    requires
        0 <= x,
        0 <= other,
        x / 16 == other / 16,
    ensures
        forall|y: int, width_in_gobs: int, block_height: int|
            #[trigger] gob_address(other, y, width_in_gobs, block_height) == gob_address(
                x,
                y,
                width_in_gobs,
                block_height,
            ) + other % 16 - x % 16,
{
    assert(x / 64 == other / 64) by {
        lemma_div_denominator(x, 16, 4);
        lemma_div_denominator(other, 16, 4);
    }
    assert((x % 64) / 32 == (other % 64) / 32 && (x % 32) / 16 == (other % 32) / 16) by {
        assert(x % 64 == x - 64 * (x / 64));
        assert(other % 64 == other - 64 * (other / 64));
        assert(x / 32 == other / 32) by {
            lemma_div_denominator(x, 16, 2);
            lemma_div_denominator(other, 16, 2);
        }
        assert(x % 32 == x - 32 * (x / 32));
        assert(other % 32 == other - 32 * (other / 32));
    }
}

/// Rounding up adds one to the quotient unless the division is exact.
pub proof fn lemma_ceil_div(n: int, d: int)
    requires
        0 <= n,
        0 < d,
    ensures
        ceil_div(n, d) == if n % d == 0 {
            n / d
        } else {
            n / d + 1
        },
        n <= ceil_div(n, d) * d < n + d,
        n > 0 ==> ceil_div(n, d) <= n,
{
    let q = n / d;
    let r = n % d;
    lemma_fundamental_div_mod(n, d);
    assert(0 <= r < d && 0 <= q) by (nonlinear_arith)
        requires
            r == n % d,
            q == n / d,
            0 <= n,
            0 < d,
    ;
    if r == 0 {
        assert(n + d - 1 == q * d + (d - 1)) by (nonlinear_arith)
            requires
                n == d * q,
        ;
        lemma_fundamental_div_mod_converse(n + d - 1, d, q, d - 1);
        assert(n <= q * d < n + d && (n > 0 ==> q <= n)) by (nonlinear_arith)
            requires
                n == d * q,
                0 < d,
                0 <= q,
        ;
    } else {
        assert(n + d - 1 == (q + 1) * d + (r - 1)) by (nonlinear_arith)
            requires
                n == d * q + r,
        ;
        lemma_fundamental_div_mod_converse(n + d - 1, d, q + 1, r - 1);
        assert(n <= (q + 1) * d < n + d && q + 1 <= n) by (nonlinear_arith)
            requires
                n == d * q + r,
                0 < r < d,
                0 <= q,
        ;
    }
}

/// A tiled region is at least as large as the region and a whole number of
/// GOBs.
pub proof fn lemma_tiled_region_size_bounds(row_bytes: int, rows: int, block_height: int)
    requires
        0 <= row_bytes,
        0 <= rows,
        1 <= block_height,
    ensures
        0 <= width_in_gobs(row_bytes),
        0 <= height_in_blocks(rows, block_height),
        row_bytes <= 64 * width_in_gobs(row_bytes),
        rows <= 8 * block_height * height_in_blocks(rows, block_height),
        row_bytes * rows <= tiled_region_size(row_bytes, rows, block_height),
        tiled_region_size(row_bytes, rows, block_height) % 512 == 0,
        row_bytes > 0 && rows > 0 ==> tiled_region_size(row_bytes, rows, block_height) >= 512,
{
    let wg = width_in_gobs(row_bytes);
    let hb = height_in_blocks(rows, block_height);
    let d = 8 * block_height;
    lemma_fundamental_div_mod(rows + d - 1, d);
    assert(0 <= hb && rows <= d * hb && (rows > 0 ==> hb >= 1)) by (nonlinear_arith)
        requires
            rows + d - 1 == d * hb + (rows + d - 1) % d,
            hb == (rows + d - 1) / d,
            0 <= rows,
            1 <= d,
    ;
    assert(row_bytes * rows <= wg * hb * block_height * 512) by (nonlinear_arith)
        requires
            0 <= row_bytes <= 64 * wg,
            0 <= rows <= 8 * block_height * hb,
    ;
    assert((wg * hb * block_height * 512) % 512 == 0) by (nonlinear_arith);
    assert(row_bytes > 0 && rows > 0 ==> wg * hb * block_height * 512 >= 512) by (nonlinear_arith)
        requires
            row_bytes > 0 ==> wg >= 1,
            rows > 0 ==> hb >= 1,
            wg >= 0,
            hb >= 0,
            block_height >= 1,
    ;
}

/// The bits of a column and a row within a GOB, interleaved and taken apart
/// again.
proof fn lemma_gob_bits(x: u32, y: u32)
    by (bit_vector)
    requires
        x < 64,
        y < 8,
    ensures
        offset_in_gob(x as int, y as int) < 512,
        column_in_gob(offset_in_gob(x as int, y as int)) == x,
        row_in_gob(offset_in_gob(x as int, y as int)) == y,
{
}

/// The bits of an offset within a GOB, taken apart into column and row and
/// interleaved again.
proof fn lemma_gob_bits_inverse(w: u32)
    by (bit_vector)
    requires
        w < 512,
    ensures
        column_in_gob(w as int) < 64,
        row_in_gob(w as int) < 8,
        offset_in_gob(column_in_gob(w as int), row_in_gob(w as int)) == w,
{
}

/// The offset within a GOB depends on the position within the GOB alone.
proof fn lemma_offset_in_gob_wraps(x: int, y: int)
    requires
        0 <= x,
        0 <= y,
    ensures
        offset_in_gob(x, y) == offset_in_gob(x % 64, y % 8),
{
    lemma_mod_mod(x, 32, 2);
    lemma_mod_mod(x, 16, 4);
    lemma_mod_mod(y, 2, 4);
    lemma_mod_mod(x, 64, 1);
    lemma_mod_mod(y, 8, 1);
}

/// Within a GOB, the offset of a byte determines its column and row.
proof fn lemma_position_in_gob(x: int, y: int)
    requires
        0 <= x,
        0 <= y,
    ensures
        0 <= offset_in_gob(x, y) < 512,
        column_in_gob(offset_in_gob(x, y)) == x % 64,
        row_in_gob(offset_in_gob(x, y)) == y % 8,
{
    lemma_offset_in_gob_wraps(x, y);
    lemma_gob_bits((x % 64) as u32, (y % 8) as u32);
}

/// Within a GOB, the column and row of a byte determine its offset.
proof fn lemma_offset_in_gob(within: int)
    requires
        0 <= within < 512,
    ensures
        0 <= column_in_gob(within) < 64,
        0 <= row_in_gob(within) < 8,
        offset_in_gob(column_in_gob(within), row_in_gob(within)) == within,
{
    lemma_gob_bits_inverse(within as u32);
}

/// An address is the start of a GOB plus an offset within that GOB.
proof fn lemma_gob_address_digits(x: int, y: int, width_in_gobs: int, block_height: int)
    requires
        0 <= x,
        0 <= y,
        1 <= width_in_gobs,
        1 <= block_height,
    ensures
        gob_address(x, y, width_in_gobs, block_height) == gob_number(
            x,
            y,
            width_in_gobs,
            block_height,
        ) * 512 + offset_in_gob(x, y),
        0 <= y / 8 / block_height,
        0 <= (y / 8) % block_height < block_height,
{
    let a = y / 8 / block_height;
    let c = (y / 8) % block_height;
    lemma_div_denominator(y, 8, block_height);
    lemma_breakdown(y, 8, block_height);
    assert(y / (8 * block_height) == a);
    assert(y % (8 * block_height) == 8 * c + y % 8);
    assert((y % (8 * block_height)) / 8 == c);
    assert(a * width_in_gobs * block_height * 512 + (x / 64) * block_height * 512 + c * 512 == ((a
        * width_in_gobs + x / 64) * block_height + c) * 512) by (nonlinear_arith);
    assert(0 <= a) by (nonlinear_arith)
        requires
            a == y / 8 / block_height,
            y >= 0,
            block_height >= 1,
    ;
    assert(0 <= c < block_height) by (nonlinear_arith)
        requires
            c == (y / 8) % block_height,
            block_height >= 1,
    ;
}

/// A GOB number splits into block row, GOB column and GOB within the block.
proof fn lemma_gob_number_digits(gob: int, a: int, b: int, c: int, wg: int, bh: int)
    requires
        gob == (a * wg + b) * bh + c,
        0 <= b < wg,
        0 <= c < bh,
    ensures
        gob / bh / wg == a,
        (gob / bh) % wg == b,
        gob % bh == c,
{
    lemma_fundamental_div_mod_converse(gob, bh, a * wg + b, c);
    lemma_fundamental_div_mod_converse(a * wg + b, wg, a, b);
}

/// Block row, GOB column and GOB within the block make up the GOB number.
proof fn lemma_gob_number_of_digits(gob: int, wg: int, bh: int)
    requires
        0 <= gob,
        1 <= wg,
        1 <= bh,
    ensures
        gob == ((gob / bh / wg) * wg + (gob / bh) % wg) * bh + gob % bh,
        0 <= gob / bh / wg,
        0 <= (gob / bh) % wg < wg,
        0 <= gob % bh < bh,
{
    let block = gob / bh;
    lemma_fundamental_div_mod(gob, bh);
    lemma_fundamental_div_mod(block, wg);
    assert(bh * block == block * bh && wg * (block / wg) == (block / wg) * wg)
        by (nonlinear_arith);
    assert(0 <= gob % bh < bh && 0 <= block) by (nonlinear_arith)
        requires
            block == gob / bh,
            gob >= 0,
            bh >= 1,
    ;
    assert(0 <= block % wg < wg && 0 <= block / wg) by (nonlinear_arith)
        requires
            block >= 0,
            wg >= 1,
    ;
}

/// The byte at column `xl` and row `yl` of GOB number `gob` lies in that GOB.
proof fn lemma_gob_number_of_position(gob: int, xl: int, yl: int, wg: int, bh: int)
    requires
        0 <= gob,
        1 <= wg,
        1 <= bh,
        0 <= xl < 64,
        0 <= yl < 8,
    ensures
        ({
            let x = ((gob / bh) % wg) * 64 + xl;
            let y = ((gob / bh / wg) * bh + gob % bh) * 8 + yl;
            &&& gob_number(x, y, wg, bh) == gob
            &&& x % 64 == xl
            &&& y % 8 == yl
            &&& 0 <= x < 64 * wg
            &&& 0 <= y
        }),
{
    let a = gob / bh / wg;
    let b = (gob / bh) % wg;
    let c = gob % bh;
    lemma_gob_number_of_digits(gob, wg, bh);
    let gob_row = a * bh + c;
    let x = b * 64 + xl;
    let y = gob_row * 8 + yl;
    assert(0 <= gob_row) by (nonlinear_arith)
        requires
            gob_row == a * bh + c,
            0 <= a,
            0 <= c,
            1 <= bh,
    ;
    assert(x / 64 == b && x % 64 == xl);
    assert(y / 8 == gob_row && y % 8 == yl);
    lemma_fundamental_div_mod_converse(gob_row, bh, a, c);
}

/// A GOB of a tiled region lies in one of the region's rows of blocks.
proof fn lemma_block_row_in_bounds(gob: int, wg: int, hb: int, bh: int)
    requires
        0 <= gob < wg * hb * bh,
        1 <= wg,
        1 <= bh,
    ensures
        ((gob / bh / wg) * bh + gob % bh) * 8 + 8 <= 8 * bh * hb,
{
    let a = gob / bh / wg;
    let b = (gob / bh) % wg;
    let c = gob % bh;
    lemma_gob_number_of_digits(gob, wg, bh);
    assert(a < hb) by (nonlinear_arith)
        requires
            gob < wg * hb * bh,
            gob == (a * wg + b) * bh + c,
            0 <= c,
            0 <= b,
            0 <= a,
            bh >= 1,
            wg >= 1,
    ;
    assert((a * bh + c) * 8 + 8 <= 8 * bh * hb) by (nonlinear_arith)
        requires
            0 <= a < hb,
            0 <= c < bh,
    ;
}

/// Every byte of a region has its place inside the tiled region.
pub proof fn lemma_gob_address_in_bounds(
    x: int,
    y: int,
    row_bytes: int,
    rows: int,
    block_height: int,
)
    requires
        0 <= x < row_bytes,
        0 <= y < rows,
        1 <= block_height,
    ensures
        0 <= gob_address(x, y, width_in_gobs(row_bytes), block_height) < tiled_region_size(
            row_bytes,
            rows,
            block_height,
        ),
{
    let wg = width_in_gobs(row_bytes);
    let hb = height_in_blocks(rows, block_height);
    lemma_gob_address_digits(x, y, wg, block_height);
    lemma_position_in_gob(x, y);
    let a = y / 8 / block_height;
    let b = x / 64;
    let c = (y / 8) % block_height;
    assert(b < wg);
    lemma_div_denominator(y, 8, block_height);
    assert(a < hb) by (nonlinear_arith)
        requires
            a == y / (8 * block_height),
            hb == (rows + 8 * block_height - 1) / (8 * block_height),
            0 <= y < rows,
            block_height >= 1,
    ;
    assert(0 <= ((a * wg + b) * block_height + c) * 512 && ((a * wg + b) * block_height + c) * 512
        + 512 <= wg * hb * block_height * 512) by (nonlinear_arith)
        requires
            0 <= a < hb,
            0 <= b < wg,
            0 <= c < block_height,
    ;
}

/// The position that [`tiled_column`] and [`tiled_row`] give for the address
/// of a byte is the position of that byte.
pub proof fn lemma_tiled_position_of_address(x: int, y: int, width_in_gobs: int, block_height: int)
    requires
        0 <= x < 64 * width_in_gobs,
        0 <= y,
        1 <= block_height,
    ensures
        tiled_column(gob_address(x, y, width_in_gobs, block_height), width_in_gobs, block_height)
            == x,
        tiled_row(gob_address(x, y, width_in_gobs, block_height), width_in_gobs, block_height)
            == y,
{
    let wg = width_in_gobs;
    let bh = block_height;
    lemma_gob_address_digits(x, y, wg, bh);
    lemma_position_in_gob(x, y);
    let a = y / 8 / bh;
    let b = x / 64;
    let c = (y / 8) % bh;
    let within = offset_in_gob(x, y);
    let gob = gob_number(x, y, wg, bh);
    let offset = gob_address(x, y, wg, bh);
    assert(offset == gob * 512 + within);
    lemma_fundamental_div_mod_converse(offset, 512, gob, within);
    lemma_gob_number_digits(gob, a, b, c, wg, bh);
    lemma_fundamental_div_mod(y / 8, bh);
    assert(bh * a == a * bh) by (nonlinear_arith);
}

/// The address of the byte at the position that [`tiled_column`] and
/// [`tiled_row`] give for an offset is that offset, and the position lies
/// within the padded region.
pub proof fn lemma_address_of_tiled_position(
    offset: int,
    row_bytes: int,
    rows: int,
    block_height: int,
)
    requires
        0 <= row_bytes,
        0 <= rows,
        0 <= offset < tiled_region_size(row_bytes, rows, block_height),
        1 <= block_height,
    ensures
        gob_address(
            tiled_column(offset, width_in_gobs(row_bytes), block_height),
            tiled_row(offset, width_in_gobs(row_bytes), block_height),
            width_in_gobs(row_bytes),
            block_height,
        ) == offset,
        0 <= tiled_column(offset, width_in_gobs(row_bytes), block_height) < 64 * width_in_gobs(
            row_bytes,
        ),
        0 <= tiled_row(offset, width_in_gobs(row_bytes), block_height) < 8 * block_height
            * height_in_blocks(rows, block_height),
{
    let wg = width_in_gobs(row_bytes);
    let hb = height_in_blocks(rows, block_height);
    let bh = block_height;
    assert(wg >= 0);
    assert(hb >= 0) by (nonlinear_arith)
        requires
            hb == (rows + 8 * bh - 1) / (8 * bh),
            rows >= 0,
            bh >= 1,
    ;
    assert(wg >= 1 && hb >= 1) by (nonlinear_arith)
        requires
            0 < wg * hb * bh * 512,
            bh >= 1,
            wg >= 0,
            hb >= 0,
    ;
    let within = offset % 512;
    let gob = offset / 512;
    assert(gob < wg * hb * bh) by (nonlinear_arith)
        requires
            gob * 512 <= offset,
            offset < wg * hb * bh * 512,
    ;
    let x = tiled_column(offset, wg, bh);
    let y = tiled_row(offset, wg, bh);
    lemma_offset_in_gob(within);
    lemma_gob_number_of_position(gob, column_in_gob(within), row_in_gob(within), wg, bh);
    lemma_block_row_in_bounds(gob, wg, hb, bh);
    lemma_gob_address_digits(x, y, wg, bh);
    lemma_offset_in_gob_wraps(x, y);
}

} // verus!
