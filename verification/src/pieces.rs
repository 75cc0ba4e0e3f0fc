//! Sequences of bytes made of consecutive pieces.
//!
//! The data of a surface is a run of pieces of known sizes: the regions of a
//! mipmap, the mipmaps of a layer, the layers of a surface. The functions
//! here describe such runs and the lemmas relate a run to its pieces.

use vstd::prelude::*;

verus! {

/// The first `count` pieces, one after another.
pub open spec fn concat_pieces(count: int, piece: spec_fn(int) -> Seq<u8>) -> Seq<u8>
    decreases count,
{
    if count <= 0 {
        Seq::empty()
    } else {
        concat_pieces(count - 1, piece) + piece(count - 1)
    }
}

/// The sum of the first `count` sizes. This is where piece number `count`
/// starts in a run of pieces of these sizes.
pub open spec fn total_size(count: int, size: spec_fn(int) -> int) -> int
    decreases count,
{
    if count <= 0 {
        0
    } else {
        total_size(count - 1, size) + size(count - 1)
    }
}

/// Piece number `k` of `data` when cut into pieces of the given sizes.
pub open spec fn cut(data: Seq<u8>, size: spec_fn(int) -> int) -> spec_fn(int) -> Seq<u8> {
    |k: int| data.subrange(total_size(k, size), total_size(k + 1, size))
}

/// The same size for every piece.
pub open spec fn uniform(size: int) -> spec_fn(int) -> int {
    |k: int| size
}

/// Sizes that are not negative add up to sums that do not decrease.
pub proof fn lemma_total_size_grows(from: int, to: int, size: spec_fn(int) -> int)
    requires
        0 <= from <= to,
        forall|k: int| 0 <= k < to ==> 0 <= #[trigger] size(k),
    ensures
        0 <= total_size(from, size) <= total_size(to, size),
    decreases to,
{
    if to > 0 {
        if from < to {
            lemma_total_size_grows(from, to - 1, size);
        } else {
            lemma_total_size_grows(from - 1, to - 1, size);
        }
    }
}

/// Pieces of one size add up to a multiple of it.
pub proof fn lemma_total_size_uniform(count: int, size: int)
    requires
        0 <= count,
    ensures
        total_size(count, uniform(size)) == count * size,
    decreases count,
{
    if count > 0 {
        lemma_total_size_uniform(count - 1, size);
        assert(count * size == (count - 1) * size + size) by (nonlinear_arith);
    } else {
        assert(0 * size == 0) by (nonlinear_arith);
    }
}

/// Sums of equal sizes are equal.
pub proof fn lemma_total_size_equal(
    count: int,
    first: spec_fn(int) -> int,
    second: spec_fn(int) -> int,
)
    requires
        forall|k: int| 0 <= k < count ==> #[trigger] first(k) == second(k),
    ensures
        total_size(count, first) == total_size(count, second),
    decreases count,
{
    if count > 0 {
        lemma_total_size_equal(count - 1, first, second);
    }
}

/// A run is as long as the sizes of its pieces together.
pub proof fn lemma_concat_len(
    count: int,
    piece: spec_fn(int) -> Seq<u8>,
    size: spec_fn(int) -> int,
)
    requires
        forall|k: int| 0 <= k < count ==> (#[trigger] piece(k)).len() == size(k),
    ensures
        concat_pieces(count, piece).len() == total_size(count, size),
    decreases count,
{
    if count > 0 {
        lemma_concat_len(count - 1, piece, size);
    }
}

/// Runs of equal pieces are equal.
pub proof fn lemma_concat_equal(
    count: int,
    first: spec_fn(int) -> Seq<u8>,
    second: spec_fn(int) -> Seq<u8>,
)
    requires
        forall|k: int| 0 <= k < count ==> #[trigger] first(k) == second(k),
    ensures
        concat_pieces(count, first) == concat_pieces(count, second),
    decreases count,
{
    if count > 0 {
        lemma_concat_equal(count - 1, first, second);
    }
}

/// Cutting a run at the sizes of its pieces gives the pieces back.
pub proof fn lemma_cut_concat(
    count: int,
    piece: spec_fn(int) -> Seq<u8>,
    size: spec_fn(int) -> int,
    k: int,
)
    requires
        0 <= k < count,
        forall|j: int| 0 <= j < count ==> (#[trigger] piece(j)).len() == size(j),
    ensures
        0 <= total_size(k, size) <= total_size(k + 1, size) <= concat_pieces(count, piece).len(),
        cut(concat_pieces(count, piece), size)(k) == piece(k),
    decreases count,
{
    let shorter = concat_pieces(count - 1, piece);
    let whole = concat_pieces(count, piece);
    lemma_concat_len(count - 1, piece, size);
    lemma_concat_len(count, piece, size);
    assert(whole == shorter + piece(count - 1));
    if k == count - 1 {
        assert(whole.subrange(total_size(k, size), total_size(k + 1, size)) =~= piece(k));
    } else {
        lemma_cut_concat(count - 1, piece, size, k);
        assert(whole.subrange(total_size(k, size), total_size(k + 1, size)) =~= shorter.subrange(
            total_size(k, size),
            total_size(k + 1, size),
        ));
    }
}

/// The pieces cut from `data` make up the start of `data`.
pub proof fn lemma_concat_cut(count: int, data: Seq<u8>, size: spec_fn(int) -> int)
    requires
        0 <= count,
        forall|k: int| 0 <= k < count ==> 0 <= #[trigger] size(k),
        total_size(count, size) <= data.len(),
    ensures
        concat_pieces(count, cut(data, size)) == data.subrange(0, total_size(count, size)),
    decreases count,
{
    if count > 0 {
        lemma_total_size_grows(count - 1, count, size);
        lemma_total_size_grows(0, count - 1, size);
        lemma_concat_cut(count - 1, data, size);
        assert(concat_pieces(count, cut(data, size)) =~= data.subrange(
            0,
            total_size(count, size),
        ));
    } else {
        assert(concat_pieces(count, cut(data, size)) =~= data.subrange(
            0,
            total_size(count, size),
        ));
    }
}

/// Piece number `k` of pieces of one size starts at `k * size`.
pub proof fn lemma_cut_uniform(data: Seq<u8>, size: int, k: int)
    requires
        0 <= k,
        0 <= size,
    ensures
        0 <= k * size,
        (k + 1) * size == k * size + size,
        cut(data, uniform(size))(k) == data.subrange(k * size, (k + 1) * size),
        (k + 1) * size <= data.len() ==> cut(data, uniform(size))(k).len() == size,
{
    lemma_total_size_uniform(k, size);
    lemma_total_size_uniform(k + 1, size);
    assert(0 <= k * size && (k + 1) * size == k * size + size) by (nonlinear_arith)
        requires
            0 <= k,
            0 <= size,
    ;
}

/// A piece cut from a part of `data` is a part of `data`.
pub proof fn lemma_subrange_of_subrange(data: Seq<u8>, start: int, end: int, from: int, to: int)
    requires
        0 <= start <= end <= data.len(),
        0 <= from <= to <= end - start,
    ensures
        data.subrange(start, end).subrange(from, to) == data.subrange(start + from, start + to),
{
    assert(data.subrange(start, end).subrange(from, to) =~= data.subrange(
        start + from,
        start + to,
    ));
}

/// Two sequences that start with the same bytes have the pieces in common
/// that lie within these bytes.
pub proof fn lemma_cut_agrees(
    first: Seq<u8>,
    second: Seq<u8>,
    size: spec_fn(int) -> int,
    count: int,
    k: int,
)
    requires
        0 <= k < count,
        forall|j: int| 0 <= j < count ==> 0 <= #[trigger] size(j),
        total_size(count, size) <= first.len(),
        total_size(count, size) <= second.len(),
        first.subrange(0, total_size(count, size)) == second.subrange(0, total_size(count, size)),
    ensures
        cut(first, size)(k) == cut(second, size)(k),
        cut(first, size)(k).len() == size(k),
        0 <= total_size(k, size),
        total_size(k + 1, size) == total_size(k, size) + size(k),
        total_size(k + 1, size) <= total_size(count, size),
{
    let whole = total_size(count, size);
    let from = total_size(k, size);
    let to = total_size(k + 1, size);
    lemma_total_size_grows(k, k + 1, size);
    lemma_total_size_grows(k + 1, count, size);
    lemma_subrange_of_subrange(first, 0, whole, from, to);
    lemma_subrange_of_subrange(second, 0, whole, from, to);
}

} // verus!
