//! Row-major layout of a shape: extents, valid index tuples and flat offsets.

use vstd::prelude::*;

verus! {

/// Why an index tuple names no cell of a shape.
#[derive(Debug, Clone, Copy, PartialEq, Eq, Structural)]
pub enum AccessError {
    /// The tuple holds more or fewer indices than the shape has axes.
    InvalidDimensionality,
    /// Some index is not strictly below the extent of its axis.
    IndexOutOfBounds,
}

/// What checking `indices` against `shape` gives: the dimensionality error
/// first, then the bounds error, else the row-major offset.
pub open spec fn checked_offset(shape: Seq<usize>, indices: Seq<usize>) -> Result<
    usize,
    AccessError,
> {
    if indices.len() != shape.len() {
        Err(AccessError::InvalidDimensionality)
    } else if !in_bounds(shape, indices) {
        Err(AccessError::IndexOutOfBounds)
    } else {
        Ok(offset(shape, indices) as usize)
    }
}

/// Number of cells of a grid of the given extents; the empty shape has one.
pub open spec fn product(shape: Seq<usize>) -> int
    decreases shape.len(),
{
    if shape.len() == 0 {
        1
    } else {
        product(shape.drop_last()) * shape.last()
    }
}

/// Whether `indices` names a cell of `shape`: one index per axis, each
/// strictly below its extent.
pub open spec fn in_bounds(shape: Seq<usize>, indices: Seq<usize>) -> bool {
    &&& indices.len() == shape.len()
    &&& forall|k: int| 0 <= k < shape.len() ==> #[trigger] indices[k] < shape[k]
}

/// Row-major offset of `indices` in `shape`: the left fold
/// `acc * shape[k] + indices[k]` over the axes in order, from `acc = 0`.
pub open spec fn offset(shape: Seq<usize>, indices: Seq<usize>) -> int
    recommends
        indices.len() == shape.len(),
    decreases indices.len(),
{
    if indices.len() == 0 || shape.len() == 0 {
        0
    } else {
        offset(shape.drop_last(), indices.drop_last()) * shape.last() + indices.last()
    }
}

/// The last cell of a shape: each index one below its extent.
pub open spec fn last_cell(shape: Seq<usize>) -> Seq<usize> {
    shape.map_values(|d: usize| (d - 1) as usize)
}

/// A product of extents is never negative.
pub proof fn lemma_product_nonneg(shape: Seq<usize>)
    ensures
        product(shape) >= 0,
    decreases shape.len(),
{
    if shape.len() > 0 {
        lemma_product_nonneg(shape.drop_last());
        let p = product(shape.drop_last());
        let d = shape.last() as int;
        assert(p * d >= 0) by (nonlinear_arith)
            requires
                p >= 0,
                d >= 0,
        ;
    }
}

/// Every valid index tuple lands strictly inside the grid:
/// `0 <= offset(shape, indices) < product(shape)`.
pub proof fn lemma_offset_in_grid(shape: Seq<usize>, indices: Seq<usize>)
    requires
        in_bounds(shape, indices),
    ensures
        0 <= offset(shape, indices) < product(shape),
    decreases shape.len(),
{
    if shape.len() > 0 {
        let s = shape.drop_last();
        let i = indices.drop_last();
        assert forall|k: int| 0 <= k < s.len() implies #[trigger] i[k] < s[k] by {
            assert(indices[k] < shape[k]);
        }
        lemma_offset_in_grid(s, i);
        let o = offset(s, i);
        let p = product(s);
        let d = shape.last() as int;
        let x = indices.last() as int;
        assert(indices[shape.len() - 1] < shape[shape.len() - 1]);
        assert(0 <= o * d + x < p * d) by (nonlinear_arith)
            requires
                0 <= o < p,
                0 <= x < d,
        ;
    }
}

/// Two valid index tuples with the same offset are the same tuple.
pub proof fn lemma_offset_injective(shape: Seq<usize>, a: Seq<usize>, b: Seq<usize>)
    requires
        in_bounds(shape, a),
        in_bounds(shape, b),
        offset(shape, a) == offset(shape, b),
    ensures
        a == b,
    decreases shape.len(),
{
    if shape.len() == 0 {
        assert(a =~= b);
    } else {
        let s = shape.drop_last();
        let a0 = a.drop_last();
        let b0 = b.drop_last();
        assert forall|k: int| 0 <= k < s.len() implies #[trigger] a0[k] < s[k] by {
            assert(a[k] < shape[k]);
        }
        assert forall|k: int| 0 <= k < s.len() implies #[trigger] b0[k] < s[k] by {
            assert(b[k] < shape[k]);
        }
        lemma_offset_in_grid(s, a0);
        lemma_offset_in_grid(s, b0);
        let oa = offset(s, a0);
        let ob = offset(s, b0);
        let d = shape.last() as int;
        let x = a.last() as int;
        let y = b.last() as int;
        assert(a[shape.len() - 1] < shape[shape.len() - 1]);
        assert(b[shape.len() - 1] < shape[shape.len() - 1]);
        assert(oa == ob && x == y) by (nonlinear_arith)
            requires
                oa * d + x == ob * d + y,
                0 <= oa,
                0 <= ob,
                0 <= x < d,
                0 <= y < d,
        ;
        lemma_offset_injective(s, a0, b0);
        assert(a =~= a0.push(x as usize));
        assert(b =~= b0.push(y as usize));
    }
}

/// In a grid with at least one cell, the last cell is valid and its offset
/// is `product(shape) - 1`, the largest offset that a valid tuple reaches.
pub proof fn lemma_last_cell_offset(shape: Seq<usize>)
    requires
        product(shape) > 0,
    ensures
        in_bounds(shape, last_cell(shape)),
        offset(shape, last_cell(shape)) == product(shape) - 1,
        forall|i: Seq<usize>|
            #[trigger] in_bounds(shape, i) ==> offset(shape, i) <= offset(shape, last_cell(shape)),
    decreases shape.len(),
{
    assert forall|i: Seq<usize>| #[trigger] in_bounds(shape, i) implies offset(shape, i)
        < product(shape) by {
        lemma_offset_in_grid(shape, i);
    }
    if shape.len() > 0 {
        let s = shape.drop_last();
        let p = product(s);
        let d = shape.last() as int;
        lemma_product_nonneg(s);
        assert(p > 0 && d > 0) by (nonlinear_arith)
            requires
                p * d > 0,
                p >= 0,
                d >= 0,
        ;
        lemma_last_cell_offset(s);
        let c = last_cell(shape);
        assert(c.drop_last() =~= last_cell(s));
        assert(c.last() == d - 1);
        assert forall|k: int| 0 <= k < shape.len() implies #[trigger] c[k] < shape[k] by {
            if k < s.len() {
                assert(c[k] == last_cell(s)[k]);
            }
        }
        let o = offset(s, last_cell(s));
        assert(o * d + (d - 1) == p * d - 1) by (nonlinear_arith)
            requires
                o == p - 1,
        ;
    }
}

/// A shape with a zero extent has no cells.
pub proof fn lemma_zero_extent(shape: Seq<usize>, j: int)
    requires
        0 <= j < shape.len(),
        shape[j] == 0,
    ensures
        product(shape) == 0,
    decreases shape.len(),
{
    let p = product(shape.drop_last());
    let d = shape.last() as int;
    if j < shape.len() - 1 {
        assert(shape.drop_last()[j] == shape[j]);
        lemma_zero_extent(shape.drop_last(), j);
        assert(p * d == 0) by (nonlinear_arith)
            requires
                p == 0,
        ;
    } else {
        assert(p * d == 0) by (nonlinear_arith)
            requires
                d == 0,
        ;
    }
}

/// With no zero extent, the product over the first `k` axes is at most the
/// product over all of them.
pub proof fn lemma_prefix_product_le(shape: Seq<usize>, k: int)
    requires
        0 <= k <= shape.len(),
        forall|j: int| 0 <= j < shape.len() ==> #[trigger] shape[j] >= 1,
    ensures
        0 <= product(shape.take(k)) <= product(shape),
    decreases shape.len(),
{
    if k == shape.len() {
        assert(shape.take(k) =~= shape);
        lemma_product_nonneg(shape);
    } else {
        let s = shape.drop_last();
        assert(s.take(k) =~= shape.take(k));
        assert forall|j: int| 0 <= j < s.len() implies #[trigger] s[j] >= 1 by {
            assert(shape[j] >= 1);
        }
        lemma_prefix_product_le(s, k);
        let p = product(s);
        let d = shape.last() as int;
        assert(shape[shape.len() - 1] >= 1);
        assert(p <= p * d) by (nonlinear_arith)
            requires
                p >= 0,
                d >= 1,
        ;
    }
}
} // verus!
