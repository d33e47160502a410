//! The array type: a flat buffer together with the shape that lays it out.

use vstd::prelude::*;

use crate::layout::{
    checked_offset, in_bounds, lemma_offset_in_grid, lemma_offset_injective, lemma_prefix_product_le, lemma_zero_extent,
    offset, product, AccessError,
};

verus! {

/// A multidimensional array of `T`, stored row-major in one flat buffer.
///
/// The buffer is not tied to the shape: it starts empty and is filled by the
/// owner with `replace_buffer`; access needs the addressed cell to lie within it.
#[derive(Debug)]
pub struct Mdvec<T: Clone> {
    internal: Vec<T>,
    dim: Vec<usize>,
}

/// Number of cells of `dim`.
fn cell_count(dim: &[usize]) -> (n: usize)
    requires
        product(dim@) <= usize::MAX,
    ensures
        n == product(dim@),
{
    let mut k: usize = 0;
    while k < dim.len()
        invariant
            k <= dim@.len(),
            forall|j: int| 0 <= j < k ==> #[trigger] dim@[j] >= 1,
        decreases dim@.len() - k,
    {
        if dim[k] == 0 {
            proof {
                lemma_zero_extent(dim@, k as int);
            }
            return 0;
        }
        k = k + 1;
    }
    let mut n: usize = 1;
    let mut k: usize = 0;
    while k < dim.len()
        invariant
            k <= dim@.len(),
            forall|j: int| 0 <= j < dim@.len() ==> #[trigger] dim@[j] >= 1,
            product(dim@) <= usize::MAX,
            n == product(dim@.take(k as int)),
        decreases dim@.len() - k,
    {
        proof {
            lemma_prefix_product_le(dim@, k + 1);
            assert(dim@.take(k + 1).drop_last() =~= dim@.take(k as int));
        }
        n = n * dim[k];
        k = k + 1;
    }
    assert(dim@.take(k as int) =~= dim@);
    n
}

impl<T: Clone> Mdvec<T> {
    /// The extent of each axis, outermost first.
    pub closed spec fn shape(&self) -> Seq<usize> {
        self.dim@
    }

    /// The flat buffer, in row-major order.
    pub closed spec fn data(&self) -> Seq<T> {
        self.internal@
    }

    /// The shape's cell count fits in a `usize`, so every offset does.
    pub closed spec fn wf(&self) -> bool {
        product(self.dim@) <= usize::MAX
    }

    /// Whether `indices` names a cell of the shape that the buffer holds.
    pub open spec fn can_access(&self, indices: Seq<usize>) -> bool {
        &&& in_bounds(self.shape(), indices)
        &&& offset(self.shape(), indices) < self.data().len()
    }

    /// The element that `indices` names.
    pub open spec fn element(&self, indices: Seq<usize>) -> T {
        self.data()[offset(self.shape(), indices)]
    }

    /// An array of no axes and an empty buffer.
    pub fn new() -> (r: Self)
        ensures
            r.wf(),
            r.shape() == Seq::<usize>::empty(),
            r.data() == Seq::<T>::empty(),
    {
        Self { internal: Vec::new(), dim: Vec::new() }
    }

    /// An array of the given shape whose buffer is empty, with room reserved
    /// for all of its cells.
    pub fn with_capacity(dim: &[usize]) -> (r: Self)
        requires
            product(dim@) <= usize::MAX,
        ensures
            r.wf(),
            r.shape() == dim@,
            r.data() == Seq::<T>::empty(),
    {
        let internal_cap = cell_count(dim);
        let mut shape: Vec<usize> = Vec::new();
        let mut k: usize = 0;
        while k < dim.len()
            invariant
                k <= dim@.len(),
                shape@ == dim@.take(k as int),
            decreases dim@.len() - k,
        {
            shape.push(dim[k]);
            k = k + 1;
            assert(shape@ =~= dim@.take(k as int));
        }
        assert(dim@.take(k as int) =~= dim@);
        Self { internal: Vec::with_capacity(internal_cap), dim: shape }
    }

    /// Row-major offset of a valid index tuple.
    fn offset_of(&self, indices: &[usize]) -> (o: usize)
        requires
            self.wf(),
            in_bounds(self.shape(), indices@),
        ensures
            o == offset(self.shape(), indices@),
    {
        let ghost shape = self.dim@;
        assert forall|j: int| 0 <= j < shape.len() implies #[trigger] shape[j] >= 1 by {
            assert(indices@[j] < shape[j]);
        }
        let mut acc: usize = 0;
        let mut k: usize = 0;
        while k < indices.len()
            invariant
                shape == self.dim@,
                in_bounds(shape, indices@),
                forall|j: int| 0 <= j < shape.len() ==> #[trigger] shape[j] >= 1,
                product(shape) <= usize::MAX,
                k <= indices@.len(),
                acc == offset(shape.take(k as int), indices@.take(k as int)),
            decreases indices@.len() - k,
        {
            let ghost s = shape.take(k as int);
            let ghost i = indices@.take(k as int);
            proof {
                assert forall|j: int| 0 <= j < s.len() implies #[trigger] i[j] < s[j] by {
                    assert(indices@[j] < shape[j]);
                }
                lemma_offset_in_grid(s, i);
                lemma_prefix_product_le(shape, k + 1);
                assert(shape.take(k + 1).drop_last() =~= s);
                assert(indices@.take(k + 1).drop_last() =~= i);
                assert(indices@[k as int] < shape[k as int]);
                let p = product(s);
                let d = shape[k as int] as int;
                let x = indices@[k as int] as int;
                assert(acc * d + x < p * d) by (nonlinear_arith)
                    requires
                        0 <= acc < p,
                        0 <= x < d,
                ;
            }
            acc = acc * self.dim[k] + indices[k];
            k = k + 1;
        }
        assert(shape.take(k as int) =~= shape);
        assert(indices@.take(k as int) =~= indices@);
        acc
    }

    /// Converts a multidimensional index tuple to a flat offset, or says why
    /// it names no cell of the shape.
    pub fn flat_index(&self, indices: &[usize]) -> (r: Result<usize, AccessError>)
        requires
            self.wf(),
        ensures
            r == checked_offset(self.shape(), indices@),
    {
        if indices.len() != self.dim.len() {
            return Err(AccessError::InvalidDimensionality);
        }
        let mut k: usize = 0;
        while k < indices.len()
            invariant
                indices@.len() == self.dim@.len(),
                k <= indices@.len(),
                forall|j: int| 0 <= j < k ==> #[trigger] indices@[j] < self.dim@[j],
            decreases indices@.len() - k,
        {
            if indices[k] >= self.dim[k] {
                return Err(AccessError::IndexOutOfBounds);
            }
            k = k + 1;
        }
        Ok(self.offset_of(indices))
    }

    /// The element at the given indices.
    pub fn get(&self, indices: &[usize]) -> (r: &T)
        requires
            self.wf(),
            self.can_access(indices@),
        ensures
            *r == self.element(indices@),
    {
        let flat_index = self.offset_of(indices);
        &self.internal[flat_index]
    }

    /// A mutable reference to the element at the given indices.
    pub fn get_mut(&mut self, indices: &[usize]) -> (r: &mut T)
        requires
            old(self).wf(),
            old(self).can_access(indices@),
        ensures
            *r == old(self).element(indices@),
            final(self).wf(),
            final(self).shape() == old(self).shape(),
            final(self).data() == old(self).data().update(
                offset(old(self).shape(), indices@),
                *final(r),
            ),
    {
        let flat_index = self.offset_of(indices);
        &mut self.internal[flat_index]
    }

    /// Overwrites the element at the given indices with `value`.
    pub fn set(&mut self, indices: &[usize], value: T)
        requires
            old(self).wf(),
            old(self).can_access(indices@),
        ensures
            final(self).wf(),
            final(self).shape() == old(self).shape(),
            final(self).data() == old(self).data().update(
                offset(old(self).shape(), indices@),
                value,
            ),
    {
        let flat_index = self.offset_of(indices);
        self.internal[flat_index] = value;
    }

    /// Puts `buffer` in place of the flat buffer and hands back the one it
    /// replaces; the shape stays.
    pub fn replace_buffer(&mut self, buffer: Vec<T>) -> (previous: Vec<T>)
        requires
            old(self).wf(),
        ensures
            final(self).wf(),
            final(self).shape() == old(self).shape(),
            final(self).data() == buffer@,
            previous@ == old(self).data(),
    {
        let mut previous = buffer;
        core::mem::swap(&mut self.internal, &mut previous);
        previous
    }
}

/// Reading after `set`: where `after` is `before` with `value` written at
/// `written` (as `set` ensures), reading `read` gives `value` if it is the
/// cell written, and what `before` held there otherwise.
pub proof fn lemma_get_after_set<T: Clone>(
    before: Mdvec<T>,
    after: Mdvec<T>,
    written: Seq<usize>,
    read: Seq<usize>,
    value: T,
)
    requires
        before.can_access(written),
        before.can_access(read),
        after.shape() == before.shape(),
        after.data() == before.data().update(offset(before.shape(), written), value),
    ensures
        after.can_access(read),
        after.element(read) == if read == written {
            value
        } else {
            before.element(read)
        },
{
    lemma_offset_in_grid(before.shape(), written);
    lemma_offset_in_grid(before.shape(), read);
    if read != written {
        if offset(before.shape(), read) == offset(before.shape(), written) {
            lemma_offset_injective(before.shape(), read, written);
        }
    }
}

impl<'a, T: Clone> core::ops::Index<&'a [usize]> for Mdvec<T> {
    type Output = T;

    fn index(&self, indices: &'a [usize]) -> (r: &T)
        ensures
            *r == self.element(indices@),
    {
        self.get(indices)
    }
}

impl<'a, T: Clone> vstd::std_specs::core::IndexSpecImpl<&'a [usize]> for Mdvec<T> {
    open spec fn index_req(&self, indices: &&'a [usize]) -> bool {
        self.wf() && self.can_access(indices@)
    }
}

} // verus!
