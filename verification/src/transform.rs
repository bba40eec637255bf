//! Axis-wise transformations: slicing, slice assignment, stacking and axis
//! permutation.  All of them move elements without interpreting them, so
//! they are specified over the linear row-major buffer through the block
//! decomposition `offset = outer * (n * inner) + a * inner + ii`, where `n`
//! is the dimension at the distinguished axis and `inner` its stride.

use vstd::prelude::*;

use crate::datum::elem_fits;
use crate::error::TensorError;
use crate::shape::{in_bounds, index_of, lemma_linear_bound, lemma_prod_pos, lemma_prod_unfold,
    lemma_suffix_pos, linear_of, prod, stride_of};
use crate::tensor::{clone_vec_copy, fill_copy, Tensor};
use vstd::arithmetic::div_mod::{lemma_fundamental_div_mod, lemma_fundamental_div_mod_converse,
    lemma_multiply_divide_lt, lemma_remainder_lower, lemma_remainder_upper};

verus! {

/// The coordinate along the distinguished axis of the element at linear
/// offset `j`, in a buffer whose axis has dimension `n` and stride `inner`.
pub open spec fn axis_coord(j: int, inner: int, n: int) -> int {
    (j / inner) % n
}

/// The linear offset that corresponds to `j` after the dimension at the
/// distinguished axis changes from `n_dst` to `n_src` and the coordinate
/// along it moves by `delta`.
pub open spec fn reindex(j: int, n_dst: int, n_src: int, inner: int, delta: int) -> int {
    (j / (n_dst * inner)) * (n_src * inner) + (j % (n_dst * inner)) + delta * inner
}

/// The three block coordinates of `o * (n * inner) + a * inner + ii`.
pub proof fn lemma_block_coords(o: int, a: int, ii: int, n: int, inner: int)
    requires
        inner > 0,
        n > 0,
        0 <= o,
        0 <= a < n,
        0 <= ii < inner,
    ensures
        (o * (n * inner) + a * inner + ii) / (n * inner) == o,
        (o * (n * inner) + a * inner + ii) % (n * inner) == a * inner + ii,
        (o * (n * inner) + a * inner + ii) / inner == o * n + a,
        (o * (n * inner) + a * inner + ii) % inner == ii,
        axis_coord(o * (n * inner) + a * inner + ii, inner, n) == a,
{
    let j = o * (n * inner) + a * inner + ii;
    assert(0 <= a * inner + ii < n * inner) by (nonlinear_arith)
        requires
            0 <= a < n,
            0 <= ii < inner,
            inner > 0,
    ;
    assert(n * inner > 0) by (nonlinear_arith)
        requires
            n > 0,
            inner > 0,
    ;
    lemma_fundamental_div_mod_converse(j, n * inner, o, a * inner + ii);
    assert(j == (o * n + a) * inner + ii) by (nonlinear_arith)
        requires
            j == o * (n * inner) + a * inner + ii,
    ;
    lemma_fundamental_div_mod_converse(j, inner, o * n + a, ii);
    lemma_fundamental_div_mod_converse(o * n + a, n, o, a);
}

/// Bounds and coordinates of a reindexed offset.
pub proof fn lemma_reindex_bounds(j: int, outer: int, n: int, n_src: int, inner: int, delta: int)
    requires
        inner > 0,
        n > 0,
        n_src > 0,
        0 <= j < outer * (n * inner),
        0 <= axis_coord(j, inner, n) + delta < n_src,
    ensures
        0 <= reindex(j, n, n_src, inner, delta) < outer * (n_src * inner),
        axis_coord(reindex(j, n, n_src, inner, delta), inner, n_src) == axis_coord(j, inner, n)
            + delta,
        reindex(j, n, n_src, inner, delta) == (j / (n * inner)) * (n_src * inner) + (axis_coord(
            j,
            inner,
            n,
        ) + delta) * inner + (j % inner),
        j == (j / (n * inner)) * (n * inner) + axis_coord(j, inner, n) * inner + (j % inner),
        0 <= j / (n * inner) < outer,
        0 <= j % inner < inner,
        reindex(j, n, n_src, inner, delta) % inner == j % inner,
        reindex(j, n, n_src, inner, delta) / (n_src * inner) == j / (n * inner),
{
    assert(n * inner > 0) by (nonlinear_arith)
        requires
            n > 0,
            inner > 0,
    ;
    let o = j / (n * inner);
    let r = j % (n * inner);
    lemma_fundamental_div_mod(j, n * inner);
    lemma_remainder_lower(j, n * inner);
    lemma_remainder_upper(j, n * inner);
    assert(0 <= o) by (nonlinear_arith)
        requires
            j >= 0,
            n * inner > 0,
            j == (n * inner) * o + r,
            0 <= r < n * inner,
    ;
    assert(outer * (n * inner) == (n * inner) * outer) by (nonlinear_arith);
    lemma_multiply_divide_lt(j, n * inner, outer);
    assert(o < outer);
    let a = r / inner;
    let ii = r % inner;
    lemma_fundamental_div_mod(r, inner);
    lemma_remainder_lower(r, inner);
    lemma_remainder_upper(r, inner);
    assert(0 <= ii < inner);
    assert(0 <= a < n) by (nonlinear_arith)
        requires
            r == inner * a + ii,
            0 <= ii < inner,
            0 <= r < n * inner,
            inner > 0,
    ;
    assert(r == a * inner + ii) by (nonlinear_arith)
        requires
            r == inner * a + ii,
    ;
    assert(j == o * (n * inner) + a * inner + ii) by (nonlinear_arith)
        requires
            j == (n * inner) * o + r,
            r == a * inner + ii,
    ;
    lemma_block_coords(o, a, ii, n, inner);
    assert(axis_coord(j, inner, n) == a);
    let s = reindex(j, n, n_src, inner, delta);
    assert(s == o * (n_src * inner) + (a + delta) * inner + ii) by (nonlinear_arith)
        requires
            s == o * (n_src * inner) + (a * inner + ii) + delta * inner,
    ;
    lemma_block_coords(o, a + delta, ii, n_src, inner);
    assert(s < outer * (n_src * inner)) by (nonlinear_arith)
        requires
            s == o * (n_src * inner) + (a + delta) * inner + ii,
            0 <= o < outer,
            0 <= a + delta < n_src,
            0 <= ii < inner,
            inner > 0,
            n_src > 0,
    ;
    assert(s >= 0) by (nonlinear_arith)
        requires
            s == o * (n_src * inner) + (a + delta) * inner + ii,
            o >= 0,
            a + delta >= 0,
            ii >= 0,
            inner > 0,
            n_src > 0,
    ;
    assert(j % inner == ii) by {
        assert(j == o * (n * inner) + a * inner + ii);
        lemma_block_coords(o, a, ii, n, inner);
    }
}

/// The element count splits as `outer * (n * inner)` at any axis.
pub proof fn lemma_axis_split(s: Seq<usize>, axis: int)
    requires
        0 <= axis < s.len(),
    ensures
        prod(s) == prod(s.take(axis)) * ((s[axis] as nat) * prod(s.skip(axis + 1))),
{
    crate::shape::lemma_prod_split(s, axis);
    lemma_prod_unfold(s, axis);
}

impl Tensor {
    /// Copy the half-open range `[src_start, src_end)` of `src` along `axis`
    /// over the half-open range `[start, end)` of `self`, all bounds already
    /// validated.
    fn assign_range(
        &mut self,
        start: usize,
        end: usize,
        src: &Tensor,
        src_start: usize,
        src_end: usize,
        axis: usize,
    )
        requires
            old(self).wf(),
            src.wf(),
            old(self).dt == src.dt,
            old(self).shape@.len() == src.shape@.len(),
            axis < old(self).shape@.len(),
            forall|i: int|
                0 <= i < src.shape@.len() && i != axis ==> old(self).shape@[i] == #[trigger] src.shape@[i],
            start <= end <= old(self).shape@[axis as int],
            src_start <= src_end <= src.shape@[axis as int],
            src_end - src_start == end - start,
        ensures
            final(self).wf(),
            final(self).dt == old(self).dt,
            final(self).shape@ == old(self).shape@,
            final(self).strides@ == old(self).strides@,
            final(self).align == old(self).align,
            forall|j: int|
                0 <= j < final(self).elems().len() ==> #[trigger] final(self).elems()[j] == {
                    let inner = stride_of(old(self).shape@, axis as int) as int;
                    let n = old(self).shape@[axis as int] as int;
                    let ns = src.shape@[axis as int] as int;
                    if start <= axis_coord(j, inner, n) < end {
                        src.elems()[reindex(j, n, ns, inner, src_start - start)]
                    } else {
                        old(self).elems()[j]
                    }
                },
    {
        let ghost dshape = self.shape@;
        let ghost ginner = stride_of(dshape, axis as int) as int;
        let ghost gn = dshape[axis as int] as int;
        let ghost gns = src.shape@[axis as int] as int;
        let n = self.shape[axis];
        let ns_dim = src.shape[axis];
        let inner = self.strides[axis] as usize;
        let total = self.data.len();
        let src_total = src.data.len();
        let mut j: usize = 0;
        while j < total
            invariant
                j <= total,
                self.wf(),
                src.wf(),
                self.dt == old(self).dt,
                self.dt == src.dt,
                self.shape@ == old(self).shape@,
                self.strides@ == old(self).strides@,
                self.align == old(self).align,
                dshape == self.shape@,
                ginner == stride_of(dshape, axis as int) as int,
                gn == dshape[axis as int] as int,
                gns == src.shape@[axis as int] as int,
                axis < dshape.len(),
                dshape.len() == src.shape@.len(),
                forall|i: int|
                    0 <= i < src.shape@.len() && i != axis ==> dshape[i] == #[trigger] src.shape@[i],
                start <= end <= gn,
                src_start <= src_end <= gns,
                src_end - src_start == end - start,
                n == gn,
                ns_dim == gns,
                inner == ginner,
                total == self.elems().len(),
                total == prod(dshape),
                src_total == src.elems().len(),
                src_total == prod(src.shape@),
                forall|k: int|
                    0 <= k < j ==> #[trigger] self.elems()[k] == (if start <= axis_coord(
                        k,
                        ginner,
                        gn,
                    ) < end {
                        src.elems()[reindex(k, gn, gns, ginner, src_start - start)]
                    } else {
                        old(self).elems()[k]
                    }),
                forall|k: int| j <= k < total ==> #[trigger] self.elems()[k] == old(self).elems()[k],
            decreases total - j,
        {
            proof {
                // every dimension is positive since an element exists
                lemma_prod_pos(dshape);
                lemma_suffix_pos(dshape, axis as int + 1);
                assert(ginner >= 1);
                assert(gn >= 1);
            }
            let a = (j / inner) % n;
            proof {
                assert(a == axis_coord(j as int, ginner, gn));
            }
            if start <= a && a < end {
                let ghost gouter = prod(dshape.take(axis as int)) as int;
                let ghost gsrc_j = reindex(j as int, gn, gns, ginner, src_start - start);
                proof {
                    // the source offset is inside the source buffer
                    lemma_axis_split(dshape, axis as int);
                    assert(total == gouter * (gn * ginner));
                    lemma_reindex_bounds(j as int, gouter, gn, gns, ginner, src_start - start);
                    // the source splits with the same outer and inner counts
                    lemma_axis_split(src.shape@, axis as int);
                    assert(src.shape@.take(axis as int) =~= dshape.take(axis as int));
                    assert(src.shape@.skip(axis as int + 1) =~= dshape.skip(axis as int + 1));
                    assert(src_total == gouter * (gns * ginner));
                    // no partial product overflows
                    assert(gouter >= 1) by {
                        lemma_suffix_pos(dshape, axis as int);
                        assert(forall|q: int|
                            0 <= q < dshape.take(axis as int).len()
                                ==> #[trigger] dshape.take(axis as int)[q] == dshape[q]);
                    }
                    assert(gn * ginner <= total) by (nonlinear_arith)
                        requires
                            total == gouter * (gn * ginner),
                            gouter >= 1,
                            gn * ginner >= 0,
                    ;
                    assert(gns * ginner <= src_total) by (nonlinear_arith)
                        requires
                            src_total == gouter * (gns * ginner),
                            gouter >= 1,
                            gns * ginner >= 0,
                    ;
                    assert(gns * ginner >= 0) by (nonlinear_arith)
                        requires
                            gns >= 0,
                            ginner >= 0,
                    ;
                }
                let o = j / (n * inner);
                let rem = j % inner;
                proof {
                    assert(o == (j as int) / (gn * ginner));
                    assert(gsrc_j == o * (gns * ginner) + (axis_coord(j as int, ginner, gn)
                        + (src_start - start)) * ginner + (j as int) % ginner);
                    assert(0 <= gsrc_j < src_total);
                    assert(o * (gns * ginner) >= 0) by (nonlinear_arith)
                        requires
                            o >= 0,
                            gns >= 1,
                            ginner >= 1,
                    ;
                    assert((a + src_start - start) * ginner >= 0) by (nonlinear_arith)
                        requires
                            a + src_start - start >= 0,
                            ginner >= 1,
                    ;
                }
                let a_src = a - start + src_start;
                let src_j = o * (ns_dim * inner) + a_src * inner + rem;
                proof {
                    assert(src_j == gsrc_j);
                }
                let e = src.data.get(src_j);
                proof {
                    // the element fits this tensor's kind, so its class matches
                    assert(elem_fits(src.dt, src.elems()[gsrc_j]));
                    assert(elem_fits(self.dt, e@));
                }
                self.data.set(j, e);
            }
            j = j + 1;
        }
    }

    /// Copy values from `src`'s half-open range `[src_start, src_end)` along
    /// `axis` into this tensor's half-open range `[start, end)` along the
    /// same axis.  All preconditions are checked, each producing its own
    /// error.
    pub fn assign_slice(
        &mut self,
        start: usize,
        end: usize,
        src: &Tensor,
        src_start: usize,
        src_end: usize,
        axis: usize,
    ) -> (r: Result<(), TensorError>)
        requires
            old(self).wf(),
            src.wf(),
        ensures
            final(self).wf(),
            final(self).dt == old(self).dt,
            final(self).shape@ == old(self).shape@,
            final(self).strides@ == old(self).strides@,
            final(self).align == old(self).align,
            match r {
                Ok(()) => {
                    &&& old(self).dt == src.dt
                    &&& old(self).shape@.len() == src.shape@.len()
                    &&& axis < old(self).shape@.len()
                    &&& forall|i: int|
                        0 <= i < src.shape@.len() && i != axis ==> old(self).shape@[i]
                            == #[trigger] src.shape@[i]
                    &&& start <= end <= old(self).shape@[axis as int]
                    &&& src_start <= src_end <= src.shape@[axis as int]
                    &&& src_end - src_start == end - start
                    &&& forall|j: int|
                        0 <= j < final(self).elems().len() ==> #[trigger] final(self).elems()[j]
                            == {
                            let inner = stride_of(old(self).shape@, axis as int) as int;
                            let n = old(self).shape@[axis as int] as int;
                            let ns = src.shape@[axis as int] as int;
                            if start <= axis_coord(j, inner, n) < end {
                                src.elems()[reindex(j, n, ns, inner, src_start - start)]
                            } else {
                                old(self).elems()[j]
                            }
                        }
                },
                Err(e) => {
                    &&& final(self).elems() == old(self).elems()
                    &&& if old(self).dt != src.dt {
                        e is KindMismatch
                    } else if !(start <= end && src_start <= src_end && src_end - src_start == end
                        - start) {
                        e is ShapeMismatch
                    } else if axis >= old(self).shape@.len() {
                        e is IndexOutOfRange
                    } else if !(old(self).shape@.len() == src.shape@.len() && (forall|i: int|
                        0 <= i < src.shape@.len() && i != axis ==> old(self).shape@[i]
                            == #[trigger] src.shape@[i])) {
                        e is ShapeMismatch
                    } else {
                        e is IndexOutOfRange && (src_end > src.shape@[axis as int] || end > old(
                            self,
                        ).shape@[axis as int])
                    }
                },
            },
            (r is Err) <==> !{
                &&& old(self).dt == src.dt
                &&& old(self).shape@.len() == src.shape@.len()
                &&& axis < old(self).shape@.len()
                &&& (forall|i: int|
                    0 <= i < src.shape@.len() && i != axis ==> old(self).shape@[i]
                        == #[trigger] src.shape@[i])
                &&& start <= end <= old(self).shape@[axis as int]
                &&& src_start <= src_end <= src.shape@[axis as int]
                &&& src_end - src_start == end - start
            },
    {
        if self.dt != src.dt {
            return Err(TensorError::KindMismatch);
        }
        if start > end || src_start > src_end || src_end - src_start != end - start {
            return Err(TensorError::ShapeMismatch);
        }
        if axis >= self.shape.len() {
            return Err(TensorError::IndexOutOfRange);
        }
        if self.shape.len() != src.shape.len() {
            return Err(TensorError::ShapeMismatch);
        }
        let mut i: usize = 0;
        while i < self.shape.len()
            invariant
                i <= self.shape@.len(),
                *self == *old(self),
                self.wf(),
                self.dt == src.dt,
                start <= end,
                src_start <= src_end,
                src_end - src_start == end - start,
                axis < self.shape@.len(),
                self.shape@.len() == src.shape@.len(),
                forall|k: int|
                    0 <= k < i && k != axis ==> self.shape@[k] == #[trigger] src.shape@[k],
            decreases self.shape@.len() - i,
        {
            if i != axis && self.shape[i] != src.shape[i] {
                return Err(TensorError::ShapeMismatch);
            }
            i = i + 1;
        }
        if src_end > src.shape[axis] {
            return Err(TensorError::IndexOutOfRange);
        }
        if end > self.shape[axis] {
            return Err(TensorError::IndexOutOfRange);
        }
        self.assign_range(start, end, src, src_start, src_end, axis);
        Ok(())
    }

    /// `assign_slice` without the checks: the caller guarantees every
    /// precondition.
    pub fn assign_slice_unchecked(
        &mut self,
        start: usize,
        end: usize,
        src: &Tensor,
        src_start: usize,
        src_end: usize,
        axis: usize,
    )
        requires
            old(self).wf(),
            src.wf(),
            old(self).dt == src.dt,
            old(self).shape@.len() == src.shape@.len(),
            axis < old(self).shape@.len(),
            forall|i: int|
                0 <= i < src.shape@.len() && i != axis ==> old(self).shape@[i] == #[trigger] src.shape@[i],
            start <= end <= old(self).shape@[axis as int],
            src_start <= src_end <= src.shape@[axis as int],
            src_end - src_start == end - start,
        ensures
            final(self).wf(),
            final(self).dt == old(self).dt,
            final(self).shape@ == old(self).shape@,
            final(self).strides@ == old(self).strides@,
            final(self).align == old(self).align,
            forall|j: int|
                0 <= j < final(self).elems().len() ==> #[trigger] final(self).elems()[j] == {
                    let inner = stride_of(old(self).shape@, axis as int) as int;
                    let n = old(self).shape@[axis as int] as int;
                    let ns = src.shape@[axis as int] as int;
                    if start <= axis_coord(j, inner, n) < end {
                        src.elems()[reindex(j, n, ns, inner, src_start - start)]
                    } else {
                        old(self).elems()[j]
                    }
                },
    {
        self.assign_range(start, end, src, src_start, src_end, axis);
    }

    /// Copy this tensor's own half-open range `[src_start, src_end)` along
    /// `axis` over its range `[start, end)`.  The ranges may overlap: the
    /// result is exactly what copying the source range to a temporary buffer
    /// first would give, every source value being read from the tensor as it
    /// was before the call.
    pub fn assign_slice_within(
        &mut self,
        start: usize,
        end: usize,
        src_start: usize,
        src_end: usize,
        axis: usize,
    ) -> (r: Result<(), TensorError>)
        requires
            old(self).wf(),
        ensures
            final(self).wf(),
            final(self).dt == old(self).dt,
            final(self).shape@ == old(self).shape@,
            final(self).strides@ == old(self).strides@,
            final(self).align == old(self).align,
            match r {
                Ok(()) => {
                    &&& axis < old(self).shape@.len()
                    &&& start <= end <= old(self).shape@[axis as int]
                    &&& src_start <= src_end <= old(self).shape@[axis as int]
                    &&& src_end - src_start == end - start
                    &&& forall|j: int|
                        0 <= j < final(self).elems().len() ==> #[trigger] final(self).elems()[j]
                            == {
                            let inner = stride_of(old(self).shape@, axis as int) as int;
                            let n = old(self).shape@[axis as int] as int;
                            if start <= axis_coord(j, inner, n) < end {
                                old(self).elems()[reindex(j, n, n, inner, src_start - start)]
                            } else {
                                old(self).elems()[j]
                            }
                        }
                },
                Err(e) => {
                    &&& final(self).elems() == old(self).elems()
                    &&& if !(start <= end && src_start <= src_end && src_end - src_start == end
                        - start) {
                        e is ShapeMismatch
                    } else if axis >= old(self).shape@.len() {
                        e is IndexOutOfRange
                    } else {
                        e is IndexOutOfRange && (src_end > old(self).shape@[axis as int] || end
                            > old(self).shape@[axis as int])
                    }
                },
            },
            (r is Err) <==> !{
                &&& axis < old(self).shape@.len()
                &&& start <= end <= old(self).shape@[axis as int]
                &&& src_start <= src_end <= old(self).shape@[axis as int]
                &&& src_end - src_start == end - start
            },
    {
        if start > end || src_start > src_end || src_end - src_start != end - start {
            return Err(TensorError::ShapeMismatch);
        }
        if axis >= self.shape.len() {
            return Err(TensorError::IndexOutOfRange);
        }
        if src_end > self.shape[axis] {
            return Err(TensorError::IndexOutOfRange);
        }
        if end > self.shape[axis] {
            return Err(TensorError::IndexOutOfRange);
        }
        // materialise the source values first, so that overlapping ranges
        // read the tensor as it was before the call
        let snapshot = self.deep_clone();
        self.assign_range(start, end, &snapshot, src_start, src_end, axis);
        Ok(())
    }

    /// The half-open sub-range `[start, end)` along `axis`, as a new,
    /// independently owned tensor.
    pub fn slice(&self, axis: usize, start: usize, end: usize) -> (r: Result<Tensor, TensorError>)
        requires
            self.wf(),
        ensures
            match r {
                Ok(t) => {
                    &&& axis < self.shape@.len()
                    &&& start <= end <= self.shape@[axis as int]
                    &&& t.wf()
                    &&& t.dt == self.dt
                    &&& t.shape@ == self.shape@.update(axis as int, (end - start) as usize)
                    &&& forall|j: int|
                        0 <= j < t.elems().len() ==> #[trigger] t.elems()[j] == self.elems()[
                            reindex(
                                j,
                                end - start,
                                self.shape@[axis as int] as int,
                                stride_of(self.shape@, axis as int) as int,
                                start as int,
                            )
                        ]
                },
                Err(e) => {
                    ||| (e is IndexOutOfRange && !(axis < self.shape@.len() && start <= end
                        <= self.shape@[axis as int]))
                    ||| (e is AllocationError && axis < self.shape@.len() && start <= end
                        <= self.shape@[axis as int] && !Tensor::alloc_ok(
                        self.dt,
                        self.shape@.update(axis as int, (end - start) as usize),
                        self.dt.alignment_spec(),
                    ))
                },
            },
    {
        if axis >= self.shape.len() {
            return Err(TensorError::IndexOutOfRange);
        }
        if start > end || end > self.shape[axis] {
            return Err(TensorError::IndexOutOfRange);
        }
        let la = end - start;
        let mut ns = clone_vec_copy(&self.shape);
        ns[axis] = la;
        proof {
            assert(ns@ =~= self.shape@.update(axis as int, la));
        }
        let mut t = match Self::uninitialized_dt(self.dt, &ns) {
            Ok(t) => t,
            Err(_) => {
                return Err(TensorError::AllocationError);
            },
        };
        t.assign_range(0, la, self, start, end, axis);
        proof {
            let ginner = stride_of(self.shape@, axis as int) as int;
            let gn = self.shape@[axis as int] as int;
            assert(ns@.skip(axis as int + 1) =~= self.shape@.skip(axis as int + 1));
            assert(stride_of(ns@, axis as int) == stride_of(self.shape@, axis as int));
            assert forall|j: int| 0 <= j < t.elems().len() implies #[trigger] t.elems()[j]
                == self.elems()[reindex(j, la as int, gn, ginner, start as int)] by {
                lemma_prod_pos(ns@);
                lemma_suffix_pos(ns@, axis as int + 1);
                assert(ginner >= 1);
                assert(la >= 1);
                // the axis coordinate of any offset lies inside [0, la)
                vstd::arithmetic::div_mod::lemma_mod_bound(j / ginner, la as int);
                vstd::arithmetic::div_mod::lemma_div_pos_is_pos(j, ginner);
                assert(0 <= axis_coord(j, ginner, la as int) < la);
            }
        }
        Ok(t)
    }
}

/// The sum of the dimensions along `axis` of the first `k` tensors: the
/// offset at which tensor `k` starts in the stacked result.
pub open spec fn stack_offset(ts: Seq<Tensor>, axis: int, k: int) -> int
    decreases k,
{
    if k <= 0 {
        0
    } else {
        stack_offset(ts, axis, k - 1) + ts[k - 1].shape@[axis]
    }
}

/// Stack offsets never decrease.
pub proof fn lemma_stack_offset_mono(ts: Seq<Tensor>, axis: int, k1: int, k2: int)
    requires
        0 <= k1 <= k2 <= ts.len(),
        0 <= axis,
        forall|k: int| 0 <= k < ts.len() ==> axis < #[trigger] ts[k].shape@.len(),
    ensures
        stack_offset(ts, axis, k1) <= stack_offset(ts, axis, k2),
    decreases k2 - k1,
{
    if k1 < k2 {
        lemma_stack_offset_mono(ts, axis, k1, k2 - 1);
    }
}

/// Stack offsets start at zero and are never negative.
pub proof fn lemma_stack_offset_nonneg(ts: Seq<Tensor>, axis: int, k: int)
    requires
        0 <= k <= ts.len(),
        0 <= axis,
        forall|kk: int| 0 <= kk < ts.len() ==> axis < #[trigger] ts[kk].shape@.len(),
    ensures
        stack_offset(ts, axis, k) >= 0,
    decreases k,
{
    if k > 0 {
        lemma_stack_offset_nonneg(ts, axis, k - 1);
    }
}

/// Moving the axis coordinate forward by `delta` and back by `delta`
/// restores the original offset.
pub proof fn lemma_reindex_roundtrip(j: int, outer: int, n: int, n_dst: int, inner: int, delta: int)
    requires
        inner > 0,
        n > 0,
        n_dst > 0,
        0 <= j < outer * (n * inner),
        0 <= axis_coord(j, inner, n) + delta < n_dst,
    ensures
        reindex(reindex(j, n, n_dst, inner, delta), n_dst, n, inner, -delta) == j,
{
    lemma_reindex_bounds(j, outer, n, n_dst, inner, delta);
    let o = j / (n * inner);
    let a = axis_coord(j, inner, n);
    let ii = j % inner;
    let jj = reindex(j, n, n_dst, inner, delta);
    assert(jj == o * (n_dst * inner) + (a + delta) * inner + ii);
    lemma_block_coords(o, a + delta, ii, n_dst, inner);
    assert(jj / (n_dst * inner) == o);
    assert(jj % (n_dst * inner) == (a + delta) * inner + ii);
    let back = reindex(jj, n_dst, n, inner, -delta);
    assert(back == o * (n * inner) + ((a + delta) * inner + ii) + (-delta) * inner);
    assert(o * (n * inner) + ((a + delta) * inner + ii) + (-delta) * inner == o * (n * inner) + a
        * inner + ii) by (nonlinear_arith);
    assert(j == o * (n * inner) + a * inner + ii);
}

/// Every input has the first input's element kind.
pub open spec fn stack_kinds_ok(ts: Seq<Tensor>) -> bool {
    forall|k: int| 0 <= k < ts.len() ==> (#[trigger] ts[k]).dt == ts[0].dt
}

/// Every input has the first input's rank, and the same dimensions on every
/// axis but the stacking one.
pub open spec fn stack_shapes_ok(ts: Seq<Tensor>, axis: int) -> bool {
    &&& forall|k: int| 0 <= k < ts.len() ==> (#[trigger] ts[k]).shape@.len() == ts[0].shape@.len()
    &&& forall|k: int, i: int|
        0 <= k < ts.len() && 0 <= i < ts[0].shape@.len() && i != axis ==> (
        #[trigger] ts[k].shape@[i]) == ts[0].shape@[i]
}

impl Tensor {
    /// Concatenate a non-empty sequence of same-kind tensors along `axis`.
    /// The result's shape matches the inputs except at `axis`, which sums
    /// the inputs' dimensions there; tensor `k` occupies the coordinate
    /// range starting at the sum of the earlier dimensions.  The first
    /// violated precondition determines the error: an empty input, then a
    /// kind mismatch, then the axis bound, then a shape mismatch, then an
    /// impossible allocation.
    pub fn stack_tensors(axis: usize, tensors: &Vec<Tensor>) -> (r: Result<Tensor, TensorError>)
        requires
            forall|k: int| 0 <= k < tensors@.len() ==> (#[trigger] tensors@[k]).wf(),
        ensures
            match r {
                Ok(t) => {
                    &&& tensors@.len() > 0
                    &&& stack_kinds_ok(tensors@)
                    &&& axis < tensors@[0].shape@.len()
                    &&& stack_shapes_ok(tensors@, axis as int)
                    &&& stack_offset(tensors@, axis as int, tensors@.len() as int) <= usize::MAX
                    &&& t.wf()
                    &&& t.dt == tensors@[0].dt
                    &&& t.shape@ == tensors@[0].shape@.update(
                        axis as int,
                        stack_offset(tensors@, axis as int, tensors@.len() as int) as usize,
                    )
                    &&& forall|k: int, j: int|
                        0 <= k < tensors@.len() && 0 <= j < tensors@[k].elems().len()
                            ==> t.elems()[
                            reindex(
                                j,
                                tensors@[k].shape@[axis as int] as int,
                                stack_offset(tensors@, axis as int, tensors@.len() as int),
                                stride_of(tensors@[0].shape@, axis as int) as int,
                                stack_offset(tensors@, axis as int, k),
                            )
                        ] == #[trigger] tensors@[k].elems()[j]
                },
                Err(e) => {
                    if tensors@.len() == 0 {
                        e is ShapeMismatch
                    } else if !stack_kinds_ok(tensors@) {
                        e is KindMismatch
                    } else if axis >= tensors@[0].shape@.len() {
                        e is IndexOutOfRange
                    } else if !stack_shapes_ok(tensors@, axis as int) {
                        e is ShapeMismatch
                    } else {
                        e is AllocationError && (stack_offset(
                            tensors@,
                            axis as int,
                            tensors@.len() as int,
                        ) > usize::MAX || !Self::alloc_ok(
                            tensors@[0].dt,
                            tensors@[0].shape@.update(
                                axis as int,
                                stack_offset(tensors@, axis as int, tensors@.len() as int) as usize,
                            ),
                            tensors@[0].dt.alignment_spec(),
                        ))
                    }
                },
            },
    {
        if tensors.len() == 0 {
            return Err(TensorError::ShapeMismatch);
        }
        let dt = tensors[0].datum_type();
        let rank = tensors[0].rank();
        // every input must share the first input's kind
        let mut k: usize = 1;
        while k < tensors.len()
            invariant
                1 <= k <= tensors@.len(),
                forall|q: int| 0 <= q < tensors@.len() ==> (#[trigger] tensors@[q]).wf(),
                dt == tensors@[0].dt,
                rank == tensors@[0].shape@.len(),
                forall|q: int| 0 <= q < k ==> (#[trigger] tensors@[q]).dt == dt,
            decreases tensors@.len() - k,
        {
            if tensors[k].datum_type() != dt {
                proof {
                    assert(!stack_kinds_ok(tensors@)) by {
                        assert(tensors@[k as int].dt != tensors@[0].dt);
                    }
                }
                return Err(TensorError::KindMismatch);
            }
            k = k + 1;
        }
        proof {
            assert(stack_kinds_ok(tensors@));
        }
        if axis >= rank {
            return Err(TensorError::IndexOutOfRange);
        }
        // every input must have the first input's shape except at the axis
        let mut k2: usize = 1;
        while k2 < tensors.len()
            invariant
                1 <= k2 <= tensors@.len(),
                forall|q: int| 0 <= q < tensors@.len() ==> (#[trigger] tensors@[q]).wf(),
                dt == tensors@[0].dt,
                rank == tensors@[0].shape@.len(),
                axis < rank,
                stack_kinds_ok(tensors@),
                forall|q: int| 0 <= q < k2 ==> (#[trigger] tensors@[q]).shape@.len() == rank,
                forall|q: int, i: int|
                    0 <= q < k2 && 0 <= i < rank && i != axis ==> (
                    #[trigger] tensors@[q].shape@[i]) == tensors@[0].shape@[i],
            decreases tensors@.len() - k2,
        {
            if tensors[k2].rank() != rank {
                proof {
                    assert(!stack_shapes_ok(tensors@, axis as int)) by {
                        assert(tensors@[k2 as int].shape@.len() != tensors@[0].shape@.len());
                    }
                }
                return Err(TensorError::ShapeMismatch);
            }
            let mut i: usize = 0;
            while i < rank
                invariant
                    i <= rank,
                    k2 < tensors@.len(),
                    forall|q: int| 0 <= q < tensors@.len() ==> (#[trigger] tensors@[q]).wf(),
                    rank == tensors@[0].shape@.len(),
                    rank == tensors@[k2 as int].shape@.len(),
                    axis < rank,
                    stack_kinds_ok(tensors@),
                    forall|q: int|
                        0 <= q < i && q != axis ==> (#[trigger] tensors@[k2 as int].shape@[q])
                            == tensors@[0].shape@[q],
                decreases rank - i,
            {
                if i != axis && tensors[k2].shape[i] != tensors[0].shape[i] {
                    proof {
                        assert(!stack_shapes_ok(tensors@, axis as int)) by {
                            assert(tensors@[k2 as int].shape@[i as int] != tensors@[0].shape@[
                                i as int]);
                        }
                    }
                    return Err(TensorError::ShapeMismatch);
                }
                i = i + 1;
            }
            k2 = k2 + 1;
        }
        proof {
            assert(stack_shapes_ok(tensors@, axis as int));
        }
        // the stacked dimension is the sum of the inputs' dimensions
        let mut total: usize = 0;
        let mut m: usize = 0;
        while m < tensors.len()
            invariant
                m <= tensors@.len(),
                forall|q: int| 0 <= q < tensors@.len() ==> (#[trigger] tensors@[q]).wf(),
                axis < rank,
                rank == tensors@[0].shape@.len(),
                stack_kinds_ok(tensors@),
                stack_shapes_ok(tensors@, axis as int),
                forall|q: int| 0 <= q < tensors@.len() ==> (#[trigger] tensors@[q]).shape@.len()
                    == rank,
                total == stack_offset(tensors@, axis as int, m as int),
            decreases tensors@.len() - m,
        {
            let d = tensors[m].shape[axis];
            total = match total.checked_add(d) {
                Some(v) => v,
                None => {
                    proof {
                        lemma_stack_offset_mono(
                            tensors@,
                            axis as int,
                            m as int + 1,
                            tensors@.len() as int,
                        );
                        assert(stack_offset(tensors@, axis as int, tensors@.len() as int)
                            > usize::MAX);
                    }
                    return Err(TensorError::AllocationError);
                },
            };
            m = m + 1;
        }
        let mut ns = clone_vec_copy(&tensors[0].shape);
        ns[axis] = total;
        proof {
            assert(ns@ =~= tensors@[0].shape@.update(axis as int, total));
        }
        let mut t = match Self::uninitialized_dt(dt, &ns) {
            Ok(t) => t,
            Err(_) => {
                return Err(TensorError::AllocationError);
            },
        };
        let ghost gts = tensors@;
        let ghost gtotal = total as int;
        let ghost ginner = stride_of(gts[0].shape@, axis as int) as int;
        let mut off: usize = 0;
        let mut w: usize = 0;
        while w < tensors.len()
            invariant
                w <= gts.len(),
                gts == tensors@,
                forall|q: int| 0 <= q < gts.len() ==> (#[trigger] gts[q]).wf(),
                axis < rank,
                rank == gts[0].shape@.len(),
                forall|q: int| 0 <= q < gts.len() ==> (#[trigger] gts[q]).dt == dt,
                forall|q: int| 0 <= q < gts.len() ==> (#[trigger] gts[q]).shape@.len() == rank,
                forall|q: int, i: int|
                    0 <= q < gts.len() && 0 <= i < rank && i != axis ==> (
                    #[trigger] gts[q].shape@[i]) == gts[0].shape@[i],
                gtotal == stack_offset(gts, axis as int, gts.len() as int),
                gtotal == total,
                off == stack_offset(gts, axis as int, w as int),
                t.wf(),
                t.dt == dt,
                t.shape@ == gts[0].shape@.update(axis as int, total),
                ginner == stride_of(gts[0].shape@, axis as int) as int,
                forall|q: int, j: int|
                    0 <= q < w && 0 <= j < gts[q].elems().len() ==> t.elems()[
                        reindex(
                            j,
                            gts[q].shape@[axis as int] as int,
                            gtotal,
                            ginner,
                            stack_offset(gts, axis as int, q),
                        )
                    ] == #[trigger] gts[q].elems()[j],
            decreases gts.len() - w,
        {
            let ghost t_before = t;
            let nk = tensors[w].shape[axis];
            proof {
                lemma_stack_offset_mono(gts, axis as int, w as int + 1, gts.len() as int);
                lemma_stack_offset_nonneg(gts, axis as int, w as int);
                assert(off + nk == stack_offset(gts, axis as int, w as int + 1));
                assert(off + nk <= gtotal);
                assert(t.shape@[axis as int] == total);
                assert(gts[w as int].shape@[axis as int] == nk);
            }
            t.assign_range(off, off + nk, &tensors[w], 0, nk, axis);
            proof {
                let gw = w as int;
                let src = gts[gw];
                let gn_t = gtotal;
                let gnk = src.shape@[axis as int] as int;
                // the inner stride agrees between the output and every input
                assert(t.shape@.skip(axis as int + 1) =~= gts[0].shape@.skip(axis as int + 1));
                assert(stride_of(t.shape@, axis as int) == ginner);
                assert(src.shape@.skip(axis as int + 1) =~= gts[0].shape@.skip(axis as int + 1));
                assert(stride_of(src.shape@, axis as int) == ginner);
                // the new window holds this tensor's values
                assert forall|j: int|
                    0 <= j < src.elems().len() implies t.elems()[
                    reindex(j, gnk, gn_t, ginner, off as int)
                ] == src.elems()[j] by {
                    lemma_prod_pos(src.shape@);
                    lemma_suffix_pos(src.shape@, axis as int + 1);
                    lemma_axis_split(src.shape@, axis as int);
                    let gouter = prod(src.shape@.take(axis as int)) as int;
                    assert(src.elems().len() == gouter * (gnk * ginner));
                    assert(ginner >= 1);
                    assert(gnk >= 1);
                    vstd::arithmetic::div_mod::lemma_mod_bound(j / ginner, gnk);
                    vstd::arithmetic::div_mod::lemma_div_pos_is_pos(j, ginner);
                    let aj = axis_coord(j, ginner, gnk);
                    assert(0 <= aj < gnk);
                    lemma_reindex_bounds(j, gouter, gnk, gn_t, ginner, off as int);
                    let jj = reindex(j, gnk, gn_t, ginner, off as int);
                    assert(axis_coord(jj, ginner, gn_t) == aj + off);
                    // the target offset is in the assigned window
                    lemma_axis_split(t.shape@, axis as int);
                    assert(t.shape@.take(axis as int) =~= src.shape@.take(axis as int));
                    assert(t.elems().len() == gouter * (gn_t * ginner));
                    assert(0 <= jj < t.elems().len());
                    assert(off <= axis_coord(jj, ginner, gn_t) < off + nk);
                    // and maps back to j
                    lemma_reindex_roundtrip(j, gouter, gnk, gn_t, ginner, off as int);
                    assert(t.elems()[jj] == src.elems()[reindex(
                        jj,
                        gn_t,
                        gnk,
                        ginner,
                        0 - off,
                    )]);
                }
                // the windows already written are untouched
                assert forall|q: int, j: int|
                    0 <= q < gw && 0 <= j < gts[q].elems().len() implies t.elems()[
                    reindex(
                        j,
                        gts[q].shape@[axis as int] as int,
                        gtotal,
                        ginner,
                        stack_offset(gts, axis as int, q),
                    )
                ] == #[trigger] gts[q].elems()[j] by {
                    let gq = gts[q];
                    let gnq = gq.shape@[axis as int] as int;
                    let offq = stack_offset(gts, axis as int, q);
                    lemma_prod_pos(gq.shape@);
                    lemma_suffix_pos(gq.shape@, axis as int + 1);
                    lemma_axis_split(gq.shape@, axis as int);
                    let gouter = prod(gq.shape@.take(axis as int)) as int;
                    assert(gq.shape@.skip(axis as int + 1) =~= gts[0].shape@.skip(axis as int + 1));
                    assert(gq.elems().len() == gouter * (gnq * ginner));
                    assert(ginner >= 1);
                    assert(gnq >= 1);
                    vstd::arithmetic::div_mod::lemma_mod_bound(j / ginner, gnq);
                    vstd::arithmetic::div_mod::lemma_div_pos_is_pos(j, ginner);
                    let aj = axis_coord(j, ginner, gnq);
                    assert(0 <= aj < gnq);
                    lemma_stack_offset_nonneg(gts, axis as int, q);
                    lemma_stack_offset_mono(gts, axis as int, q + 1, gw);
                    assert(offq + gnq <= off);
                    lemma_reindex_bounds(j, gouter, gnq, gtotal, ginner, offq);
                    let jj = reindex(j, gnq, gtotal, ginner, offq);
                    assert(axis_coord(jj, ginner, gtotal) == aj + offq);
                    assert(aj + offq < off);
                    // the old window value is preserved by this assignment
                    lemma_axis_split(t.shape@, axis as int);
                    assert(t.shape@.take(axis as int) =~= gq.shape@.take(axis as int));
                    assert(t.shape@.skip(axis as int + 1) =~= gq.shape@.skip(axis as int + 1));
                    assert(t.elems().len() == gouter * (gtotal * ginner));
                    assert(0 <= jj < t.elems().len());
                    assert(t.elems()[jj] == t_before.elems()[jj]);
                }
            }
            off = off + nk;
            w = w + 1;
        }
        Ok(t)
    }
}
/// Axis `k` appears somewhere in the order `axes`.
pub open spec fn covered(axes: Seq<usize>, k: int) -> bool {
    exists|m: int| 0 <= m < axes.len() && axes[m] == k
}

/// `axes` is a permutation of `0..rank`: the right length, every entry in
/// range, no entry twice, every axis covered.
pub open spec fn is_axis_permutation(axes: Seq<usize>, rank: int) -> bool {
    &&& axes.len() == rank
    &&& forall|m: int| 0 <= m < rank ==> (#[trigger] axes[m]) < rank
    &&& forall|m1: int, m2: int| 0 <= m1 < m2 < rank ==> #[trigger] axes[m1] != #[trigger] axes[m2]
    &&& forall|k: int| 0 <= k < rank ==> #[trigger] covered(axes, k)
}

/// The multi-index of the permuted tensor that names the same element as the
/// source multi-index `src`: component `m` reads the source along axis
/// `axes[m]`.
pub open spec fn permuted_index(axes: Seq<usize>, src: Seq<int>) -> Seq<int> {
    Seq::new(axes.len(), |m: int| src[axes[m] as int])
}

/// The shape of the permuted tensor: axis `m` is the source's axis
/// `axes[m]`.
pub open spec fn permuted_shape(s: Seq<usize>, axes: Seq<usize>) -> Seq<usize> {
    Seq::new(axes.len(), |m: int| s[axes[m] as int])
}

impl Tensor {
    /// A new tensor whose axis `m` is this tensor's axis `axes[m]`; the
    /// buffer is reordered so that the result is again in row-major order.
    /// For every source multi-index, the value there appears in the result
    /// at the permuted multi-index.
    pub fn permute_axes(self, axes: &Vec<usize>) -> (r: Result<Tensor, TensorError>)
        requires
            self.wf(),
        ensures
            match r {
                Ok(t) => {
                    &&& is_axis_permutation(axes@, self.shape@.len() as int)
                    &&& t.wf()
                    &&& t.dt == self.dt
                    &&& t.shape@ == permuted_shape(self.shape@, axes@)
                    &&& t.shape@.len() == self.shape@.len()
                    &&& forall|m: int|
                        0 <= m < t.shape@.len() ==> #[trigger] t.shape@[m] == self.shape@[axes@[m] as int]
                    &&& forall|src: Seq<int>|
                        in_bounds(self.shape@, src) ==> #[trigger] self.elems()[linear_of(
                            self.shape@,
                            src,
                        )] == t.elems()[linear_of(t.shape@, permuted_index(axes@, src))]
                },
                Err(e) => {
                    ||| (e is ShapeMismatch && !is_axis_permutation(
                        axes@,
                        self.shape@.len() as int,
                    ))
                    ||| (e is AllocationError && is_axis_permutation(
                        axes@,
                        self.shape@.len() as int,
                    ) && !Tensor::alloc_ok(
                        self.dt,
                        permuted_shape(self.shape@, axes@),
                        self.dt.alignment_spec(),
                    ))
                },
            },
    {
        let rank = self.shape.len();
        if axes.len() != rank {
            return Err(TensorError::ShapeMismatch);
        }
        let mut seen: Vec<bool> = fill_copy(rank, false);
        let mut m: usize = 0;
        while m < rank
            invariant
                m <= rank,
                rank == axes@.len(),
                seen@.len() == rank,
                forall|k: int| 0 <= k < rank ==> (seen@[k] <==> exists|q: int|
                    0 <= q < m && #[trigger] axes@[q] == k),
                forall|q: int| 0 <= q < m ==> (#[trigger] axes@[q]) < rank,
                forall|q1: int, q2: int| 0 <= q1 < q2 < m ==> #[trigger] axes@[q1] != #[trigger] axes@[q2],
            decreases rank - m,
        {
            let ax = axes[m];
            if ax >= rank {
                proof {
                    assert(!is_axis_permutation(axes@, rank as int));
                }
                return Err(TensorError::ShapeMismatch);
            }
            if seen[ax] {
                proof {
                    let q = choose|q: int| 0 <= q < m && axes@[q] == ax;
                    assert(axes@[q] == axes@[m as int]);
                    assert(!is_axis_permutation(axes@, rank as int));
                }
                return Err(TensorError::ShapeMismatch);
            }
            seen[ax] = true;
            m = m + 1;
        }
        let mut k: usize = 0;
        while k < rank
            invariant
                k <= rank,
                rank == axes@.len(),
                seen@.len() == rank,
                forall|q: int| 0 <= q < k ==> seen@[q],
                forall|q: int| 0 <= q < rank ==> (seen@[q] <==> covered(axes@, q)),
                forall|q: int| 0 <= q < rank ==> (#[trigger] axes@[q]) < rank,
                forall|q1: int, q2: int| 0 <= q1 < q2 < rank ==> #[trigger] axes@[q1] != #[trigger] axes@[q2],
            decreases rank - k,
        {
            if !seen[k] {
                proof {
                    assert(!covered(axes@, k as int));
                    assert(!is_axis_permutation(axes@, rank as int));
                }
                return Err(TensorError::ShapeMismatch);
            }
            k = k + 1;
        }
        proof {
            assert(is_axis_permutation(axes@, rank as int));
        }
        // the permuted shape
        let mut os: Vec<usize> = Vec::new();
        let mut m2: usize = 0;
        while m2 < rank
            invariant
                m2 <= rank,
                rank == axes@.len(),
                rank == self.shape@.len(),
                forall|q: int| 0 <= q < rank ==> (#[trigger] axes@[q]) < rank,
                os@.len() == m2,
                forall|q: int| 0 <= q < m2 ==> #[trigger] os@[q] == self.shape@[axes@[q] as int],
            decreases rank - m2,
        {
            os.push(self.shape[axes[m2]]);
            m2 = m2 + 1;
        }
        proof {
            assert(os@ =~= permuted_shape(self.shape@, axes@));
        }
        let mut t = match Self::uninitialized_dt(self.dt, &os) {
            Ok(t) => t,
            Err(_) => {
                return Err(TensorError::AllocationError);
            },
        };
        let total = t.data.len();
        let self_total = self.data.len();
        let ghost gshape = self.shape@;
        let ghost goshape = os@;
        let mut j: usize = 0;
        while j < total
            invariant
                j <= total,
                self.wf(),
                t.wf(),
                t.dt == self.dt,
                gshape == self.shape@,
                goshape == os@,
                t.shape@ == os@,
                rank == gshape.len(),
                rank == goshape.len(),
                is_axis_permutation(axes@, rank as int),
                forall|q: int| 0 <= q < rank ==> #[trigger] goshape[q] == gshape[axes@[q] as int],
                total == t.elems().len(),
                total == prod(goshape),
                self_total == self.elems().len(),
                self_total == prod(gshape),
                forall|src: Seq<int>|
                    in_bounds(gshape, src) && 0 <= linear_of(goshape, permuted_index(axes@, src))
                        < j ==> #[trigger] self.elems()[linear_of(gshape, src)] == t.elems()[
                        linear_of(goshape, permuted_index(axes@, src))
                    ],
            decreases total - j,
        {
            let out_idx = crate::shape::decode_index(&t.shape, &t.strides, j);
            let ghost gout = out_idx@.map_values(|v: usize| v as int);
            let mut src_idx: Vec<usize> = fill_copy(rank, 0);
            let mut w: usize = 0;
            while w < rank
                invariant
                    w <= rank,
                    rank == axes@.len(),
                    out_idx@.len() == rank,
                    src_idx@.len() == rank,
                    forall|q: int| 0 <= q < rank ==> (#[trigger] axes@[q]) < rank,
                    forall|q1: int, q2: int|
                        0 <= q1 < q2 < rank ==> #[trigger] axes@[q1] != #[trigger] axes@[q2],
                    forall|q: int|
                        0 <= q < w ==> #[trigger] src_idx@[axes@[q] as int] == out_idx@[q],
                decreases rank - w,
            {
                let pos = axes[w];
                let v = out_idx[w];
                src_idx[pos] = v;
                proof {
                    assert forall|q: int|
                        0 <= q < w + 1 implies #[trigger] src_idx@[axes@[q] as int]
                        == out_idx@[q] by {
                        if q < w {
                            assert(axes@[q] != axes@[w as int]);
                        }
                    }
                }
                w = w + 1;
            }
            let ghost gsrc = src_idx@.map_values(|v: usize| v as int);
            proof {
                // the scattered index is inside the source shape
                assert forall|q: int| 0 <= q < rank implies 0 <= #[trigger] gsrc[q] < gshape[q] by {
                    assert(covered(axes@, q));
                    let mm = choose|mm: int| 0 <= mm < rank && axes@[mm] == q;
                    assert(src_idx@[q] == out_idx@[mm]);
                    assert(in_bounds(goshape, gout));
                    assert(0 <= gout[mm] < goshape[mm]);
                    assert(goshape[mm] == gshape[q]);
                }
                assert(in_bounds(gshape, gsrc));
                lemma_linear_bound(gshape, gsrc);
                assert(prod(gshape) <= usize::MAX);
            }
            let l_src = crate::shape::encode_index(&self.shape, &src_idx);
            let e = self.data.get(l_src);
            proof {
                self.data.lemma_classes();
                assert(elem_fits(self.dt, self.elems()[l_src as int]));
                assert(elem_fits(t.dt, e@));
            }
            t.data.set(j, e);
            proof {
                let ghost t_new = t;
                assert forall|src: Seq<int>|
                    in_bounds(gshape, src) && 0 <= linear_of(goshape, permuted_index(axes@, src))
                        < j + 1 implies #[trigger] self.elems()[linear_of(gshape, src)]
                    == t.elems()[linear_of(goshape, permuted_index(axes@, src))] by {
                    let p = permuted_index(axes@, src);
                    assert(in_bounds(goshape, p)) by {
                        assert forall|q: int| 0 <= q < rank implies 0 <= #[trigger] p[q]
                            < goshape[q] by {
                            assert(0 <= src[axes@[q] as int] < gshape[axes@[q] as int]);
                        }
                    }
                    lemma_linear_bound(goshape, p);
                    let lp = linear_of(goshape, p);
                    if lp == j {
                        // this iteration wrote exactly that element
                        crate::shape::lemma_linear_of_index(goshape, p);
                        assert(index_of(goshape, j as int) == p);
                        assert(gout == p);
                        // the scattered index equals the source index
                        assert(gsrc =~= src) by {
                            assert forall|q: int| 0 <= q < rank implies gsrc[q] == src[q] by {
                                assert(covered(axes@, q));
                                let mm = choose|mm: int| 0 <= mm < rank && axes@[mm] == q;
                                assert(src_idx@[q] == out_idx@[mm]);
                                assert(gsrc[q] == gout[mm]);
                                assert(p[mm] == src[axes@[mm] as int]);
                            }
                        }
                        assert(l_src == linear_of(gshape, src));
                    }
                }
            }
            j = j + 1;
        }
        proof {
            assert forall|src: Seq<int>| in_bounds(gshape, src) implies #[trigger] self.elems()[
            linear_of(gshape, src)] == t.elems()[linear_of(
                goshape,
                permuted_index(axes@, src),
            )] by {
            let p = permuted_index(axes@, src);
                assert(in_bounds(goshape, p)) by {
                    assert forall|q: int| 0 <= q < rank implies 0 <= #[trigger] p[q]
                        < goshape[q] by {
                        assert(0 <= src[axes@[q] as int] < gshape[axes@[q] as int]);
                    }
                }
                lemma_linear_bound(goshape, p);
            }
        }
        Ok(t)
    }
}
} // verus!
