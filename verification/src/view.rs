//! Windows into a tensor: a shared, read-only view and an exclusive,
//! writable view, both anchored at a prefix of the full multi-index; the
//! remaining axes form the view's shape.  The owner outlives every view,
//! and a writable view excludes all other access for its lifetime.

use vstd::prelude::*;

use crate::datum::{elem_fits, Elem};
use crate::error::TensorError;
use crate::shape::{in_bounds, linear_of};
use crate::tensor::{clone_vec_copy, Tensor};

verus! {

/// A non-owning window into a tensor, anchored at a prefix of the full
/// multi-index; the remaining axes form the view's shape.
#[derive(Debug)]
pub struct TensorView<'a> {
    pub tensor: &'a Tensor,
    pub prefix: Vec<usize>,
}

impl<'a> TensorView<'a> {
    /// The view is anchored inside its owner.
    pub open spec fn wf(&self) -> bool {
        &&& self.tensor.wf()
        &&& self.prefix@.len() <= self.tensor.shape@.len()
        &&& forall|i: int|
            0 <= i < self.prefix@.len() ==> #[trigger] self.prefix@[i] < self.tensor.shape@[i]
    }

    /// The shape of the view: the axes the prefix leaves open.
    pub open spec fn suffix(&self) -> Seq<usize> {
        self.tensor.shape@.skip(self.prefix@.len() as int)
    }

    /// The shape of the view, computed.
    pub fn shape(&self) -> (r: Vec<usize>)
        requires
            self.wf(),
        ensures
            r@ == self.suffix(),
    {
        let mut r: Vec<usize> = Vec::new();
        let mut i: usize = self.prefix.len();
        while i < self.tensor.shape.len()
            invariant
                self.prefix@.len() <= i <= self.tensor.shape@.len(),
                r@ =~= self.tensor.shape@.subrange(self.prefix@.len() as int, i as int),
            decreases self.tensor.shape@.len() - i,
        {
            r.push(self.tensor.shape[i]);
            i = i + 1;
        }
        proof {
            assert(r@ =~= self.suffix());
        }
        r
    }

    /// Read the element of the owner that the view index `idx` names.
    pub fn at(&self, idx: &Vec<usize>) -> (r: Result<Elem, TensorError>)
        requires
            self.wf(),
        ensures
            match r {
                Ok(e) => {
                    &&& in_bounds(self.suffix(), idx@.map_values(|v: usize| v as int))
                    &&& e@ == self.tensor.elems()[linear_of(
                        self.tensor.shape@,
                        (self.prefix@ + idx@).map_values(|v: usize| v as int),
                    )]
                },
                Err(e) => {
                    &&& !in_bounds(self.suffix(), idx@.map_values(|v: usize| v as int))
                    &&& e is IndexOutOfRange
                },
            },
    {
        let mut full: Vec<usize> = clone_vec_copy(&self.prefix);
        let mut i: usize = 0;
        while i < idx.len()
            invariant
                i <= idx.len(),
                full@ =~= self.prefix@ + idx@.take(i as int),
            decreases idx.len() - i,
        {
            full.push(idx[i]);
            i = i + 1;
        }
        proof {
            assert(full@ =~= self.prefix@ + idx@);
        }
        let r = self.tensor.get_at(&full);
        proof {
            let pl = self.prefix@.len() as int;
            let gfull = full@.map_values(|v: usize| v as int);
            let gidx = idx@.map_values(|v: usize| v as int);
            assert(in_bounds(self.tensor.shape@, gfull) <==> in_bounds(self.suffix(), gidx)) by {
                if in_bounds(self.tensor.shape@, gfull) {
                    assert forall|k: int| 0 <= k < self.suffix().len() implies 0 <= #[trigger]
                    gidx[k] < self.suffix()[k] by {
                        assert(full@[pl + k] == idx@[k]);
                        assert(gfull[pl + k] == gidx[k]);
                        assert(self.suffix()[k] == self.tensor.shape@[pl + k]);
                    }
                }
                if in_bounds(self.suffix(), gidx) {
                    assert forall|k: int| 0 <= k < self.tensor.shape@.len() implies 0 <= #[trigger]
                    gfull[k] < self.tensor.shape@[k] by {
                        if k < pl {
                            assert(full@[k] == self.prefix@[k]);
                            assert(gfull[k] == self.prefix@[k]);
                        } else {
                            assert(full@[k] == idx@[k - pl]);
                            assert(gfull[k] == gidx[k - pl]);
                            assert(self.suffix()[k - pl] == self.tensor.shape@[k]);
                        }
                    }
                }
            }
        }
        r
    }
}

impl Tensor {
    /// A view of the whole tensor.
    pub fn view(&self) -> (r: TensorView<'_>)
        requires
            self.wf(),
        ensures
            r.wf(),
            r.tensor == self,
            r.prefix@ == Seq::<usize>::empty(),
    {
        TensorView { tensor: self, prefix: Vec::new() }
    }

    /// A view anchored at the multi-index prefix `prefix`.
    pub fn view_at_prefix(&self, prefix: &Vec<usize>) -> (r: Result<TensorView<'_>, TensorError>)
        requires
            self.wf(),
        ensures
            match r {
                Ok(v) => {
                    &&& v.wf()
                    &&& v.tensor == self
                    &&& v.prefix@ == prefix@
                },
                Err(e) => {
                    &&& e is IndexOutOfRange
                    &&& (prefix@.len() > self.shape@.len() || exists|i: int|
                        0 <= i < prefix@.len() && #[trigger] prefix@[i] >= self.shape@[i])
                },
            },
    {
        if prefix.len() > self.shape.len() {
            return Err(TensorError::IndexOutOfRange);
        }
        let mut i: usize = 0;
        while i < prefix.len()
            invariant
                i <= prefix@.len(),
                prefix@.len() <= self.shape@.len(),
                forall|k: int| 0 <= k < i ==> #[trigger] prefix@[k] < self.shape@[k],
            decreases prefix@.len() - i,
        {
            if prefix[i] >= self.shape[i] {
                return Err(TensorError::IndexOutOfRange);
            }
            i = i + 1;
        }
        Ok(TensorView { tensor: self, prefix: clone_vec_copy(prefix) })
    }
}



/// An exclusive window into a tensor, anchored at a prefix of the full
/// multi-index; the remaining axes form the view's shape.  While the view
/// lives it holds the only access to the tensor.
#[derive(Debug)]
pub struct TensorViewMut<'a> {
    pub tensor: &'a mut Tensor,
    pub prefix: Vec<usize>,
}

impl<'a> TensorViewMut<'a> {
    /// The tensor the view looks into, as it currently stands.
    pub open spec fn target(&self) -> Tensor {
        *self.tensor
    }

    /// The view is anchored inside its owner.
    pub open spec fn wf(&self) -> bool {
        &&& self.tensor.wf()
        &&& self.prefix@.len() <= self.tensor.shape@.len()
        &&& forall|i: int|
            0 <= i < self.prefix@.len() ==> #[trigger] self.prefix@[i] < self.tensor.shape@[i]
    }

    /// The shape of the view: the axes the prefix leaves open.
    pub open spec fn suffix(&self) -> Seq<usize> {
        self.tensor.shape@.skip(self.prefix@.len() as int)
    }

    /// Read the element of the owner that the view index `idx` names.
    pub fn at(&self, idx: &Vec<usize>) -> (r: Result<Elem, TensorError>)
        requires
            self.wf(),
        ensures
            match r {
                Ok(e) => {
                    &&& in_bounds(self.suffix(), idx@.map_values(|v: usize| v as int))
                    &&& e@ == self.target().elems()[linear_of(
                        self.target().shape@,
                        (self.prefix@ + idx@).map_values(|v: usize| v as int),
                    )]
                },
                Err(e) => {
                    &&& !in_bounds(self.suffix(), idx@.map_values(|v: usize| v as int))
                    &&& e is IndexOutOfRange
                },
            },
    {
        let mut full: Vec<usize> = clone_vec_copy(&self.prefix);
        let mut i: usize = 0;
        while i < idx.len()
            invariant
                i <= idx.len(),
                full@ =~= self.prefix@ + idx@.take(i as int),
            decreases idx.len() - i,
        {
            full.push(idx[i]);
            i = i + 1;
        }
        proof {
            assert(full@ =~= self.prefix@ + idx@);
        }
        let r = self.tensor.get_at(&full);
        proof {
            let pl = self.prefix@.len() as int;
            let gfull = full@.map_values(|v: usize| v as int);
            let gidx = idx@.map_values(|v: usize| v as int);
            assert(in_bounds(self.tensor.shape@, gfull) <==> in_bounds(self.suffix(), gidx)) by {
                if in_bounds(self.tensor.shape@, gfull) {
                    assert forall|k: int| 0 <= k < self.suffix().len() implies 0 <= #[trigger]
                    gidx[k] < self.suffix()[k] by {
                        assert(full@[pl + k] == idx@[k]);
                        assert(gfull[pl + k] == gidx[k]);
                        assert(self.suffix()[k] == self.tensor.shape@[pl + k]);
                    }
                }
                if in_bounds(self.suffix(), gidx) {
                    assert forall|k: int| 0 <= k < self.tensor.shape@.len() implies 0 <= #[trigger]
                    gfull[k] < self.tensor.shape@[k] by {
                        if k < pl {
                            assert(full@[k] == self.prefix@[k]);
                            assert(gfull[k] == self.prefix@[k]);
                        } else {
                            assert(full@[k] == idx@[k - pl]);
                            assert(gfull[k] == gidx[k - pl]);
                            assert(self.suffix()[k - pl] == self.tensor.shape@[k]);
                        }
                    }
                }
            }
        }
        r
    }

    /// Overwrite the element of the owner that the view index `idx` names.
    pub fn set(&mut self, idx: &Vec<usize>, e: Elem) -> (r: Result<(), TensorError>)
        requires
            old(self).wf(),
        ensures
            final(self).wf(),
            final(self).prefix@ == old(self).prefix@,
            final(self).target().dt == old(self).target().dt,
            final(self).target().shape@ == old(self).target().shape@,
            match r {
                Ok(()) => {
                    &&& in_bounds(old(self).suffix(), idx@.map_values(|v: usize| v as int))
                    &&& elem_fits(old(self).target().dt, e@)
                    &&& final(self).target().elems() == old(self).target().elems().update(
                        linear_of(
                            old(self).target().shape@,
                            (old(self).prefix@ + idx@).map_values(|v: usize| v as int),
                        ),
                        e@,
                    )
                },
                Err(err) => {
                    &&& final(self).target().elems() == old(self).target().elems()
                    &&& (err is IndexOutOfRange && !in_bounds(
                        old(self).suffix(),
                        idx@.map_values(|v: usize| v as int),
                    )) || (err is KindMismatch && !elem_fits(old(self).target().dt, e@))
                },
            },
    {
        let mut full: Vec<usize> = clone_vec_copy(&self.prefix);
        let mut i: usize = 0;
        while i < idx.len()
            invariant
                i <= idx.len(),
                full@ =~= self.prefix@ + idx@.take(i as int),
            decreases idx.len() - i,
        {
            full.push(idx[i]);
            i = i + 1;
        }
        proof {
            assert(full@ =~= self.prefix@ + idx@);
        }
        let r = self.tensor.set_at(&full, e);
        proof {
            let pl = self.prefix@.len() as int;
            let gfull = full@.map_values(|v: usize| v as int);
            let gidx = idx@.map_values(|v: usize| v as int);
            assert(in_bounds(old(self).target().shape@, gfull) <==> in_bounds(
                old(self).suffix(),
                gidx,
            )) by {
                if in_bounds(old(self).target().shape@, gfull) {
                    assert forall|k: int| 0 <= k < old(self).suffix().len() implies 0 <= #[trigger]
                    gidx[k] < old(self).suffix()[k] by {
                        assert(full@[pl + k] == idx@[k]);
                        assert(gfull[pl + k] == gidx[k]);
                        assert(old(self).suffix()[k] == old(self).target().shape@[pl + k]);
                    }
                }
                if in_bounds(old(self).suffix(), gidx) {
                    assert forall|k: int|
                        0 <= k < old(self).target().shape@.len() implies 0 <= #[trigger] gfull[k]
                        < old(self).target().shape@[k] by {
                        if k < pl {
                            assert(full@[k] == self.prefix@[k]);
                            assert(gfull[k] == self.prefix@[k]);
                        } else {
                            assert(full@[k] == idx@[k - pl]);
                            assert(gfull[k] == gidx[k - pl]);
                            assert(old(self).suffix()[k - pl] == old(self).target().shape@[k]);
                        }
                    }
                }
            }
        }
        r
    }
}

impl Tensor {
    /// An exclusive view of the whole tensor.
    pub fn view_mut(&mut self) -> (r: TensorViewMut<'_>)
        requires
            old(self).wf(),
        ensures
            r.wf(),
            r.prefix@ == Seq::<usize>::empty(),
            r.target() == *old(self),
    {
        TensorViewMut { tensor: self, prefix: Vec::new() }
    }

    /// An exclusive view anchored at the multi-index prefix `prefix`.
    pub fn view_at_prefix_mut(&mut self, prefix: &Vec<usize>) -> (r: Result<
        TensorViewMut<'_>,
        TensorError,
    >)
        requires
            old(self).wf(),
        ensures
            match r {
                Ok(v) => {
                    &&& v.wf()
                    &&& v.prefix@ == prefix@
                    &&& v.target() == *old(self)
                },
                Err(e) => {
                    &&& *final(self) == *old(self)
                    &&& e is IndexOutOfRange
                    &&& (prefix@.len() > old(self).shape@.len() || exists|i: int|
                        0 <= i < prefix@.len() && #[trigger] prefix@[i] >= old(self).shape@[i])
                },
            },
    {
        if prefix.len() > self.shape.len() {
            return Err(TensorError::IndexOutOfRange);
        }
        let mut i: usize = 0;
        while i < prefix.len()
            invariant
                i <= prefix@.len(),
                *self == *old(self),
                self.wf(),
                prefix@.len() <= self.shape@.len(),
                forall|k: int| 0 <= k < i ==> #[trigger] prefix@[k] < self.shape@[k],
            decreases prefix@.len() - i,
        {
            if prefix[i] >= self.shape[i] {
                return Err(TensorError::IndexOutOfRange);
            }
            i = i + 1;
        }
        Ok(TensorViewMut { tensor: self, prefix: clone_vec_copy(prefix) })
    }
}

} // verus!