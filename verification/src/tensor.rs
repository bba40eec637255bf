//! The tensor itself: a type-erased, exclusively-owned buffer of elements of
//! one kind, with its shape and natural row-major strides.

use vstd::prelude::*;

use crate::datum::{class_of_elem, elem_fits, zero_elem, zero_elem_v, DatumType, Elem, ElemV,
    StorageKind, TDim};
use crate::error::TensorError;
use crate::shape::{element_count, in_bounds, lemma_linear_bound, lemma_prod_insert_one,
    lemma_prod_ones_prefix, lemma_prod_pos, lemma_prod_remove_one, lemma_prod_unfold, linear_of,
    natural_strides_checked, prod, stride_of};

verus! {

/// A power of two, the only legal alignments.
pub open spec fn is_pow2(a: nat) -> bool
    decreases a,
{
    if a == 0 {
        false
    } else if a == 1 {
        true
    } else {
        a % 2 == 0 && is_pow2(a / 2)
    }
}

/// Whether an alignment value is legal.
pub fn check_align(a: usize) -> (r: bool)
    ensures
        r == is_pow2(a as nat),
{
    if a == 0 {
        return false;
    }
    let mut v: usize = a;
    while v > 1 && v % 2 == 0
        invariant
            v >= 1,
            is_pow2(a as nat) <==> is_pow2(v as nat),
        decreases v,
    {
        v = v / 2;
    }
    v == 1
}

/// The backing storage: one flat, typed vector per storage class.  Kinds of
/// the same class share a representation, which is what lets operations that
/// never interpret values dispatch on the class alone.
#[derive(Hash, Debug)]
pub enum Buffer {
    B8(Vec<u8>),
    B16(Vec<u16>),
    B32(Vec<u32>),
    B64(Vec<u64>),
    Dim(Vec<TDim>),
    Text(Vec<String>),
    Bytes(Vec<Vec<u8>>),
}

impl Buffer {
    /// The element values held, in linear row-major order.
    pub open spec fn view(&self) -> Seq<ElemV> {
        match self {
            Buffer::B8(v) => v@.map_values(|x: u8| ElemV::B8(x)),
            Buffer::B16(v) => v@.map_values(|x: u16| ElemV::B16(x)),
            Buffer::B32(v) => v@.map_values(|x: u32| ElemV::B32(x)),
            Buffer::B64(v) => v@.map_values(|x: u64| ElemV::B64(x)),
            Buffer::Dim(v) => v@.map_values(|x: TDim| ElemV::Dim(x)),
            Buffer::Text(v) => v@.map_values(|x: String| ElemV::Text(x@)),
            Buffer::Bytes(v) => v@.map_values(|x: Vec<u8>| ElemV::Bytes(x@)),
        }
    }

    /// The storage class of this buffer.
    pub open spec fn class(&self) -> StorageKind {
        match self {
            Buffer::B8(_) => StorageKind::W8,
            Buffer::B16(_) => StorageKind::W16,
            Buffer::B32(_) => StorageKind::W32,
            Buffer::B64(_) => StorageKind::W64,
            Buffer::Dim(_) => StorageKind::Dim,
            Buffer::Text(_) => StorageKind::Text,
            Buffer::Bytes(_) => StorageKind::Bytes,
        }
    }

    /// Every element of a buffer belongs to its storage class.
    pub proof fn lemma_classes(&self)
        ensures
            forall|i: int|
                0 <= i < self.view().len() ==> class_of_elem(#[trigger] self.view()[i])
                    == self.class(),
    {
    }

    /// The number of elements held.
    pub fn len(&self) -> (r: usize)
        ensures
            r == self.view().len(),
    {
        match self {
            Buffer::B8(v) => v.len(),
            Buffer::B16(v) => v.len(),
            Buffer::B32(v) => v.len(),
            Buffer::B64(v) => v.len(),
            Buffer::Dim(v) => v.len(),
            Buffer::Text(v) => v.len(),
            Buffer::Bytes(v) => v.len(),
        }
    }

    /// Read (a copy of) the element at linear position `i`.
    pub fn get(&self, i: usize) -> (r: Elem)
        requires
            i < self.view().len(),
        ensures
            r@ == self.view()[i as int],
    {
        match self {
            Buffer::B8(v) => Elem::B8(v[i]),
            Buffer::B16(v) => Elem::B16(v[i]),
            Buffer::B32(v) => Elem::B32(v[i]),
            Buffer::B64(v) => Elem::B64(v[i]),
            Buffer::Dim(v) => Elem::Dim(v[i]),
            Buffer::Text(v) => Elem::Text(v[i].clone()),
            Buffer::Bytes(v) => {
                let b: &Vec<u8> = &v[i];
                let mut c: Vec<u8> = Vec::new();
                let mut k: usize = 0;
                while k < b.len()
                    invariant
                        k <= b.len(),
                        c@ =~= b@.take(k as int),
                    decreases b.len() - k,
                {
                    c.push(b[k]);
                    k = k + 1;
                }
                proof {
                    assert(c@ =~= b@);
                }
                Elem::Bytes(c)
            },
        }
    }

    /// Overwrite the element at linear position `i`.
    pub fn set(&mut self, i: usize, e: Elem)
        requires
            i < old(self).view().len(),
            class_of_elem(e@) == old(self).class(),
        ensures
            final(self).class() == old(self).class(),
            final(self).view() == old(self).view().update(i as int, e@),
    {
        match self {
            Buffer::B8(v) => {
                if let Elem::B8(x) = e {
                    v[i] = x;
                    proof {
                        assert(self.view() =~= old(self).view().update(i as int, e@));
                    }
                } else {
                    proof {
                        assert(false);
                    }
                }
            },
            Buffer::B16(v) => {
                if let Elem::B16(x) = e {
                    v[i] = x;
                    proof {
                        assert(self.view() =~= old(self).view().update(i as int, e@));
                    }
                } else {
                    proof {
                        assert(false);
                    }
                }
            },
            Buffer::B32(v) => {
                if let Elem::B32(x) = e {
                    v[i] = x;
                    proof {
                        assert(self.view() =~= old(self).view().update(i as int, e@));
                    }
                } else {
                    proof {
                        assert(false);
                    }
                }
            },
            Buffer::B64(v) => {
                if let Elem::B64(x) = e {
                    v[i] = x;
                    proof {
                        assert(self.view() =~= old(self).view().update(i as int, e@));
                    }
                } else {
                    proof {
                        assert(false);
                    }
                }
            },
            Buffer::Dim(v) => {
                if let Elem::Dim(x) = e {
                    v[i] = x;
                    proof {
                        assert(self.view() =~= old(self).view().update(i as int, e@));
                    }
                } else {
                    proof {
                        assert(false);
                    }
                }
            },
            Buffer::Text(v) => {
                if let Elem::Text(x) = e {
                    v[i] = x;
                    proof {
                        assert(self.view() =~= old(self).view().update(i as int, e@));
                    }
                } else {
                    proof {
                        assert(false);
                    }
                }
            },
            Buffer::Bytes(v) => {
                if let Elem::Bytes(x) = e {
                    v[i] = x;
                    proof {
                        assert(self.view() =~= old(self).view().update(i as int, e@));
                    }
                } else {
                    proof {
                        assert(false);
                    }
                }
            },
        }
    }

    /// A buffer of `n` copies of the zero element of `dt`.
    pub fn filled(dt: DatumType, n: usize) -> (r: Buffer)
        ensures
            r.class() == dt.class(),
            r.view().len() == n,
            forall|i: int| 0 <= i < n ==> r.view()[i] == zero_elem_v(dt),
    {
        match dt.storage_kind() {
            StorageKind::W8 => Buffer::B8(fill_copy::<u8>(n, 0)),
            StorageKind::W16 => Buffer::B16(fill_copy::<u16>(n, 0)),
            StorageKind::W32 => Buffer::B32(fill_copy::<u32>(n, 0)),
            StorageKind::W64 => Buffer::B64(fill_copy::<u64>(n, 0)),
            StorageKind::Dim => Buffer::Dim(fill_copy::<TDim>(n, TDim::Val(0))),
            StorageKind::Text => {
                let mut v: Vec<String> = Vec::new();
                let mut i: usize = 0;
                while i < n
                    invariant
                        i <= n,
                        v@.len() == i,
                        forall|k: int| 0 <= k < i ==> v@[k]@ == Seq::<char>::empty(),
                    decreases n - i,
                {
                    v.push(String::new());
                    i = i + 1;
                }
                Buffer::Text(v)
            },
            StorageKind::Bytes => {
                let mut v: Vec<Vec<u8>> = Vec::new();
                let mut i: usize = 0;
                while i < n
                    invariant
                        i <= n,
                        v@.len() == i,
                        forall|k: int| 0 <= k < i ==> v@[k]@ == Seq::<u8>::empty(),
                    decreases n - i,
                {
                    v.push(Vec::new());
                    i = i + 1;
                }
                Buffer::Bytes(v)
            },
        }
    }
}

/// A vector of `n` copies of a `Copy` value.
pub fn fill_copy<T: Copy>(n: usize, val: T) -> (r: Vec<T>)
    ensures
        r@.len() == n,
        forall|i: int| 0 <= i < n ==> r@[i] == val,
{
    let mut v: Vec<T> = Vec::new();
    let mut i: usize = 0;
    while i < n
        invariant
            i <= n,
            v@.len() == i,
            forall|k: int| 0 <= k < i ==> v@[k] == val,
        decreases n - i,
    {
        v.push(val);
        i = i + 1;
    }
    v
}

/// A concrete tensor: one element kind, a shape, the natural row-major
/// strides derived from it, the recorded alignment of the backing
/// allocation, and the exclusively-owned element buffer.
#[derive(Hash, Debug)]
pub struct Tensor {
    pub dt: DatumType,
    pub shape: Vec<usize>,
    pub strides: Vec<isize>,
    pub align: usize,
    pub data: Buffer,
}

/// Two tensors are observably equal: same kind, same shape, elementwise
/// equal contents.  Strides and alignment are derived or incidental and do
/// not take part, as in exact tensor equality.
pub open spec fn tensor_eq(a: Tensor, b: Tensor) -> bool {
    &&& a.dt == b.dt
    &&& a.shape@ == b.shape@
    &&& a.elems() == b.elems()
}

impl Tensor {
    /// The element values, in linear row-major order.
    pub open spec fn elems(&self) -> Seq<ElemV> {
        self.data.view()
    }

    /// The internal invariant: strides follow the row-major rule, the buffer
    /// has exactly one element per shape point, every element inhabits the
    /// kind, and the alignment is a power of two.
    pub open spec fn wf(&self) -> bool {
        &&& self.strides@.len() == self.shape@.len()
        &&& forall|i: int|
            0 <= i < self.strides@.len() ==> #[trigger] self.strides@[i] == stride_of(
                self.shape@,
                i,
            )
        &&& self.data.class() == self.dt.class()
        &&& self.data.view().len() == prod(self.shape@)
        &&& forall|i: int|
            0 <= i < self.data.view().len() ==> elem_fits(self.dt, #[trigger] self.data.view()[i])
        &&& is_pow2(self.align as nat)
    }

    /// Whether a kind, shape and alignment describe a buffer this core can
    /// hold: the alignment is a power of two, the element count and the byte
    /// count fit a `usize`, and every stride fits an `isize`.
    pub open spec fn alloc_ok(dt: DatumType, shape: Seq<usize>, align: usize) -> bool {
        &&& is_pow2(align as nat)
        &&& prod(shape) <= usize::MAX
        &&& prod(shape) * (dt.size_of_spec() as nat) <= usize::MAX
        &&& forall|i: int| 0 <= i < shape.len() ==> stride_of(shape, i) <= isize::MAX
    }

    /// Create a tensor of the given kind and shape, with the kind's natural
    /// alignment.  Its contents are unspecified staging values that a caller
    /// must fully overwrite before exposing the tensor.
    pub fn uninitialized_dt(dt: DatumType, shape: &Vec<usize>) -> (r: Result<Tensor, TensorError>)
        ensures
            match r {
                Ok(t) => {
                    &&& Self::alloc_ok(dt, shape@, dt.alignment_spec())
                    &&& t.wf()
                    &&& t.dt == dt
                    &&& t.shape@ == shape@
                    &&& t.align == dt.alignment_spec()
                },
                Err(e) => !Self::alloc_ok(dt, shape@, dt.alignment_spec()) && e is AllocationError,
            },
    {
        Self::uninitialized_aligned_dt(dt, shape, dt.alignment())
    }

    /// Create a tensor of the given kind, shape and alignment.  Its contents
    /// are unspecified staging values that a caller must fully overwrite
    /// before exposing the tensor.
    pub fn uninitialized_aligned_dt(dt: DatumType, shape: &Vec<usize>, alignment: usize) -> (r:
        Result<Tensor, TensorError>)
        ensures
            match r {
                Ok(t) => {
                    &&& Self::alloc_ok(dt, shape@, alignment)
                    &&& t.wf()
                    &&& t.dt == dt
                    &&& t.shape@ == shape@
                    &&& t.align == alignment
                },
                Err(e) => !Self::alloc_ok(dt, shape@, alignment) && e is AllocationError,
            },
    {
        if !check_align(alignment) {
            return Err(TensorError::AllocationError);
        }
        let n = match element_count(shape) {
            Some(n) => n,
            None => {
                return Err(TensorError::AllocationError);
            },
        };
        if n.checked_mul(dt.size_of()).is_none() {
            return Err(TensorError::AllocationError);
        }
        let strides = match natural_strides_checked(shape) {
            Some(st) => st,
            None => {
                return Err(TensorError::AllocationError);
            },
        };
        let data = Buffer::filled(dt, n);
        let mut sh: Vec<usize> = Vec::new();
        let mut i: usize = 0;
        while i < shape.len()
            invariant
                i <= shape.len(),
                sh@ =~= shape@.take(i as int),
            decreases shape.len() - i,
        {
            sh.push(shape[i]);
            i = i + 1;
        }
        proof {
            assert(sh@ =~= shape@);
        }
        Ok(Tensor { dt, shape: sh, strides, align: alignment, data })
    }

    /// Overwrite every element with the kind's zero value.
    pub fn clear(&mut self)
        requires
            old(self).wf(),
        ensures
            final(self).wf(),
            final(self).dt == old(self).dt,
            final(self).shape@ == old(self).shape@,
            final(self).strides@ == old(self).strides@,
            final(self).align == old(self).align,
            final(self).elems().len() == old(self).elems().len(),
            forall|i: int|
                0 <= i < final(self).elems().len() ==> final(self).elems()[i] == zero_elem_v(
                    old(self).dt,
                ),
    {
        let n = self.data.len();
        let mut i: usize = 0;
        while i < n
            invariant
                i <= n,
                self.wf(),
                self.dt == old(self).dt,
                self.shape@ == old(self).shape@,
                self.strides@ == old(self).strides@,
                self.align == old(self).align,
                n == self.elems().len(),
                forall|k: int| 0 <= k < i ==> self.elems()[k] == zero_elem_v(old(self).dt),
            decreases n - i,
        {
            let z = zero_elem(self.dt);
            self.data.set(i, z);
            i = i + 1;
        }
    }

    /// A tensor of the given numeric kind and shape, zero filled.
    pub fn zero_dt(dt: DatumType, shape: &Vec<usize>) -> (r: Result<Tensor, TensorError>)
        ensures
            match r {
                Ok(t) => {
                    &&& dt.is_number_spec()
                    &&& Self::alloc_ok(dt, shape@, dt.alignment_spec())
                    &&& t.wf()
                    &&& t.dt == dt
                    &&& t.shape@ == shape@
                    &&& forall|i: int|
                        0 <= i < t.elems().len() ==> t.elems()[i] == zero_elem_v(dt)
                },
                Err(e) => {
                    ||| (!dt.is_number_spec() && e is KindMismatch)
                    ||| (dt.is_number_spec() && !Self::alloc_ok(dt, shape@, dt.alignment_spec())
                        && e is AllocationError)
                },
            },
    {
        if !dt.is_number() {
            return Err(TensorError::KindMismatch);
        }
        let mut t = Self::uninitialized_dt(dt, shape)?;
        t.clear();
        Ok(t)
    }

    /// A tensor of the given numeric kind, shape and alignment, zero filled.
    pub fn zero_aligned_dt(dt: DatumType, shape: &Vec<usize>, alignment: usize) -> (r: Result<
        Tensor,
        TensorError,
    >)
        ensures
            match r {
                Ok(t) => {
                    &&& dt.is_number_spec()
                    &&& Self::alloc_ok(dt, shape@, alignment)
                    &&& t.wf()
                    &&& t.dt == dt
                    &&& t.shape@ == shape@
                    &&& t.align == alignment
                    &&& forall|i: int|
                        0 <= i < t.elems().len() ==> t.elems()[i] == zero_elem_v(dt)
                },
                Err(e) => {
                    ||| (!dt.is_number_spec() && e is KindMismatch)
                    ||| (dt.is_number_spec() && !Self::alloc_ok(dt, shape@, alignment)
                        && e is AllocationError)
                },
            },
    {
        if !dt.is_number() {
            return Err(TensorError::KindMismatch);
        }
        let mut t = Self::uninitialized_aligned_dt(dt, shape, alignment)?;
        t.clear();
        Ok(t)
    }

    /// Build a tensor from its elements, given in linear row-major order.
    pub fn from_elems(dt: DatumType, shape: &Vec<usize>, elems: Vec<Elem>) -> (r: Result<
        Tensor,
        TensorError,
    >)
        ensures
            match r {
                Ok(t) => {
                    &&& t.wf()
                    &&& t.dt == dt
                    &&& t.shape@ == shape@
                    &&& t.elems() == elems@.map_values(|e: Elem| e@)
                },
                Err(e) => {
                    if exists|i: int|
                        0 <= i < elems@.len() && !elem_fits(dt, (#[trigger] elems@[i])@) {
                        e is KindMismatch
                    } else if elems@.len() != prod(shape@) {
                        e is ShapeMismatch
                    } else {
                        e is AllocationError && !Self::alloc_ok(dt, shape@, dt.alignment_spec())
                    }
                },
            },
            (r is Err) <==> !{
                &&& forall|i: int| 0 <= i < elems@.len() ==> elem_fits(dt, #[trigger] elems@[i]@)
                &&& elems@.len() == prod(shape@)
                &&& Self::alloc_ok(dt, shape@, dt.alignment_spec())
            },
    {
        let mut i: usize = 0;
        while i < elems.len()
            invariant
                i <= elems.len(),
                forall|k: int| 0 <= k < i ==> elem_fits(dt, #[trigger] elems@[k]@),
            decreases elems.len() - i,
        {
            if !elems[i].fits(dt) {
                return Err(TensorError::KindMismatch);
            }
            i = i + 1;
        }
        let n = match element_count(shape) {
            Some(n) => n,
            None => {
                // the element count exceeds usize, so no vector can match it
                return Err(TensorError::ShapeMismatch);
            },
        };
        if elems.len() != n {
            return Err(TensorError::ShapeMismatch);
        }
        let mut t = Self::uninitialized_dt(dt, shape)?;
        let mut j: usize = 0;
        let ghost gelems = elems@;
        let mut src = elems;
        while j < n
            invariant
                j <= n,
                t.wf(),
                t.dt == dt,
                t.shape@ == shape@,
                n == t.elems().len(),
                src@.len() == n - j,
                gelems.len() == n,
                forall|k: int| 0 <= k < n ==> elem_fits(dt, #[trigger] gelems[k]@),
                forall|k: int| j <= k < n ==> src@[k - j] == gelems[k],
                forall|k: int| 0 <= k < j ==> t.elems()[k] == gelems[k]@,
            decreases n - j,
        {
            let e = src.remove(0);
            proof {
                assert(e == gelems[j as int]);
                assert(elem_fits(dt, e@));
            }
            t.data.set(j, e);
            j = j + 1;
        }
        proof {
            assert(t.elems() =~= gelems.map_values(|e: Elem| e@));
        }
        Ok(t)
    }

    /// The number of axes of the tensor.
    pub fn rank(&self) -> (r: usize)
        ensures
            r == self.shape@.len(),
    {
        self.shape.len()
    }

    /// The shape of the tensor.
    pub fn shape(&self) -> (r: &Vec<usize>)
        ensures
            r@ == self.shape@,
    {
        &self.shape
    }

    /// The number of values in the tensor.
    pub fn len(&self) -> (r: usize)
        requires
            self.wf(),
        ensures
            r == prod(self.shape@),
            r == self.elems().len(),
    {
        self.data.len()
    }

    /// The strides of the tensor, in elements, one per axis.
    pub fn strides(&self) -> (r: &Vec<isize>)
        ensures
            r@ == self.strides@,
    {
        &self.strides
    }

    /// The element kind of the tensor.
    pub fn datum_type(&self) -> (r: DatumType)
        ensures
            r == self.dt,
    {
        self.dt
    }

    /// Read (a copy of) the element at linear position `i`.
    pub fn get_elem(&self, i: usize) -> (r: Result<Elem, TensorError>)
        requires
            self.wf(),
        ensures
            match r {
                Ok(e) => i < self.elems().len() && e@ == self.elems()[i as int],
                Err(e) => i >= self.elems().len() && e is IndexOutOfRange,
            },
    {
        if i >= self.data.len() {
            return Err(TensorError::IndexOutOfRange);
        }
        Ok(self.data.get(i))
    }

    /// Overwrite the element at linear position `i`.
    pub fn set_elem(&mut self, i: usize, e: Elem) -> (r: Result<(), TensorError>)
        requires
            old(self).wf(),
        ensures
            final(self).wf(),
            final(self).dt == old(self).dt,
            final(self).shape@ == old(self).shape@,
            final(self).strides@ == old(self).strides@,
            final(self).align == old(self).align,
            match r {
                Ok(()) => {
                    &&& i < old(self).elems().len()
                    &&& elem_fits(old(self).dt, e@)
                    &&& final(self).elems() == old(self).elems().update(i as int, e@)
                },
                Err(err) => {
                    &&& final(self).elems() == old(self).elems()
                    &&& (err is IndexOutOfRange && i >= old(self).elems().len()) || (
                    err is KindMismatch && !elem_fits(old(self).dt, e@))
                },
            },
    {
        if i >= self.data.len() {
            return Err(TensorError::IndexOutOfRange);
        }
        if !e.fits(self.dt) {
            return Err(TensorError::KindMismatch);
        }
        self.data.set(i, e);
        Ok(())
    }

    /// Read the element at a full multi-index.
    pub fn get_at(&self, idx: &Vec<usize>) -> (r: Result<Elem, TensorError>)
        requires
            self.wf(),
        ensures
            match r {
                Ok(e) => {
                    &&& in_bounds(self.shape@, idx@.map_values(|v: usize| v as int))
                    &&& e@ == self.elems()[linear_of(
                        self.shape@,
                        idx@.map_values(|v: usize| v as int),
                    )]
                },
                Err(e) => {
                    &&& !in_bounds(self.shape@, idx@.map_values(|v: usize| v as int))
                    &&& e is IndexOutOfRange
                },
            },
    {
        let ghost gidx = idx@.map_values(|v: usize| v as int);
        if idx.len() != self.shape.len() {
            return Err(TensorError::IndexOutOfRange);
        }
        let mut i: usize = 0;
        while i < idx.len()
            invariant
                i <= idx.len(),
                idx@.len() == self.shape@.len(),
                gidx == idx@.map_values(|v: usize| v as int),
                forall|k: int| 0 <= k < i ==> 0 <= #[trigger] gidx[k] < self.shape@[k],
            decreases idx.len() - i,
        {
            if idx[i] >= self.shape[i] {
                proof {
                    assert(gidx[i as int] >= self.shape@[i as int]);
                    assert(!in_bounds(self.shape@, gidx));
                }
                return Err(TensorError::IndexOutOfRange);
            }
            i = i + 1;
        }
        let n = self.data.len();
        proof {
            assert(in_bounds(self.shape@, gidx));
            assert(prod(self.shape@) <= usize::MAX);
            lemma_linear_bound(self.shape@, gidx);
        }
        let l = crate::shape::encode_index(&self.shape, idx);
        Ok(self.data.get(l))
    }

    /// Overwrite the element at a full multi-index.
    pub fn set_at(&mut self, idx: &Vec<usize>, e: Elem) -> (r: Result<(), TensorError>)
        requires
            old(self).wf(),
        ensures
            final(self).wf(),
            final(self).dt == old(self).dt,
            final(self).shape@ == old(self).shape@,
            final(self).strides@ == old(self).strides@,
            final(self).align == old(self).align,
            match r {
                Ok(()) => {
                    &&& in_bounds(old(self).shape@, idx@.map_values(|v: usize| v as int))
                    &&& elem_fits(old(self).dt, e@)
                    &&& final(self).elems() == old(self).elems().update(
                        linear_of(old(self).shape@, idx@.map_values(|v: usize| v as int)),
                        e@,
                    )
                },
                Err(err) => {
                    &&& final(self).elems() == old(self).elems()
                    &&& (err is IndexOutOfRange && !in_bounds(
                        old(self).shape@,
                        idx@.map_values(|v: usize| v as int),
                    )) || (err is KindMismatch && !elem_fits(old(self).dt, e@))
                },
            },
    {
        let ghost gidx = idx@.map_values(|v: usize| v as int);
        if idx.len() != self.shape.len() {
            return Err(TensorError::IndexOutOfRange);
        }
        let mut i: usize = 0;
        while i < idx.len()
            invariant
                i <= idx.len(),
                *self == *old(self),
                self.wf(),
                idx@.len() == self.shape@.len(),
                gidx == idx@.map_values(|v: usize| v as int),
                forall|k: int| 0 <= k < i ==> 0 <= #[trigger] gidx[k] < self.shape@[k],
            decreases idx.len() - i,
        {
            if idx[i] >= self.shape[i] {
                proof {
                    assert(gidx[i as int] >= self.shape@[i as int]);
                    assert(!in_bounds(self.shape@, gidx));
                }
                return Err(TensorError::IndexOutOfRange);
            }
            i = i + 1;
        }
        if !e.fits(self.dt) {
            return Err(TensorError::KindMismatch);
        }
        let n = self.data.len();
        proof {
            assert(in_bounds(self.shape@, gidx));
            assert(prod(self.shape@) <= usize::MAX);
            lemma_linear_bound(self.shape@, gidx);
        }
        let l = crate::shape::encode_index(&self.shape, idx);
        self.data.set(l, e);
        Ok(())
    }

    /// A deep copy: a fresh buffer holding the same element values.
    pub fn deep_clone(&self) -> (r: Tensor)
        requires
            self.wf(),
        ensures
            r.wf(),
            r.dt == self.dt,
            r.shape@ == self.shape@,
            r.strides@ == self.strides@,
            r.align == self.align,
            r.elems() == self.elems(),
            tensor_eq(r, *self),
    {
        let n = self.data.len();
        let mut data = Buffer::filled(self.dt, n);
        let mut i: usize = 0;
        while i < n
            invariant
                i <= n,
                n == self.elems().len(),
                self.wf(),
                data.class() == self.dt.class(),
                data.view().len() == n,
                forall|k: int| 0 <= k < i ==> data.view()[k] == self.elems()[k],
            decreases n - i,
        {
            let e = self.data.get(i);
            proof {
                self.data.lemma_classes();
            }
            data.set(i, e);
            i = i + 1;
        }
        proof {
            assert(data.view() =~= self.elems());
        }
        let mut sh: Vec<usize> = Vec::new();
        let mut k: usize = 0;
        while k < self.shape.len()
            invariant
                k <= self.shape@.len(),
                sh@ =~= self.shape@.take(k as int),
            decreases self.shape@.len() - k,
        {
            sh.push(self.shape[k]);
            k = k + 1;
        }
        let mut st: Vec<isize> = Vec::new();
        let mut m: usize = 0;
        while m < self.strides.len()
            invariant
                m <= self.strides@.len(),
                st@ =~= self.strides@.take(m as int),
            decreases self.strides@.len() - m,
        {
            st.push(self.strides[m]);
            m = m + 1;
        }
        proof {
            assert(sh@ =~= self.shape@);
            assert(st@ =~= self.strides@);
        }
        Tensor { dt: self.dt, shape: sh, strides: st, align: self.align, data }
    }

    /// Whether every element equals the first (vacuously true when the
    /// tensor has at most one element).
    pub fn is_uniform(&self) -> (r: Result<bool, TensorError>)
        requires
            self.wf(),
        ensures
            match r {
                Ok(u) => u == (forall|i: int|
                    0 <= i < self.elems().len() ==> #[trigger] self.elems()[i]
                        == self.elems()[0]),
                Err(_) => false,
            },
    {
        let n = self.data.len();
        if n <= 1 {
            return Ok(true);
        }
        let first = self.data.get(0);
        let mut i: usize = 1;
        while i < n
            invariant
                1 <= i <= n,
                n == self.elems().len(),
                self.wf(),
                first@ == self.elems()[0],
                forall|k: int| 0 <= k < i ==> #[trigger] self.elems()[k] == self.elems()[0],
            decreases n - i,
        {
            let e = self.data.get(i);
            if !e.same(&first) {
                return Ok(false);
            }
            i = i + 1;
        }
        Ok(true)
    }

    /// The `nth` linear element, as a rank-0 tensor of the same kind.
    pub fn nth(&self, nth: usize) -> (r: Result<Tensor, TensorError>)
        requires
            self.wf(),
        ensures
            match r {
                Ok(t) => {
                    &&& nth < self.elems().len()
                    &&& t.wf()
                    &&& t.dt == self.dt
                    &&& t.shape@ == Seq::<usize>::empty()
                    &&& t.elems() == seq![self.elems()[nth as int]]
                },
                Err(e) => nth >= self.elems().len() && e is IndexOutOfRange,
            },
    {
        if nth >= self.data.len() {
            return Err(TensorError::IndexOutOfRange);
        }
        let e = self.data.get(nth);
        let shape: Vec<usize> = Vec::new();
        let mut t = match Self::uninitialized_dt(self.dt, &shape) {
            Ok(t) => t,
            Err(_) => {
                proof {
                    assert(prod(Seq::<usize>::empty()) == 1);
                    assert(Seq::<usize>::empty().len() == 0);
                    reveal_pow2_small();
                }
                vstd::pervasive::unreached()
            },
        };
        proof {
            self.data.lemma_classes();
            assert(t.elems().len() == 1);
        }
        t.data.set(0, e);
        proof {
            assert(t.elems() =~= seq![self.elems()[nth as int]]);
        }
        Ok(t)
    }

    /// Fill a fresh tensor of the given shape with this rank-0 tensor's
    /// single value.
    pub fn broadcast_scalar_to_shape(&self, shape: &Vec<usize>) -> (r: Result<Tensor, TensorError>)
        requires
            self.wf(),
        ensures
            match r {
                Ok(t) => {
                    &&& self.shape@.len() == 0
                    &&& Self::alloc_ok(self.dt, shape@, self.dt.alignment_spec())
                    &&& t.wf()
                    &&& t.dt == self.dt
                    &&& t.shape@ == shape@
                    &&& forall|i: int|
                        0 <= i < t.elems().len() ==> t.elems()[i] == self.elems()[0]
                },
                Err(e) => {
                    ||| (self.shape@.len() != 0 && e is RankMismatch)
                    ||| (self.shape@.len() == 0 && !Self::alloc_ok(
                        self.dt,
                        shape@,
                        self.dt.alignment_spec(),
                    ) && e is AllocationError)
                },
            },
    {
        if self.shape.len() != 0 {
            return Err(TensorError::RankMismatch);
        }
        proof {
            assert(prod(self.shape@) == 1);
            assert(self.elems().len() == 1);
        }
        let value = self.data.get(0);
        let mut t = Self::uninitialized_dt(self.dt, shape)?;
        let n = t.data.len();
        let mut i: usize = 0;
        while i < n
            invariant
                i <= n,
                t.wf(),
                t.dt == self.dt,
                t.shape@ == shape@,
                n == t.elems().len(),
                self.wf(),
                self.elems().len() == 1,
                value@ == self.elems()[0],
                forall|k: int| 0 <= k < i ==> t.elems()[k] == self.elems()[0],
            decreases n - i,
        {
            let e = value.dup();
            proof {
                self.data.lemma_classes();
            }
            t.data.set(i, e);
            i = i + 1;
        }
        Ok(t)
    }
}

/// `is_pow2` holds of the small alignments the kinds use.
pub proof fn reveal_pow2_small()
    ensures
        is_pow2(1),
        is_pow2(2),
        is_pow2(4),
        is_pow2(8),
{
    assert(is_pow2(1));
    assert(is_pow2(2));
    assert(is_pow2(4));
    assert(is_pow2(8));
}

/// A copy of a vector of `Copy` values.
pub fn clone_vec_copy<T: Copy>(v: &Vec<T>) -> (r: Vec<T>)
    ensures
        r@ == v@,
{
    let mut c: Vec<T> = Vec::new();
    let mut i: usize = 0;
    while i < v.len()
        invariant
            i <= v.len(),
            c@ =~= v@.take(i as int),
        decreases v.len() - i,
    {
        c.push(v[i]);
        i = i + 1;
    }
    proof {
        assert(c@ =~= v@);
    }
    c
}

impl Tensor {
    /// Reshape in place: the new shape must describe exactly as many
    /// elements as the old one.  Only metadata changes; the buffer and the
    /// element order are untouched.
    pub fn set_shape(&mut self, shape: &Vec<usize>) -> (r: Result<(), TensorError>)
        requires
            old(self).wf(),
        ensures
            final(self).wf(),
            final(self).dt == old(self).dt,
            final(self).align == old(self).align,
            final(self).elems() == old(self).elems(),
            match r {
                Ok(()) => {
                    &&& prod(shape@) == prod(old(self).shape@)
                    &&& forall|i: int| 0 <= i < shape@.len() ==> stride_of(shape@, i) <= isize::MAX
                    &&& final(self).shape@ == shape@
                },
                Err(e) => {
                    &&& final(self).shape@ == old(self).shape@
                    &&& final(self).strides@ == old(self).strides@
                    &&& {
                        ||| (e is ShapeMismatch && prod(shape@) != prod(old(self).shape@))
                        ||| (e is AllocationError && prod(shape@) == prod(old(self).shape@)
                            && exists|i: int|
                            0 <= i < shape@.len() && stride_of(shape@, i) > isize::MAX)
                    }
                },
            },
    {
        let cur = self.data.len();
        let n = match element_count(shape) {
            Some(n) => n,
            None => {
                proof {
                    assert(prod(self.shape@) == cur);
                }
                return Err(TensorError::ShapeMismatch);
            },
        };
        if n != cur {
            return Err(TensorError::ShapeMismatch);
        }
        let strides = match natural_strides_checked(shape) {
            Some(st) => st,
            None => {
                return Err(TensorError::AllocationError);
            },
        };
        self.shape = clone_vec_copy(shape);
        self.strides = strides;
        Ok(())
    }

    /// Reshape in place without a count check: the caller guarantees that
    /// the new shape matches the element count and that its strides fit.
    pub fn set_shape_unchecked(&mut self, shape: &Vec<usize>)
        requires
            old(self).wf(),
            prod(shape@) == prod(old(self).shape@),
            forall|i: int| 0 <= i < shape@.len() ==> stride_of(shape@, i) <= isize::MAX,
        ensures
            final(self).wf(),
            final(self).dt == old(self).dt,
            final(self).align == old(self).align,
            final(self).elems() == old(self).elems(),
            final(self).shape@ == shape@,
    {
        let strides = crate::shape::natural_strides(shape);
        self.shape = clone_vec_copy(shape);
        self.strides = strides;
    }

    /// Reshape by value.
    pub fn into_shape(self, shape: &Vec<usize>) -> (r: Result<Tensor, TensorError>)
        requires
            self.wf(),
        ensures
            match r {
                Ok(t) => {
                    &&& t.wf()
                    &&& t.dt == self.dt
                    &&& t.elems() == self.elems()
                    &&& t.shape@ == shape@
                    &&& prod(shape@) == prod(self.shape@)
                },
                Err(e) => {
                    ||| (e is ShapeMismatch && prod(shape@) != prod(self.shape@))
                    ||| (e is AllocationError && prod(shape@) == prod(self.shape@) && exists|i: int|
                        0 <= i < shape@.len() && stride_of(shape@, i) > isize::MAX)
                },
            },
    {
        let mut t = self;
        t.set_shape(shape)?;
        Ok(t)
    }

    /// Insert a length-1 axis at `axis`, adjusting strides; the buffer is
    /// untouched.
    pub fn insert_axis(&mut self, axis: usize) -> (r: Result<(), TensorError>)
        requires
            old(self).wf(),
        ensures
            final(self).wf(),
            final(self).dt == old(self).dt,
            final(self).align == old(self).align,
            final(self).elems() == old(self).elems(),
            match r {
                Ok(()) => {
                    &&& axis <= old(self).shape@.len()
                    &&& final(self).shape@ == old(self).shape@.insert(axis as int, 1usize)
                },
                Err(e) => {
                    &&& final(self).shape@ == old(self).shape@
                    &&& final(self).strides@ == old(self).strides@
                    &&& {
                        ||| (e is IndexOutOfRange && axis > old(self).shape@.len())
                        ||| (e is AllocationError && axis <= old(self).shape@.len() && stride_of(
                            old(self).shape@.insert(axis as int, 1usize),
                            axis as int,
                        ) > isize::MAX)
                    }
                },
            },
    {
        let rank = self.shape.len();
        if axis > rank {
            return Err(TensorError::IndexOutOfRange);
        }
        let ghost os = self.shape@;
        let ghost ns = os.insert(axis as int, 1usize);
        let val: usize = if axis < rank {
            proof {
                lemma_prod_unfold(os, axis as int);
                assert(ns.skip(axis as int + 1) =~= os.skip(axis as int));
            }
            let st = self.strides[axis] as usize;
            match self.shape[axis].checked_mul(st) {
                Some(v) => v,
                None => {
                    proof {
                        assert(stride_of(ns, axis as int) > isize::MAX);
                    }
                    return Err(TensorError::AllocationError);
                },
            }
        } else {
            proof {
                assert(ns.skip(axis as int + 1) =~= Seq::<usize>::empty());
                assert(prod(Seq::<usize>::empty()) == 1);
            }
            1
        };
        proof {
            assert(stride_of(ns, axis as int) == val);
        }
        if val > (isize::MAX as usize) {
            return Err(TensorError::AllocationError);
        }
        self.shape.insert(axis, 1);
        self.strides.insert(axis, val as isize);
        proof {
            assert(self.shape@ == ns);
            lemma_prod_insert_one(os, axis as int);
            assert forall|k: int| 0 <= k < self.strides@.len() implies #[trigger] self.strides@[k]
                == stride_of(self.shape@, k) by {
                if k < axis {
                    assert(self.strides@[k] == old(self).strides@[k]);
                    assert(ns.skip(k + 1) =~= os.skip(k + 1).insert(axis - k - 1, 1usize));
                    lemma_prod_insert_one(os.skip(k + 1), axis - k - 1);
                } else if k == axis {
                    assert(self.strides@[k] == val);
                } else {
                    assert(self.strides@[k] == old(self).strides@[k - 1]);
                    assert(ns.skip(k + 1) =~= os.skip(k));
                }
            }
        }
        Ok(())
    }

    /// Remove the length-1 axis at `axis`, adjusting strides; the buffer is
    /// untouched.
    pub fn remove_axis(&mut self, axis: usize) -> (r: Result<(), TensorError>)
        requires
            old(self).wf(),
        ensures
            final(self).wf(),
            final(self).dt == old(self).dt,
            final(self).align == old(self).align,
            final(self).elems() == old(self).elems(),
            match r {
                Ok(()) => {
                    &&& axis < old(self).shape@.len()
                    &&& old(self).shape@[axis as int] == 1
                    &&& final(self).shape@ == old(self).shape@.remove(axis as int)
                },
                Err(e) => {
                    &&& final(self).shape@ == old(self).shape@
                    &&& final(self).strides@ == old(self).strides@
                    &&& {
                        ||| (e is IndexOutOfRange && axis >= old(self).shape@.len())
                        ||| (e is ShapeMismatch && axis < old(self).shape@.len() && old(
                            self,
                        ).shape@[axis as int] != 1)
                    }
                },
            },
    {
        let rank = self.shape.len();
        if axis >= rank {
            return Err(TensorError::IndexOutOfRange);
        }
        if self.shape[axis] != 1 {
            return Err(TensorError::ShapeMismatch);
        }
        let ghost os = self.shape@;
        let ghost ns = os.remove(axis as int);
        self.shape.remove(axis);
        self.strides.remove(axis);
        proof {
            assert(self.shape@ == ns);
            lemma_prod_remove_one(os, axis as int);
            assert forall|k: int| 0 <= k < self.strides@.len() implies #[trigger] self.strides@[k]
                == stride_of(self.shape@, k) by {
                if k < axis {
                    assert(self.strides@[k] == old(self).strides@[k]);
                    assert(os.skip(k + 1)[axis - k - 1] == 1);
                    assert(ns.skip(k + 1) =~= os.skip(k + 1).remove(axis - k - 1));
                    lemma_prod_remove_one(os.skip(k + 1), axis - k - 1);
                } else {
                    assert(self.strides@[k] == old(self).strides@[k + 1]);
                    assert(ns.skip(k + 1) =~= os.skip(k + 2));
                }
            }
        }
        Ok(())
    }

    /// Left-pad the shape with length-1 axes until the given rank is
    /// reached; the buffer is untouched.
    pub fn broadcast_to_rank(&mut self, rank: usize) -> (r: Result<(), TensorError>)
        requires
            old(self).wf(),
        ensures
            final(self).wf(),
            final(self).dt == old(self).dt,
            final(self).align == old(self).align,
            final(self).elems() == old(self).elems(),
            match r {
                Ok(()) => {
                    &&& rank >= old(self).shape@.len()
                    &&& final(self).shape@ == crate::shape::padded_shape(
                        old(self).shape@,
                        rank as int,
                    )
                    &&& final(self).shape@.len() == rank
                    &&& forall|i: int|
                        0 <= i < rank - old(self).shape@.len() ==> final(self).shape@[i] == 1
                    &&& forall|i: int|
                        0 <= i < old(self).shape@.len() ==> final(self).shape@[i + rank - old(
                            self,
                        ).shape@.len()] == old(self).shape@[i]
                },
                Err(e) => {
                    &&& final(self).shape@ == old(self).shape@
                    &&& final(self).strides@ == old(self).strides@
                    &&& {
                        ||| (e is RankMismatch && rank < old(self).shape@.len())
                        ||| (e is AllocationError && rank >= old(self).shape@.len() && exists|
                            i: int,
                        |
                            0 <= i < rank && stride_of(
                                #[trigger] crate::shape::padded_shape(
                                    old(self).shape@,
                                    rank as int,
                                ),
                                i,
                            ) > isize::MAX)
                    }
                },
            },
    {
        let cur = self.shape.len();
        if rank < cur {
            return Err(TensorError::RankMismatch);
        }
        let pad = rank - cur;
        let mut ns: Vec<usize> = Vec::new();
        let mut i: usize = 0;
        while i < pad
            invariant
                i <= pad,
                ns@.len() == i,
                forall|k: int| 0 <= k < i ==> ns@[k] == 1usize,
            decreases pad - i,
        {
            ns.push(1);
            i = i + 1;
        }
        let mut j: usize = 0;
        while j < cur
            invariant
                j <= cur,
                cur == self.shape@.len(),
                *self == *old(self),
                ns@.len() == pad + j,
                forall|k: int| 0 <= k < pad ==> ns@[k] == 1usize,
                forall|k: int| 0 <= k < j ==> ns@[pad + k] == self.shape@[k],
            decreases cur - j,
        {
            ns.push(self.shape[j]);
            j = j + 1;
        }
        proof {
            assert(ns@.skip(pad as int) =~= self.shape@);
            lemma_prod_ones_prefix(ns@, pad as int);
            assert(ns@ =~= crate::shape::padded_shape(self.shape@, rank as int));
        }
        let strides = match natural_strides_checked(&ns) {
            Some(st) => st,
            None => {
                return Err(TensorError::AllocationError);
            },
        };
        self.shape = ns;
        self.strides = strides;
        Ok(())
    }

    /// Broadcast by value.
    pub fn broadcast_into_rank(self, rank: usize) -> (r: Result<Tensor, TensorError>)
        requires
            self.wf(),
        ensures
            match r {
                Ok(t) => {
                    &&& rank >= self.shape@.len()
                    &&& t.wf()
                    &&& t.dt == self.dt
                    &&& t.elems() == self.elems()
                    &&& t.shape@ == crate::shape::padded_shape(self.shape@, rank as int)
                    &&& t.shape@.len() == rank
                    &&& forall|i: int| 0 <= i < rank - self.shape@.len() ==> t.shape@[i] == 1
                    &&& forall|i: int|
                        0 <= i < self.shape@.len() ==> t.shape@[i + rank - self.shape@.len()]
                            == self.shape@[i]
                },
                Err(e) => {
                    ||| (e is RankMismatch && rank < self.shape@.len())
                    ||| (e is AllocationError && rank >= self.shape@.len() && exists|i: int|
                        0 <= i < rank && stride_of(
                            #[trigger] crate::shape::padded_shape(self.shape@, rank as int),
                            i,
                        ) > isize::MAX)
                },
            },
    {
        let mut t = self;
        t.broadcast_to_rank(rank)?;
        Ok(t)
    }
}

impl PartialEq for Tensor {
    /// Exact equality: same kind, same shape, elementwise equal values (for
    /// float kinds this is bit equality, never tolerance based).
    fn eq(&self, other: &Tensor) -> (r: bool) {
        if self.dt.storage_kind() != other.dt.storage_kind() || !same_dt(self.dt, other.dt) {
            return false;
        }
        if self.shape.len() != other.shape.len() {
            return false;
        }
        let mut i: usize = 0;
        while i < self.shape.len()
            invariant
                i <= self.shape@.len(),
                self.shape@.len() == other.shape@.len(),
                forall|k: int| 0 <= k < i ==> self.shape@[k] == other.shape@[k],
            decreases self.shape@.len() - i,
        {
            if self.shape[i] != other.shape[i] {
                return false;
            }
            i = i + 1;
        }
        proof {
            assert(self.shape@ =~= other.shape@);
        }
        let n = self.data.len();
        let m = other.data.len();
        if n != m {
            return false;
        }
        let mut j: usize = 0;
        while j < n
            invariant
                j <= n,
                n == self.elems().len(),
                n == other.elems().len(),
                forall|k: int| 0 <= k < j ==> #[trigger] self.elems()[k] == other.elems()[k],
            decreases n - j,
        {
            let a = self.data.get(j);
            let b = other.data.get(j);
            if !a.same(&b) {
                return false;
            }
            j = j + 1;
        }
        proof {
            assert(self.elems() =~= other.elems());
        }
        true
    }
}

/// Kind equality, usable from exec code.
fn same_dt(a: DatumType, b: DatumType) -> (r: bool)
    ensures
        r == (a == b),
{
    a == b
}

impl vstd::std_specs::cmp::PartialEqSpecImpl for Tensor {
    open spec fn obeys_eq_spec() -> bool {
        true
    }

    open spec fn eq_spec(&self, other: &Tensor) -> bool {
        tensor_eq(*self, *other)
    }
}

impl Default for Tensor {
    /// The default tensor: a rank-0 single-precision float zero.
    fn default() -> (r: Tensor)
        ensures
            r.wf(),
            r.dt == DatumType::F32,
            r.shape@ == Seq::<usize>::empty(),
            r.elems() == seq![ElemV::B32(0u32)],
    {
        let t = Tensor {
            dt: DatumType::F32,
            shape: Vec::new(),
            strides: Vec::new(),
            align: 4,
            data: Buffer::B32(fill_copy::<u32>(1, 0)),
        };
        proof {
            reveal_pow2_small();
            assert(prod(Seq::<usize>::empty()) == 1);
            assert(t.elems() =~= seq![ElemV::B32(0u32)]);
        }
        t
    }
}


/// The element at position `i` when the little-endian bytes `bytes` are read
/// as elements of kind `dt`.  Boolean bytes normalise to 0 or 1.
pub open spec fn le_elem(dt: DatumType, bytes: Seq<u8>, i: int) -> ElemV {
    match dt.class() {
        StorageKind::W8 => {
            if dt == DatumType::Bool {
                ElemV::B8(
                    if bytes[i] == 0 {
                        0u8
                    } else {
                        1u8
                    },
                )
            } else {
                ElemV::B8(bytes[i])
            }
        },
        StorageKind::W16 => ElemV::B16(
            (bytes[2 * i] + 0x100 * bytes[2 * i + 1]) as u16,
        ),
        StorageKind::W32 => ElemV::B32(
            (bytes[4 * i] + 0x100 * bytes[4 * i + 1] + 0x10000 * bytes[4 * i + 2] + 0x1000000
                * bytes[4 * i + 3]) as u32,
        ),
        StorageKind::W64 => ElemV::B64(
            (bytes[8 * i] + 0x100 * bytes[8 * i + 1] + 0x10000 * bytes[8 * i + 2] + 0x1000000
                * bytes[8 * i + 3] + 0x100000000 * bytes[8 * i + 4] + 0x10000000000 * bytes[8 * i
                + 5] + 0x1000000000000 * bytes[8 * i + 6] + 0x100000000000000 * bytes[8 * i + 7])
                as u64,
        ),
        _ => ElemV::B8(0),
    }
}

impl Tensor {
    /// Build a tensor of a trivially copyable kind from raw little-endian
    /// bytes, copied into a fresh buffer with the kind's natural alignment.
    pub fn from_raw_dt(dt: DatumType, shape: &Vec<usize>, content: &Vec<u8>) -> (r: Result<
        Tensor,
        TensorError,
    >)
        ensures
            match r {
                Ok(t) => {
                    &&& dt.is_copy_spec()
                    &&& content@.len() == prod(shape@) * dt.size_of_spec()
                    &&& t.wf()
                    &&& t.dt == dt
                    &&& t.shape@ == shape@
                    &&& t.align == dt.alignment_spec()
                    &&& forall|i: int|
                        0 <= i < t.elems().len() ==> #[trigger] t.elems()[i] == le_elem(
                            dt,
                            content@,
                            i,
                        )
                },
                Err(e) => {
                    ||| (e is KindMismatch && !dt.is_copy_spec())
                    ||| (e is ShapeMismatch && dt.is_copy_spec() && content@.len() != prod(shape@)
                        * dt.size_of_spec())
                    ||| (e is AllocationError && dt.is_copy_spec() && !Self::alloc_ok(
                        dt,
                        shape@,
                        dt.alignment_spec(),
                    ))
                },
            },
    {
        Self::from_raw_dt_align(dt, shape, content, dt.alignment())
    }

    /// `from_raw_dt` with an explicit alignment for the fresh buffer.
    pub fn from_raw_dt_align(dt: DatumType, shape: &Vec<usize>, content: &Vec<u8>, align: usize) -> (r:
        Result<Tensor, TensorError>)
        ensures
            match r {
                Ok(t) => {
                    &&& dt.is_copy_spec()
                    &&& content@.len() == prod(shape@) * dt.size_of_spec()
                    &&& t.wf()
                    &&& t.dt == dt
                    &&& t.shape@ == shape@
                    &&& t.align == align
                    &&& forall|i: int|
                        0 <= i < t.elems().len() ==> #[trigger] t.elems()[i] == le_elem(
                            dt,
                            content@,
                            i,
                        )
                },
                Err(e) => {
                    ||| (e is KindMismatch && !dt.is_copy_spec())
                    ||| (e is ShapeMismatch && dt.is_copy_spec() && content@.len() != prod(shape@)
                        * dt.size_of_spec())
                    ||| (e is AllocationError && dt.is_copy_spec() && !Self::alloc_ok(
                        dt,
                        shape@,
                        align,
                    ))
                },
            },
    {
        if !dt.is_copy() {
            return Err(TensorError::KindMismatch);
        }
        let mut t = match Self::uninitialized_aligned_dt(dt, shape, align) {
            Ok(t) => t,
            Err(_) => {
                return Err(TensorError::AllocationError);
            },
        };
        let n = t.data.len();
        let sz = dt.size_of();
        let ghost gbytes = content@;
        proof {
            // the byte count of the allocation fits, so n * sz does too
            assert(prod(shape@) * (dt.size_of_spec() as nat) <= usize::MAX);
        }
        if content.len() != n * sz {
            return Err(TensorError::ShapeMismatch);
        }
        let mut i: usize = 0;
        while i < n
            invariant
                i <= n,
                t.wf(),
                t.dt == dt,
                t.shape@ == shape@,
                t.align == align,
                dt.is_copy_spec(),
                n == t.elems().len(),
                sz == dt.size_of_spec(),
                gbytes == content@,
                gbytes.len() == n * sz,
                n * sz <= usize::MAX,
                forall|k: int| 0 <= k < i ==> #[trigger] t.elems()[k] == le_elem(dt, gbytes, k),
            decreases n - i,
        {
            proof {
                assert((i + 1) * sz <= n * sz) by (nonlinear_arith)
                    requires
                        i + 1 <= n,
                        sz >= 0,
                ;
                assert(i * sz + sz == (i + 1) * sz) by (nonlinear_arith);
                assert(i * sz >= 0) by (nonlinear_arith)
                    requires
                        i >= 0,
                        sz >= 0,
                ;
                assert(i * sz <= n * sz) by (nonlinear_arith)
                    requires
                        i <= n,
                        sz >= 0,
                ;
            }
            let base = i * sz;
            let e: Elem = match dt.storage_kind() {
                StorageKind::W8 => {
                    let b = content[base];
                    if dt == DatumType::Bool {
                        Elem::B8(
                            if b == 0 {
                                0
                            } else {
                                1
                            },
                        )
                    } else {
                        Elem::B8(b)
                    }
                },
                StorageKind::W16 => {
                    let v: u16 = (content[base] as u16) + 0x100 * (content[base + 1] as u16);
                    Elem::B16(v)
                },
                StorageKind::W32 => {
                    let v: u32 = (content[base] as u32) + 0x100 * (content[base + 1] as u32)
                        + 0x10000 * (content[base + 2] as u32) + 0x1000000 * (content[base
                        + 3] as u32);
                    Elem::B32(v)
                },
                StorageKind::W64 => {
                    let v: u64 = (content[base] as u64) + 0x100 * (content[base + 1] as u64)
                        + 0x10000 * (content[base + 2] as u64) + 0x1000000 * (content[base
                        + 3] as u64) + 0x100000000 * (content[base + 4] as u64) + 0x10000000000
                        * (content[base + 5] as u64) + 0x1000000000000 * (content[base
                        + 6] as u64) + 0x100000000000000 * (content[base + 7] as u64);
                    Elem::B64(v)
                },
                _ => {
                    proof {
                        assert(false);
                    }
                    Elem::B8(0)
                },
            };
            proof {
                assert(e@ == le_elem(dt, gbytes, i as int));
                assert(elem_fits(dt, e@));
            }
            t.data.set(i, e);
            i = i + 1;
        }
        Ok(t)
    }
}

impl Tensor {
    /// Relabel the tensor with another kind of the same storage class,
    /// reinterpreting the stored bits without touching them.  Only kinds
    /// that are bit-for-bit interchangeable qualify, and every element must
    /// inhabit the new kind (a boolean element must be 0 or 1).
    pub fn set_datum_type(&mut self, dt: DatumType) -> (r: Result<(), TensorError>)
        requires
            old(self).wf(),
        ensures
            final(self).wf(),
            final(self).shape@ == old(self).shape@,
            final(self).strides@ == old(self).strides@,
            final(self).align == old(self).align,
            final(self).elems() == old(self).elems(),
            match r {
                Ok(()) => {
                    &&& dt.class() == old(self).dt.class()
                    &&& forall|i: int|
                        0 <= i < old(self).elems().len() ==> elem_fits(
                            dt,
                            #[trigger] old(self).elems()[i],
                        )
                    &&& final(self).dt == dt
                },
                Err(e) => {
                    &&& final(self).dt == old(self).dt
                    &&& e is KindMismatch
                    &&& !{
                        &&& dt.class() == old(self).dt.class()
                        &&& forall|i: int|
                            0 <= i < old(self).elems().len() ==> elem_fits(
                                dt,
                                #[trigger] old(self).elems()[i],
                            )
                    }
                },
            },
    {
        if dt.storage_kind() != self.dt.storage_kind() {
            return Err(TensorError::KindMismatch);
        }
        if dt == DatumType::Bool {
            let n = self.data.len();
            let mut i: usize = 0;
            while i < n
                invariant
                    i <= n,
                    *self == *old(self),
                    self.wf(),
                    n == self.elems().len(),
                    dt.class() == self.dt.class(),
                    dt == DatumType::Bool,
                    forall|k: int| 0 <= k < i ==> elem_fits(dt, #[trigger] self.elems()[k]),
                decreases n - i,
            {
                let e = self.data.get(i);
                if !e.fits(dt) {
                    return Err(TensorError::KindMismatch);
                }
                i = i + 1;
            }
        }
        proof {
            assert forall|i: int| 0 <= i < self.elems().len() implies elem_fits(
                dt,
                #[trigger] self.elems()[i],
            ) by {
                self.data.lemma_classes();
            }
        }
        self.dt = dt;
        Ok(())
    }
}

impl Buffer {
    /// A deep copy of the buffer: same class, same element values.
    pub fn dup(&self) -> (r: Buffer)
        ensures
            r.class() == self.class(),
            r.view() == self.view(),
    {
        let n = self.len();
        let mut r = match self {
            Buffer::B8(_) => Buffer::B8(Vec::new()),
            Buffer::B16(_) => Buffer::B16(Vec::new()),
            Buffer::B32(_) => Buffer::B32(Vec::new()),
            Buffer::B64(_) => Buffer::B64(Vec::new()),
            Buffer::Dim(_) => Buffer::Dim(Vec::new()),
            Buffer::Text(_) => Buffer::Text(Vec::new()),
            Buffer::Bytes(_) => Buffer::Bytes(Vec::new()),
        };
        proof {
            assert(r.view() =~= Seq::<ElemV>::empty());
        }
        let mut i: usize = 0;
        while i < n
            invariant
                i <= n,
                n == self.view().len(),
                r.class() == self.class(),
                r.view() =~= self.view().take(i as int),
            decreases n - i,
        {
            let e = self.get(i);
            r.push_elem(e);
            proof {
                assert(r.view() =~= self.view().take(i as int + 1));
            }
            i = i + 1;
        }
        proof {
            assert(r.view() =~= self.view());
        }
        r
    }

    /// Append one element of the buffer's own class.
    fn push_elem(&mut self, e: Elem)
        requires
            class_of_elem(e@) == old(self).class(),
        ensures
            final(self).class() == old(self).class(),
            final(self).view() == old(self).view().push(e@),
    {
        match self {
            Buffer::B8(v) => {
                if let Elem::B8(x) = e {
                    v.push(x);
                    proof {
                        assert(self.view() =~= old(self).view().push(e@));
                    }
                } else {
                    proof {
                        assert(false);
                    }
                }
            },
            Buffer::B16(v) => {
                if let Elem::B16(x) = e {
                    v.push(x);
                    proof {
                        assert(self.view() =~= old(self).view().push(e@));
                    }
                } else {
                    proof {
                        assert(false);
                    }
                }
            },
            Buffer::B32(v) => {
                if let Elem::B32(x) = e {
                    v.push(x);
                    proof {
                        assert(self.view() =~= old(self).view().push(e@));
                    }
                } else {
                    proof {
                        assert(false);
                    }
                }
            },
            Buffer::B64(v) => {
                if let Elem::B64(x) = e {
                    v.push(x);
                    proof {
                        assert(self.view() =~= old(self).view().push(e@));
                    }
                } else {
                    proof {
                        assert(false);
                    }
                }
            },
            Buffer::Dim(v) => {
                if let Elem::Dim(x) = e {
                    v.push(x);
                    proof {
                        assert(self.view() =~= old(self).view().push(e@));
                    }
                } else {
                    proof {
                        assert(false);
                    }
                }
            },
            Buffer::Text(v) => {
                if let Elem::Text(x) = e {
                    v.push(x);
                    proof {
                        assert(self.view() =~= old(self).view().push(e@));
                    }
                } else {
                    proof {
                        assert(false);
                    }
                }
            },
            Buffer::Bytes(v) => {
                if let Elem::Bytes(x) = e {
                    v.push(x);
                    proof {
                        assert(self.view() =~= old(self).view().push(e@));
                    }
                } else {
                    proof {
                        assert(false);
                    }
                }
            },
        }
    }
}

impl Clone for Tensor {
    /// Cloning is always a deep copy: a fresh buffer with the same values.
    fn clone(&self) -> (r: Tensor)
        ensures
            r.dt == self.dt,
            r.shape@ == self.shape@,
            r.strides@ == self.strides@,
            r.align == self.align,
            r.elems() == self.elems(),
            tensor_eq(r, *self),
            self.wf() ==> r.wf(),
    {
        Tensor {
            dt: self.dt,
            shape: clone_vec_copy(&self.shape),
            strides: clone_vec_copy(&self.strides),
            align: self.align,
            data: self.data.dup(),
        }
    }
}

} // verus!
