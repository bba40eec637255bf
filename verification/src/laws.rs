//! The laws the tensor operations obey, stated and proved over the same
//! spec functions the operations' own contracts use.

use vstd::prelude::*;

use crate::cast::{cast_elem, elem_of_int, int_of, kind_max, kind_min, kind_mod, wrap_to};
use crate::datum::{elem_fits, DatumType, ElemV};
use crate::shape::{prod, stride_of};
use crate::tensor::{tensor_eq, Tensor};
use crate::transform::{axis_coord, reindex, stack_offset};

verus! {

/// Wrapping a value already inside an integer kind's range changes nothing.
pub proof fn lemma_wrap_identity(dt: DatumType, v: int)
    requires
        dt.is_integer_spec(),
        kind_min(dt) <= v <= kind_max(dt),
    ensures
        wrap_to(dt, v) == v,
{
    let m = kind_mod(dt);
    if v >= 0 {
        vstd::arithmetic::div_mod::lemma_small_mod(v as nat, m as nat);
        assert(v % m == v);
    } else {
        assert(v == m * (-1) + (v + m)) by (nonlinear_arith);
        vstd::arithmetic::div_mod::lemma_fundamental_div_mod_converse(v, m, -1, v + m);
        assert(v % m == v + m);
        assert(dt.is_signed_spec());
        assert(v + m > kind_max(dt));
    }
}

/// Reading the value of the element an in-range value was stored into gives
/// the value back.
pub proof fn lemma_int_elem_roundtrip(dt: DatumType, v: int)
    requires
        dt.is_integer_spec() || dt == DatumType::Bool,
        kind_min(dt) <= v <= kind_max(dt),
    ensures
        int_of(dt, elem_of_int(dt, v)) == v,
        elem_fits(dt, elem_of_int(dt, v)),
{
}

/// Storing an element's value back into its own kind gives the element
/// back.
pub proof fn lemma_elem_int_roundtrip(dt: DatumType, e: ElemV)
    requires
        dt.is_integer_spec() || dt == DatumType::Bool,
        elem_fits(dt, e),
    ensures
        elem_of_int(dt, int_of(dt, e)) == e,
        kind_min(dt) <= int_of(dt, e) <= kind_max(dt),
{
}

/// Casting an integer element to a kind of equal or greater range and back
/// restores it exactly: the round trip through the wider kind loses
/// nothing.
pub proof fn lemma_cast_round_trip(a: DatumType, b: DatumType, e: ElemV)
    requires
        a.is_integer_spec(),
        b.is_integer_spec(),
        a != b,
        kind_min(b) <= kind_min(a),
        kind_max(a) <= kind_max(b),
        elem_fits(a, e),
    ensures
        cast_elem(b, a, cast_elem(a, b, e)) == e,
{
    let v = int_of(a, e);
    lemma_elem_int_roundtrip(a, e);
    lemma_wrap_identity(b, v);
    lemma_int_elem_roundtrip(b, v);
    lemma_wrap_identity(a, v);
}

/// Reshaping preserves the element content and order, so reshaping back to
/// the original shape restores the original tensor: a tensor with the same
/// buffer and the original shape is observably the first tensor.
pub proof fn lemma_reshape_round_trip(t1: Tensor, t2: Tensor, t3: Tensor)
    requires
        t2.dt == t1.dt,
        t2.elems() == t1.elems(),
        t3.dt == t2.dt,
        t3.elems() == t2.elems(),
        t3.shape@ == t1.shape@,
    ensures
        tensor_eq(t3, t1),
{
}

/// Stacking a single tensor along its first axis gives that tensor back:
/// the stacked result of one input is observably the input.  The two
/// hypotheses mirror the `stack_tensors` contract for a one-element input
/// sequence at axis 0.
pub proof fn lemma_stack_single(t: Tensor, stacked: Tensor, ts: Seq<Tensor>)
    requires
        ts == seq![t],
        t.wf(),
        stacked.wf(),
        t.shape@.len() > 0,
        stacked.dt == t.dt,
        stacked.shape@ == t.shape@.update(0, stack_offset(ts, 0, 1) as usize),
        forall|k: int, j: int|
            0 <= k < ts.len() && 0 <= j < ts[k].elems().len() ==> stacked.elems()[
                reindex(
                    j,
                    ts[k].shape@[0] as int,
                    stack_offset(ts, 0, ts.len() as int),
                    stride_of(ts[0].shape@, 0) as int,
                    stack_offset(ts, 0, k),
                )
            ] == #[trigger] ts[k].elems()[j],
    ensures
        tensor_eq(stacked, t),
{
    assert(stack_offset(ts, 0, 0) == 0);
    assert(stack_offset(ts, 0, 1) == stack_offset(ts, 0, 0) + ts[0].shape@[0]);
    assert(stacked.shape@ =~= t.shape@) by {
        assert(t.shape@.update(0, t.shape@[0] as usize) =~= t.shape@);
    }
    let n = t.shape@[0] as int;
    let inner = stride_of(t.shape@, 0) as int;
    assert forall|j: int| 0 <= j < t.elems().len() implies stacked.elems()[j] == t.elems()[j] by {
        crate::shape::lemma_prod_pos(t.shape@);
        crate::shape::lemma_suffix_pos(t.shape@, 1);
        assert(inner >= 1);
        assert(n >= 1);
        // an offset reindexed onto the same axis dimension with no shift is
        // itself
        assert(ts[0].elems()[j] == t.elems()[j]);
        assert(stacked.elems()[reindex(j, n, n, inner, 0)] == ts[0].elems()[j]);
        assert(reindex(j, n, n, inner, 0) == j) by {
            vstd::arithmetic::div_mod::lemma_fundamental_div_mod(j, n * inner);
            assert(n * inner > 0) by (nonlinear_arith)
                requires
                    n > 0,
                    inner > 0,
            ;
            assert((j / (n * inner)) * (n * inner) + j % (n * inner) == j) by (nonlinear_arith)
                requires
                    j == (n * inner) * (j / (n * inner)) + j % (n * inner),
            ;
        }
    }
    assert(stacked.elems().len() == t.elems().len()) by {
        assert(prod(stacked.shape@) == prod(t.shape@));
    }
    assert(stacked.elems() =~= t.elems());
}

/// Assigning a tensor's own range over another of its ranges, overlapping
/// or not, gives exactly what first copying the source range to a temporary
/// buffer and then assigning from the temporary would give: every source
/// value is read from the tensor as it was before the call.  The two
/// hypotheses mirror the `assign_slice_within` contract and the
/// `assign_slice` contract with a snapshot of the tensor as the source.
pub proof fn lemma_assign_within_matches_copy(
    before: Tensor,
    after_within: Tensor,
    snapshot: Tensor,
    after_copy: Tensor,
    start: usize,
    end: usize,
    src_start: usize,
    axis: usize,
)
    requires
        // the snapshot holds the tensor's state before the call
        tensor_eq(snapshot, before),
        snapshot.shape@ == before.shape@,
        axis < before.shape@.len(),
        // what `assign_slice_within` ensures
        after_within.elems().len() == before.elems().len(),
        forall|j: int|
            0 <= j < after_within.elems().len() ==> #[trigger] after_within.elems()[j] == {
                let inner = stride_of(before.shape@, axis as int) as int;
                let n = before.shape@[axis as int] as int;
                if start <= axis_coord(j, inner, n) < end {
                    before.elems()[reindex(j, n, n, inner, src_start - start)]
                } else {
                    before.elems()[j]
                }
            },
        // what `assign_slice` from the snapshot ensures
        after_copy.elems().len() == before.elems().len(),
        forall|j: int|
            0 <= j < after_copy.elems().len() ==> #[trigger] after_copy.elems()[j] == {
                let inner = stride_of(before.shape@, axis as int) as int;
                let n = before.shape@[axis as int] as int;
                if start <= axis_coord(j, inner, n) < end {
                    snapshot.elems()[reindex(j, n, n, inner, src_start - start)]
                } else {
                    before.elems()[j]
                }
            },
    ensures
        after_within.elems() == after_copy.elems(),
{
    assert forall|j: int| 0 <= j < after_within.elems().len() implies after_within.elems()[j]
        == after_copy.elems()[j] by {
        assert(snapshot.elems() == before.elems());
    }
    assert(after_within.elems() =~= after_copy.elems());
}

} // verus!
