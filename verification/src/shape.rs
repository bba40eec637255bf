//! Shape arithmetic: element counts, the row-major stride rule, and the
//! correspondence between multi-indices and linear buffer offsets.

use vstd::prelude::*;

verus! {

/// The number of elements a shape describes: the product of its dimensions
/// (1 for the empty, rank-0 shape).
pub open spec fn prod(s: Seq<usize>) -> nat
    decreases s.len(),
{
    if s.len() == 0 {
        1
    } else {
        (s[0] as nat) * prod(s.skip(1))
    }
}

/// The natural (row-major) stride of axis `i`: the product of all later
/// dimensions.
pub open spec fn stride_of(s: Seq<usize>, i: int) -> nat {
    prod(s.skip(i + 1))
}

/// A multi-index lies inside a shape.
pub open spec fn in_bounds(s: Seq<usize>, idx: Seq<int>) -> bool {
    &&& idx.len() == s.len()
    &&& forall|i: int| 0 <= i < s.len() ==> 0 <= #[trigger] idx[i] < s[i]
}

/// The linear row-major offset of a multi-index, in Horner form.
pub open spec fn linear_of(s: Seq<usize>, idx: Seq<int>) -> int
    decreases s.len(),
{
    if s.len() == 0 {
        0
    } else {
        linear_of(s.drop_last(), idx.drop_last()) * (s.last() as int) + idx.last()
    }
}

/// Component `i` of the multi-index a linear offset decodes to.
pub open spec fn coord(s: Seq<usize>, l: int, i: int) -> int {
    (l / (stride_of(s, i) as int)) % (s[i] as int)
}

/// The multi-index a linear offset decodes to.
pub open spec fn index_of(s: Seq<usize>, l: int) -> Seq<int> {
    Seq::new(s.len(), |i: int| coord(s, l, i))
}

/// Unfolding `prod` at the front of a suffix.
pub proof fn lemma_prod_unfold(s: Seq<usize>, k: int)
    requires
        0 <= k < s.len(),
    ensures
        prod(s.skip(k)) == (s[k] as nat) * prod(s.skip(k + 1)),
{
    assert(s.skip(k).len() > 0);
    assert(s.skip(k)[0] == s[k]);
    assert(s.skip(k).skip(1) =~= s.skip(k + 1));
}

/// Appending a dimension multiplies the element count.
pub proof fn lemma_prod_push(s: Seq<usize>, d: usize)
    ensures
        prod(s.push(d)) == prod(s) * (d as nat),
    decreases s.len(),
{
    if s.len() == 0 {
        assert(s.push(d).len() == 1);
        assert(s.push(d)[0] == d);
        assert(s.push(d).skip(1) =~= Seq::<usize>::empty());
        assert(prod(Seq::<usize>::empty()) == 1);
        assert(prod(s.push(d)) == (d as nat) * 1);
        assert(prod(s) == 1);
        assert(prod(s.push(d)) == prod(s) * (d as nat)) by (nonlinear_arith)
            requires
                prod(s.push(d)) == (d as nat) * 1,
                prod(s) == 1,
        ;
    } else {
        assert(s.push(d).skip(1) =~= s.skip(1).push(d));
        lemma_prod_push(s.skip(1), d);
        assert(s.push(d)[0] == s[0]);
        assert(prod(s) == (s[0] as nat) * prod(s.skip(1)));
        assert(prod(s.push(d)) == (s[0] as nat) * (prod(s.skip(1)) * (d as nat)));
        assert((s[0] as nat) * (prod(s.skip(1)) * (d as nat)) == ((s[0] as nat) * prod(s.skip(1)))
            * (d as nat)) by (nonlinear_arith);
        assert(prod(s.push(d)) == prod(s) * (d as nat));
    }
}

/// The element count splits at any axis.
pub proof fn lemma_prod_split(s: Seq<usize>, k: int)
    requires
        0 <= k <= s.len(),
    ensures
        prod(s) == prod(s.take(k)) * prod(s.skip(k)),
    decreases k,
{
    if k == 0 {
        assert(s.take(0) =~= Seq::<usize>::empty());
        assert(s.skip(0) =~= s);
        assert(prod(Seq::<usize>::empty()) == 1);
    } else {
        lemma_prod_split(s, k - 1);
        lemma_prod_unfold(s, k - 1);
        assert(s.take(k) =~= s.take(k - 1).push(s[k - 1]));
        lemma_prod_push(s.take(k - 1), s[k - 1]);
        assert(prod(s.take(k - 1)) * ((s[k - 1] as nat) * prod(s.skip(k))) == (prod(s.take(k - 1))
            * (s[k - 1] as nat)) * prod(s.skip(k))) by (nonlinear_arith);
    }
}

/// A shape has elements exactly when every dimension is positive.
pub proof fn lemma_prod_pos(s: Seq<usize>)
    ensures
        (prod(s) > 0) <==> (forall|i: int| 0 <= i < s.len() ==> s[i] > 0),
    decreases s.len(),
{
    if s.len() == 0 {
    } else {
        lemma_prod_pos(s.skip(1));
        assert(forall|i: int| 0 <= i < s.skip(1).len() ==> #[trigger] s.skip(1)[i] == s[i + 1]);
        let h = s[0] as nat;
        let t = prod(s.skip(1));
        assert(prod(s) == h * t);
        assert(h * t > 0 <==> (h > 0 && t > 0)) by (nonlinear_arith);
        if prod(s) > 0 {
            assert forall|i: int| 0 <= i < s.len() implies s[i] > 0 by {
                if i > 0 {
                    assert(s.skip(1)[i - 1] == s[i]);
                }
            }
        }
        if forall|i: int| 0 <= i < s.len() ==> s[i] > 0 {
            assert(t > 0);
        }
    }
}

/// A multi-index inside the shape has a linear offset inside the buffer.
pub proof fn lemma_linear_bound(s: Seq<usize>, idx: Seq<int>)
    requires
        in_bounds(s, idx),
    ensures
        0 <= linear_of(s, idx) < prod(s),
    decreases s.len(),
{
    if s.len() == 0 {
    } else {
        let s0 = s.drop_last();
        let i0 = idx.drop_last();
        assert(in_bounds(s0, i0)) by {
            assert(forall|i: int| 0 <= i < s0.len() ==> #[trigger] i0[i] == idx[i]);
        }
        lemma_linear_bound(s0, i0);
        assert(s0.push(s.last()) =~= s);
        lemma_prod_push(s0, s.last());
        let p = prod(s0) as int;
        let d = s.last() as int;
        let l0 = linear_of(s0, i0);
        assert(0 <= idx.last() < d);
        assert(l0 * d + idx.last() < p * d) by (nonlinear_arith)
            requires
                0 <= l0 < p,
                0 <= idx.last() < d,
        ;
        assert(l0 * d + idx.last() >= 0) by (nonlinear_arith)
            requires
                0 <= l0,
                0 <= idx.last(),
                d > 0,
        ;
    }
}

/// Decoding a linear offset inside the buffer gives a multi-index inside the
/// shape, and encoding it again restores the offset.
pub proof fn lemma_index_of_linear(s: Seq<usize>, l: int)
    requires
        0 <= l < prod(s),
    ensures
        in_bounds(s, index_of(s, l)),
        linear_of(s, index_of(s, l)) == l,
    decreases s.len(),
{
    lemma_prod_pos(s);
    if s.len() == 0 {
        assert(index_of(s, l) =~= Seq::<int>::empty());
    } else {
        let s0 = s.drop_last();
        let d = s.last() as int;
        assert(s0.push(s.last()) =~= s);
        lemma_prod_push(s0, s.last());
        assert(forall|i: int| 0 <= i < s0.len() ==> #[trigger] s0[i] == s[i]);
        vstd::arithmetic::div_mod::lemma_fundamental_div_mod(l, d);
        let q = l / d;
        let r = l % d;
        vstd::arithmetic::div_mod::lemma_remainder_lower(l, d);
        vstd::arithmetic::div_mod::lemma_remainder_upper(l, d);
        assert(0 <= r < d);
        assert(0 <= q < prod(s0)) by (nonlinear_arith)
            requires
                l == d * q + r,
                0 <= r < d,
                0 <= l,
                l < prod(s0) * d,
        ;
        lemma_index_of_linear(s0, q);
        // each coordinate of the full shape agrees with the smaller problem
        assert forall|i: int| 0 <= i < s0.len() implies coord(s, l, i) == coord(s0, q, i) by {
            lemma_stride_drop(s, i);
            let st = stride_of(s0, i) as int;
            assert(stride_of(s, i) == st * d);
            assert(st > 0) by {
                lemma_prod_pos(s0.skip(i + 1));
                assert(forall|j: int|
                    0 <= j < s0.skip(i + 1).len() ==> #[trigger] s0.skip(i + 1)[j] == s0[i + 1
                        + j]);
            }
            // l / (st * d) == (l / d) / st, and l / d == q
            vstd::arithmetic::div_mod::lemma_div_denominator(l, d, st);
            assert(st * d == d * st) by (nonlinear_arith);
            assert(l / (st * d) == q / st);
            assert(coord(s, l, i) == (q / st) % (s[i] as int));
            assert(s0[i] == s[i]);
        }
        // the last coordinate is the remainder
        assert(coord(s, l, s.len() - 1) == r) by {
            assert(s.skip(s.len() as int) =~= Seq::<usize>::empty());
            assert(stride_of(s, s.len() - 1) == 1);
            assert(l / 1int == l) by (nonlinear_arith);
        }
        let idx = index_of(s, l);
        let idx0 = index_of(s0, q);
        assert(idx.drop_last() =~= idx0);
        assert(in_bounds(s, idx)) by {
            assert(forall|i: int|
                0 <= i < s0.len() ==> #[trigger] idx[i] == idx0[i] && 0 <= idx0[i] < s0[i]);
            assert(idx[s.len() - 1] == r);
        }
        assert(linear_of(s, idx) == linear_of(s0, idx0) * d + r);
        assert(q * d + r == d * q + r) by (nonlinear_arith);
    }
}

/// Dropping the last axis divides every earlier stride by the last dimension.
pub proof fn lemma_stride_drop(s: Seq<usize>, i: int)
    requires
        s.len() > 0,
        0 <= i < s.len() - 1,
    ensures
        stride_of(s, i) == stride_of(s.drop_last(), i) * (s.last() as nat),
{
    let s0 = s.drop_last();
    assert(s.skip(i + 1) =~= s0.skip(i + 1).push(s.last()));
    lemma_prod_push(s0.skip(i + 1), s.last());
}

/// A prefix product and a suffix product both divide a positive element
/// count, and are positive themselves.
pub proof fn lemma_suffix_pos(s: Seq<usize>, k: int)
    requires
        prod(s) > 0,
        0 <= k <= s.len(),
    ensures
        prod(s.skip(k)) >= 1,
        prod(s.take(k)) >= 1,
        prod(s.take(k)) * prod(s.skip(k)) == prod(s),
{
    lemma_prod_pos(s);
    lemma_prod_pos(s.skip(k));
    lemma_prod_pos(s.take(k));
    assert(forall|j: int| 0 <= j < s.skip(k).len() ==> #[trigger] s.skip(k)[j] == s[k + j]);
    assert(forall|j: int| 0 <= j < s.take(k).len() ==> #[trigger] s.take(k)[j] == s[j]);
    lemma_prod_split(s, k);
}

/// The element count of a shape, or `None` where it exceeds `usize`.
pub fn element_count(shape: &Vec<usize>) -> (r: Option<usize>)
    ensures
        match r {
            Some(n) => n == prod(shape@) && prod(shape@) <= usize::MAX,
            None => prod(shape@) > usize::MAX,
        },
{
    // a zero dimension makes the count zero whatever the other dimensions are
    let mut i: usize = 0;
    while i < shape.len()
        invariant
            i <= shape.len(),
            forall|j: int| 0 <= j < i ==> shape@[j] > 0,
        decreases shape.len() - i,
    {
        if shape[i] == 0 {
            proof {
                lemma_prod_pos(shape@);
            }
            return Some(0);
        }
        i = i + 1;
    }
    proof {
        lemma_prod_pos(shape@);
        assert(prod(shape@) > 0);
    }
    let mut acc: usize = 1;
    let mut k: usize = 0;
    proof {
        assert(shape@.take(0) =~= Seq::<usize>::empty());
        assert(prod(Seq::<usize>::empty()) == 1);
    }
    while k < shape.len()
        invariant
            k <= shape.len(),
            acc == prod(shape@.take(k as int)),
            prod(shape@) > 0,
        decreases shape.len() - k,
    {
        proof {
            assert(shape@.take(k as int).push(shape@[k as int]) =~= shape@.take(k as int + 1));
            lemma_prod_push(shape@.take(k as int), shape@[k as int]);
        }
        match acc.checked_mul(shape[k]) {
            Some(v) => {
                acc = v;
            },
            None => {
                proof {
                    lemma_suffix_pos(shape@, k as int + 1);
                    let a = prod(shape@.take(k as int + 1));
                    let b = prod(shape@.skip(k as int + 1));
                    assert(a * b >= a * 1) by (nonlinear_arith)
                        requires
                            b >= 1,
                            a >= 0,
                    ;
                }
                return None;
            },
        }
        k = k + 1;
    }
    proof {
        assert(shape@.take(shape@.len() as int) =~= shape@);
    }
    Some(acc)
}

/// The natural row-major strides of a shape, or `None` where one of them
/// exceeds `isize`.
pub fn natural_strides_checked(shape: &Vec<usize>) -> (r: Option<Vec<isize>>)
    ensures
        match r {
            Some(st) => {
                &&& st@.len() == shape@.len()
                &&& forall|i: int| 0 <= i < st@.len() ==> st@[i] == stride_of(shape@, i)
            },
            None => exists|i: int| 0 <= i < shape@.len() && stride_of(shape@, i) > isize::MAX,
        },
{
    let rank = shape.len();
    let mut rev: Vec<isize> = Vec::new();
    let mut acc: usize = 1;
    let mut j: usize = 0;
    // walk the axes from the last to the first; `acc` is the stride of the
    // axis about to be pushed
    proof {
        assert(shape@.skip(rank as int) =~= Seq::<usize>::empty());
        assert(prod(Seq::<usize>::empty()) == 1);
    }
    while j < rank
        invariant
            j <= rank,
            rank == shape@.len(),
            j < rank ==> acc == prod(shape@.skip(rank - j)),
            rev@.len() == j,
            forall|m: int| 0 <= m < j ==> rev@[m] == stride_of(shape@, rank - 1 - m),
        decreases rank - j,
    {
        if acc > (isize::MAX as usize) {
            proof {
                assert(stride_of(shape@, rank - j - 1) == prod(shape@.skip(rank - j)));
            }
            return None;
        }
        rev.push(acc as isize);
        if j + 1 < rank {
            // the next stride out is this one times the dimension just covered
            let d = shape[rank - 1 - j];
            proof {
                lemma_prod_unfold(shape@, rank - 1 - j);
                assert((d as nat) * (acc as nat) == (acc as nat) * (d as nat)) by (nonlinear_arith);
            }
            match acc.checked_mul(d) {
                Some(v) => {
                    acc = v;
                },
                None => {
                    proof {
                        assert(prod(shape@.skip(rank - 1 - j)) > usize::MAX);
                        assert(stride_of(shape@, rank - 2 - j) == prod(shape@.skip(rank - 1 - j)));
                    }
                    return None;
                },
            }
        }
        j = j + 1;
    }
    // reverse into axis order
    let mut st: Vec<isize> = Vec::new();
    let mut m: usize = 0;
    while m < rank
        invariant
            m <= rank,
            rank == rev@.len(),
            rank == shape@.len(),
            forall|k: int| 0 <= k < rank ==> rev@[k] == stride_of(shape@, rank - 1 - k),
            st@.len() == m,
            forall|k: int| 0 <= k < m ==> st@[k] == stride_of(shape@, k),
        decreases rank - m,
    {
        st.push(rev[rank - 1 - m]);
        m = m + 1;
    }
    Some(st)
}

/// The natural row-major strides of a shape whose strides are known to fit.
pub fn natural_strides(shape: &Vec<usize>) -> (r: Vec<isize>)
    requires
        forall|i: int| 0 <= i < shape@.len() ==> stride_of(shape@, i) <= isize::MAX,
    ensures
        r@.len() == shape@.len(),
        forall|i: int| 0 <= i < r@.len() ==> r@[i] == stride_of(shape@, i),
{
    match natural_strides_checked(shape) {
        Some(st) => st,
        None => {
            proof {
                assert(false);
            }
            vstd::pervasive::unreached()
        },
    }
}

/// Encode a multi-index as its row-major linear offset.
pub fn encode_index(shape: &Vec<usize>, idx: &Vec<usize>) -> (r: usize)
    requires
        in_bounds(shape@, idx@.map_values(|v: usize| v as int)),
        prod(shape@) <= usize::MAX,
    ensures
        r == linear_of(shape@, idx@.map_values(|v: usize| v as int)),
{
    let ghost gidx = idx@.map_values(|v: usize| v as int);
    let mut acc: usize = 0;
    let mut i: usize = 0;
    proof {
        assert forall|k: int| 0 <= k < shape@.len() implies shape@[k] > 0 by {
            assert(0 <= gidx[k] < shape@[k]);
        }
        lemma_prod_pos(shape@);
        assert(shape@.take(0) =~= Seq::<usize>::empty());
        assert(gidx.take(0) =~= Seq::<int>::empty());
        assert(prod(Seq::<usize>::empty()) == 1);
    }
    while i < shape.len()
        invariant
            i <= shape.len(),
            idx@.len() == shape@.len(),
            gidx == idx@.map_values(|v: usize| v as int),
            in_bounds(shape@, gidx),
            prod(shape@) <= usize::MAX,
            prod(shape@) > 0,
            acc == linear_of(shape@.take(i as int), gidx.take(i as int)),
            acc < prod(shape@.take(i as int)),
        decreases shape.len() - i,
    {
        proof {
            let gi = i as int;
            assert(shape@.take(gi + 1).drop_last() =~= shape@.take(gi));
            assert(gidx.take(gi + 1).drop_last() =~= gidx.take(gi));
            assert(shape@.take(gi).push(shape@[gi]) =~= shape@.take(gi + 1));
            lemma_prod_push(shape@.take(gi), shape@[gi]);
            // the new partial offset stays under the partial product
            let p = prod(shape@.take(gi)) as int;
            let d = shape@[gi] as int;
            assert(0 <= gidx[gi] < d);
            assert((acc as int) * d + gidx[gi] < p * d) by (nonlinear_arith)
                requires
                    0 <= acc < p,
                    0 <= gidx[gi] < d,
            ;
            assert((acc as int) * d >= 0) by (nonlinear_arith)
                requires
                    acc >= 0,
                    d >= 0,
            ;
            // the partial product never exceeds the full element count
            lemma_suffix_pos(shape@, gi + 1);
            let a = prod(shape@.take(gi + 1));
            let b = prod(shape@.skip(gi + 1));
            assert(a * b >= a * 1) by (nonlinear_arith)
                requires
                    b >= 1,
                    a >= 0,
            ;
            assert(gidx.take(gi + 1).last() == gidx[gi]);
            assert(shape@.take(gi + 1).last() == shape@[gi]);
        }
        acc = acc * shape[i] + idx[i];
        i = i + 1;
    }
    proof {
        assert(shape@.take(shape@.len() as int) =~= shape@);
        assert(gidx.take(shape@.len() as int) =~= gidx);
    }
    acc
}

/// Decode a linear offset into its row-major multi-index.
pub fn decode_index(shape: &Vec<usize>, strides: &Vec<isize>, l: usize) -> (r: Vec<usize>)
    requires
        strides@.len() == shape@.len(),
        forall|i: int| 0 <= i < strides@.len() ==> strides@[i] == stride_of(shape@, i),
        l < prod(shape@),
    ensures
        r@.map_values(|v: usize| v as int) == index_of(shape@, l as int),
        in_bounds(shape@, r@.map_values(|v: usize| v as int)),
{
    proof {
        lemma_prod_pos(shape@);
        lemma_index_of_linear(shape@, l as int);
    }
    let mut idx: Vec<usize> = Vec::new();
    let mut i: usize = 0;
    while i < shape.len()
        invariant
            i <= shape.len(),
            strides@.len() == shape@.len(),
            forall|k: int| 0 <= k < strides@.len() ==> strides@[k] == stride_of(shape@, k),
            l < prod(shape@),
            prod(shape@) > 0,
            idx@.len() == i,
            forall|k: int| 0 <= k < i ==> idx@[k] == coord(shape@, l as int, k),
            in_bounds(shape@, index_of(shape@, l as int)),
        decreases shape.len() - i,
    {
        proof {
            let gi = i as int;
            // the stride at axis i is positive and fits a usize
            lemma_suffix_pos(shape@, gi + 1);
            assert(stride_of(shape@, gi) >= 1);
            let a = prod(shape@.take(gi + 1));
            let b = prod(shape@.skip(gi + 1));
            assert(a * b >= 1 * b) by (nonlinear_arith)
                requires
                    a >= 1,
                    b >= 0,
            ;
            // the decoded coordinate is the one the spec names
            assert(index_of(shape@, l as int)[gi] == coord(shape@, l as int, gi));
            assert(0 <= coord(shape@, l as int, gi) < shape@[gi]);
        }
        let st = strides[i] as usize;
        let c = (l / st) % shape[i];
        proof {
            assert(c == coord(shape@, l as int, i as int));
        }
        idx.push(c);
        i = i + 1;
    }
    proof {
        assert(idx@.map_values(|v: usize| v as int) =~= index_of(shape@, l as int));
    }
    idx
}

/// Inserting a length-1 axis keeps the element count.
pub proof fn lemma_prod_insert_one(s: Seq<usize>, i: int)
    requires
        0 <= i <= s.len(),
    ensures
        prod(s.insert(i, 1usize)) == prod(s),
{
    let t = s.insert(i, 1usize);
    lemma_prod_split(s, i);
    lemma_prod_split(t, i);
    assert(t.take(i) =~= s.take(i));
    assert(t.skip(i).len() > 0);
    assert(t.skip(i)[0] == 1usize);
    lemma_prod_unfold(t, i);
    assert(t.skip(i + 1) =~= s.skip(i));
    assert(prod(t.skip(i)) == 1 * prod(s.skip(i)));
}

/// Removing a length-1 axis keeps the element count.
pub proof fn lemma_prod_remove_one(s: Seq<usize>, i: int)
    requires
        0 <= i < s.len(),
        s[i] == 1,
    ensures
        prod(s.remove(i)) == prod(s),
{
    let t = s.remove(i);
    lemma_prod_split(s, i);
    lemma_prod_split(t, i);
    assert(t.take(i) =~= s.take(i));
    lemma_prod_unfold(s, i);
    assert(t.skip(i) =~= s.skip(i + 1));
    assert(prod(s.skip(i)) == 1 * prod(s.skip(i + 1)));
}

/// A shape left-padded with length-1 axes up to the given rank.
pub open spec fn padded_shape(s: Seq<usize>, rank: int) -> Seq<usize>
    recommends
        rank >= s.len(),
{
    Seq::new(
        rank as nat,
        |i: int|
            if i < rank - s.len() {
                1usize
            } else {
                s[i - (rank - s.len())]
            },
    )
}

/// A run of leading 1 dimensions does not change the element count.
pub proof fn lemma_prod_ones_prefix(t: Seq<usize>, k: int)
    requires
        0 <= k <= t.len(),
        forall|i: int| 0 <= i < k ==> t[i] == 1,
    ensures
        prod(t) == prod(t.skip(k)),
    decreases k,
{
    if k == 0 {
        assert(t.skip(0) =~= t);
    } else {
        lemma_prod_unfold(t, 0);
        assert(t.skip(0) =~= t);
        assert(prod(t) == 1 * prod(t.skip(1)));
        assert(t.skip(1).skip(k - 1) =~= t.skip(k));
        assert(forall|i: int| 0 <= i < k - 1 ==> #[trigger] t.skip(1)[i] == t[i + 1]);
        lemma_prod_ones_prefix(t.skip(1), k - 1);
    }
}

/// Dropping the last axis turns a coordinate of `l` into the same
/// coordinate of `l` divided by the last dimension.
proof fn lemma_coord_drop(s: Seq<usize>, l: int, i: int)
    requires
        s.len() > 0,
        0 <= i < s.len() - 1,
        0 <= l,
        forall|k: int| 0 <= k < s.len() ==> s[k] > 0,
    ensures
        coord(s, l, i) == coord(s.drop_last(), l / (s.last() as int), i),
{
    let s0 = s.drop_last();
    let d = s.last() as int;
    lemma_stride_drop(s, i);
    let st = stride_of(s0, i) as int;
    assert(stride_of(s, i) == st * d);
    assert(st > 0) by {
        lemma_prod_pos(s0.skip(i + 1));
        assert(forall|j: int|
            0 <= j < s0.skip(i + 1).len() ==> #[trigger] s0.skip(i + 1)[j] == s[i + 1 + j]);
    }
    vstd::arithmetic::div_mod::lemma_div_denominator(l, d, st);
    assert(st * d == d * st) by (nonlinear_arith);
    assert(l / (st * d) == (l / d) / st);
    assert(s0[i] == s[i]);
}

/// Encoding a multi-index and decoding the offset restores the index.
pub proof fn lemma_linear_of_index(s: Seq<usize>, idx: Seq<int>)
    requires
        in_bounds(s, idx),
    ensures
        index_of(s, linear_of(s, idx)) == idx,
    decreases s.len(),
{
    lemma_linear_bound(s, idx);
    if s.len() == 0 {
        assert(index_of(s, linear_of(s, idx)) =~= idx);
    } else {
        let s0 = s.drop_last();
        let i0 = idx.drop_last();
        let d = s.last() as int;
        assert(in_bounds(s0, i0)) by {
            assert(forall|i: int| 0 <= i < s0.len() ==> #[trigger] i0[i] == idx[i]);
        }
        lemma_linear_bound(s0, i0);
        lemma_linear_of_index(s0, i0);
        let l0 = linear_of(s0, i0);
        let l = linear_of(s, idx);
        assert(l == l0 * d + idx.last());
        vstd::arithmetic::div_mod::lemma_fundamental_div_mod_converse(l, d, l0, idx.last());
        assert(l / d == l0 && l % d == idx.last());
        assert forall|k: int| 0 <= k < s.len() implies s[k] > 0 by {
            assert(0 <= idx[k] < s[k]);
        }
        assert forall|i: int| 0 <= i < s.len() implies index_of(s, l)[i] == idx[i] by {
            if i < s.len() - 1 {
                lemma_coord_drop(s, l, i);
                assert(coord(s, l, i) == coord(s0, l0, i));
                assert(index_of(s0, l0)[i] == coord(s0, l0, i));
                assert(index_of(s0, l0)[i] == i0[i]);
                assert(i0[i] == idx[i]);
            } else {
                assert(s.skip(s.len() as int) =~= Seq::<usize>::empty());
                assert(prod(Seq::<usize>::empty()) == 1);
                assert(stride_of(s, s.len() - 1) == 1);
                assert(l / 1int == l) by (nonlinear_arith);
                assert(coord(s, l, i) == l % d);
            }
        }
        assert(index_of(s, l) =~= idx);
    }
}

} // verus!