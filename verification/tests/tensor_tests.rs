use tensor_core::cast::TensorCow;
use tensor_core::datum::{DatumType, Elem, TDim};
use tensor_core::error::TensorError;
use tensor_core::shape::{element_count, natural_strides_checked};
use tensor_core::tensor::Tensor;

fn t_i32(shape: &[usize], vals: &[i32]) -> Tensor {
    let sh: Vec<usize> = shape.to_vec();
    let elems: Vec<Elem> = vals.iter().map(|v| Elem::B32(*v as u32)).collect();
    Tensor::from_elems(DatumType::I32, &sh, elems).unwrap()
}

fn t_i8(shape: &[usize], vals: &[i8]) -> Tensor {
    let sh: Vec<usize> = shape.to_vec();
    let elems: Vec<Elem> = vals.iter().map(|v| Elem::B8(*v as u8)).collect();
    Tensor::from_elems(DatumType::I8, &sh, elems).unwrap()
}

fn t_f32(shape: &[usize], vals: &[f32]) -> Tensor {
    let sh: Vec<usize> = shape.to_vec();
    let elems: Vec<Elem> = vals.iter().map(|v| Elem::B32(v.to_bits())).collect();
    Tensor::from_elems(DatumType::F32, &sh, elems).unwrap()
}

fn t_str(shape: &[usize], vals: &[&str]) -> Tensor {
    let sh: Vec<usize> = shape.to_vec();
    let elems: Vec<Elem> = vals.iter().map(|v| Elem::Text(v.to_string())).collect();
    Tensor::from_elems(DatumType::Utf8, &sh, elems).unwrap()
}

fn i32_at(t: &Tensor, idx: &[usize]) -> i32 {
    match t.get_at(&idx.to_vec()).unwrap() {
        Elem::B32(b) => b as i32,
        _ => panic!("not a 32-bit element"),
    }
}

fn i32_lin(t: &Tensor, i: usize) -> i32 {
    match t.get_elem(i).unwrap() {
        Elem::B32(b) => b as i32,
        _ => panic!("not a 32-bit element"),
    }
}

#[test]
fn uninitialized_written_then_cloned_roundtrips() {
    // staged construction, fully written, then deep cloned
    let sh: Vec<usize> = vec![2, 2];
    let mut t = Tensor::uninitialized_dt(DatumType::I32, &sh).unwrap();
    for i in 0..4usize {
        t.set_elem(i, Elem::B32((10 + i) as u32)).unwrap();
    }
    let c = t.deep_clone();
    assert!(c == t);
    assert_eq!(i32_lin(&c, 3), 13);

    // the same for an owned-element kind
    let sh1: Vec<usize> = vec![2];
    let mut s = Tensor::uninitialized_dt(DatumType::Utf8, &sh1).unwrap();
    s.set_elem(0, Elem::Text("ab".to_string())).unwrap();
    s.set_elem(1, Elem::Text("cd".to_string())).unwrap();
    let sc = s.deep_clone();
    assert!(sc == s);
}

#[test]
fn identity_cast_is_borrowed() {
    let t = t_i32(&[2], &[5, 6]);
    match t.cast_to_dt(DatumType::I32).unwrap() {
        TensorCow::Borrowed(b) => assert!(*b == t),
        TensorCow::Owned(_) => panic!("identity cast allocated"),
    }
    // a float tensor too: no value interpretation is needed
    let f = t_f32(&[1], &[1.5]);
    assert!(matches!(f.cast_to_dt(DatumType::F32).unwrap(), TensorCow::Borrowed(_)));
}

#[test]
fn integer_casts_round_trip_through_wider_kind() {
    let t = t_i8(&[3], &[-5, 0, 7]);
    let wide = t.cast_to_dt(DatumType::I64).unwrap().into_owned();
    let back = wide.cast_to_dt(DatumType::I8).unwrap().into_owned();
    assert!(back == t);

    let u = Tensor::from_elems(
        DatumType::U8,
        &vec![2],
        vec![Elem::B8(255), Elem::B8(1)],
    )
    .unwrap();
    let wide = u.cast_to_dt(DatumType::U16).unwrap().into_owned();
    let back = wide.cast_to_dt(DatumType::U8).unwrap().into_owned();
    assert!(back == u);
}

#[test]
fn narrowing_cast_wraps() {
    let t = t_i32(&[2], &[300, -1]);
    let u8s = t.cast_to_dt(DatumType::U8).unwrap().into_owned();
    match u8s.get_elem(0).unwrap() {
        Elem::B8(b) => assert_eq!(b, 44),
        _ => panic!(),
    }
    match u8s.get_elem(1).unwrap() {
        Elem::B8(b) => assert_eq!(b, 255),
        _ => panic!(),
    }
}

#[test]
fn reshape_preserves_content_and_roundtrips() {
    let t = t_i32(&[2, 3], &[1, 2, 3, 4, 5, 6]);
    let orig = t.deep_clone();
    let r = t.into_shape(&vec![3, 2]).unwrap();
    for i in 0..6usize {
        assert_eq!(i32_lin(&r, i), (i + 1) as i32);
    }
    let back = r.into_shape(&vec![2, 3]).unwrap();
    assert!(back == orig);
}

#[test]
fn reshape_wrong_count_fails() {
    let mut t = t_i32(&[2, 3], &[1, 2, 3, 4, 5, 6]);
    let e = t.set_shape(&vec![4, 2]).unwrap_err();
    assert!(matches!(e, TensorError::ShapeMismatch));
    // the tensor is untouched
    assert_eq!(t.shape().as_slice(), &[2, 3]);
}

#[test]
fn stacking_single_tensor_is_identity() {
    let t = t_i32(&[2, 2], &[1, 2, 3, 4]);
    let s = Tensor::stack_tensors(0, &vec![t.deep_clone()]).unwrap();
    assert!(s == t);
}

#[test]
fn stacking_two_int32_tensors_along_axis_one() {
    let a = t_i32(&[2, 2], &[1, 2, 3, 4]);
    let b = t_i32(&[2, 2], &[5, 6, 7, 8]);
    let s = Tensor::stack_tensors(1, &vec![a, b]).unwrap();
    assert_eq!(s.shape().as_slice(), &[2, 4]);
    // row r of the result is row r of the first then row r of the second
    assert_eq!(i32_at(&s, &[0, 0]), 1);
    assert_eq!(i32_at(&s, &[0, 1]), 2);
    assert_eq!(i32_at(&s, &[0, 2]), 5);
    assert_eq!(i32_at(&s, &[0, 3]), 6);
    assert_eq!(i32_at(&s, &[1, 0]), 3);
    assert_eq!(i32_at(&s, &[1, 1]), 4);
    assert_eq!(i32_at(&s, &[1, 2]), 7);
    assert_eq!(i32_at(&s, &[1, 3]), 8);
}

#[test]
fn stacking_mixed_kinds_fails() {
    let a = t_i32(&[2], &[1, 2]);
    let b = t_i8(&[2], &[1, 2]);
    let e = Tensor::stack_tensors(0, &vec![a, b]).unwrap_err();
    assert!(matches!(e, TensorError::KindMismatch));
}

#[test]
fn assign_slice_within_overlapping_matches_temp_copy() {
    // in-place overlapping assignment equals copying to a temporary first
    let vals = [1, 2, 3, 4, 5];
    let mut a = t_i32(&[5], &vals);
    let orig = a.deep_clone();
    a.assign_slice_within(1, 4, 0, 3, 0).unwrap();

    let mut b = t_i32(&[5], &vals);
    let tmp = orig.deep_clone();
    b.assign_slice(1, 4, &tmp, 0, 3, 0).unwrap();

    assert!(a == b);
    let expect = [1, 1, 2, 3, 5];
    for (i, v) in expect.iter().enumerate() {
        assert_eq!(i32_lin(&a, i), *v);
    }
}

#[test]
fn assign_slice_checks_preconditions() {
    let mut a = t_i32(&[2, 2], &[1, 2, 3, 4]);
    let b = t_i8(&[2, 2], &[1, 2, 3, 4]);
    assert!(matches!(
        a.assign_slice(0, 1, &b, 0, 1, 0).unwrap_err(),
        TensorError::KindMismatch
    ));
    let c = t_i32(&[2, 2], &[1, 2, 3, 4]);
    assert!(matches!(
        a.assign_slice(0, 1, &c, 0, 2, 0).unwrap_err(),
        TensorError::ShapeMismatch
    ));
    assert!(matches!(
        a.assign_slice(0, 3, &c, 0, 3, 0).unwrap_err(),
        TensorError::IndexOutOfRange
    ));
}

#[test]
fn permute_axes_transposes_a_float_matrix() {
    // shape [2,3] filled with 1..=6
    let t = t_f32(&[2, 3], &[1.0, 2.0, 3.0, 4.0, 5.0, 6.0]);
    let orig = t.deep_clone();
    let p = t.permute_axes(&vec![1, 0]).unwrap();
    assert_eq!(p.shape().as_slice(), &[3, 2]);
    for i in 0..3usize {
        for j in 0..2usize {
            let a = match p.get_at(&vec![i, j]).unwrap() {
                Elem::B32(b) => f32::from_bits(b),
                _ => panic!(),
            };
            let b = match orig.get_at(&vec![j, i]).unwrap() {
                Elem::B32(b) => f32::from_bits(b),
                _ => panic!(),
            };
            assert_eq!(a, b);
        }
    }
}

#[test]
fn permute_axes_rejects_non_permutations() {
    let t = t_i32(&[2, 3], &[1, 2, 3, 4, 5, 6]);
    assert!(matches!(
        t.deep_clone().permute_axes(&vec![0, 0]).unwrap_err(),
        TensorError::ShapeMismatch
    ));
    assert!(matches!(
        t.deep_clone().permute_axes(&vec![0, 2]).unwrap_err(),
        TensorError::ShapeMismatch
    ));
    assert!(matches!(
        t.permute_axes(&vec![0]).unwrap_err(),
        TensorError::ShapeMismatch
    ));
}

#[test]
fn casting_strings_to_int32() {
    let t = t_str(&[2], &["3", "4"]);
    let c = t.cast_to_dt(DatumType::I32).unwrap().into_owned();
    assert_eq!(i32_lin(&c, 0), 3);
    assert_eq!(i32_lin(&c, 1), 4);

    let bad = t_str(&[1], &["x"]);
    match bad.cast_to_dt(DatumType::I32).unwrap_err() {
        TensorError::ParseError(s) => assert_eq!(s, "x"),
        e => panic!("wrong error {:?}", e),
    }
}

#[test]
fn casting_string_edge_values() {
    let t = t_str(&[3], &["-128", "+5", "127"]);
    let c = t.cast_to_dt(DatumType::I8).unwrap().into_owned();
    match c.get_elem(0).unwrap() {
        Elem::B8(b) => assert_eq!(b as i8, -128),
        _ => panic!(),
    }
    match c.get_elem(1).unwrap() {
        Elem::B8(b) => assert_eq!(b as i8, 5),
        _ => panic!(),
    }
    match c.get_elem(2).unwrap() {
        Elem::B8(b) => assert_eq!(b as i8, 127),
        _ => panic!(),
    }
    let over = t_str(&[1], &["128"]);
    assert!(matches!(
        over.cast_to_dt(DatumType::I8).unwrap_err(),
        TensorError::ParseError(_)
    ));
    let over32 = t_str(&[1], &["2147483648"]);
    assert!(matches!(
        over32.cast_to_dt(DatumType::I32).unwrap_err(),
        TensorError::ParseError(_)
    ));
}

#[test]
fn casting_ints_to_string_and_back() {
    let t = t_i32(&[2], &[-7, 42]);
    let s = t.cast_to_dt(DatumType::Utf8).unwrap().into_owned();
    match s.get_elem(0).unwrap() {
        Elem::Text(x) => assert_eq!(x, "-7"),
        _ => panic!(),
    }
    match s.get_elem(1).unwrap() {
        Elem::Text(x) => assert_eq!(x, "42"),
        _ => panic!(),
    }
    let back = s.cast_to_dt(DatumType::I32).unwrap().into_owned();
    assert!(back == t);
}

#[test]
fn casting_bools_and_tdims() {
    let b = Tensor::from_elems(DatumType::Bool, &vec![2], vec![Elem::B8(1), Elem::B8(0)]).unwrap();
    let ints = b.cast_to_dt(DatumType::I32).unwrap().into_owned();
    assert_eq!(i32_lin(&ints, 0), 1);
    assert_eq!(i32_lin(&ints, 1), 0);

    let back = ints.cast_to_dt(DatumType::Bool).unwrap().into_owned();
    assert!(back == b);

    let d = Tensor::from_elems(DatumType::TDim, &vec![1], vec![Elem::Dim(TDim::Val(5))]).unwrap();
    let i = d.cast_to_dt(DatumType::I64).unwrap().into_owned();
    match i.get_elem(0).unwrap() {
        Elem::B64(v) => assert_eq!(v, 5),
        _ => panic!(),
    }
    let names = d.cast_to_dt(DatumType::Utf8).unwrap().into_owned();
    match names.get_elem(0).unwrap() {
        Elem::Text(s) => assert_eq!(s, "5"),
        _ => panic!(),
    }

    let sym =
        Tensor::from_elems(DatumType::TDim, &vec![1], vec![Elem::Dim(TDim::Sym(3))]).unwrap();
    assert!(matches!(
        sym.cast_to_dt(DatumType::I32).unwrap_err(),
        TensorError::UnresolvedDimension
    ));
    match sym.cast_to_dt(DatumType::Utf8).unwrap().into_owned().get_elem(0).unwrap() {
        Elem::Text(s) => assert_eq!(s, "S3"),
        _ => panic!(),
    }

    let ints_to_dim = ints.cast_to_dt(DatumType::TDim).unwrap().into_owned();
    match ints_to_dim.get_elem(0).unwrap() {
        Elem::Dim(TDim::Val(v)) => assert_eq!(v, 1),
        _ => panic!(),
    }
}

#[test]
fn unsupported_casts_are_reported() {
    let t = t_i32(&[1], &[1]);
    assert!(matches!(
        t.cast_to_dt(DatumType::Blob).unwrap_err(),
        TensorError::UnsupportedCast
    ));
    // float values are carried as bits only; no rule interprets them
    let f = t_f32(&[1], &[1.0]);
    assert!(matches!(
        f.cast_to_dt(DatumType::I32).unwrap_err(),
        TensorError::UnsupportedCast
    ));
}

#[test]
fn slicing_an_int8_vector() {
    let t = t_i8(&[5], &[1, 2, 3, 4, 5]);
    let s = t.slice(0, 2, 5).unwrap();
    assert_eq!(s.shape().as_slice(), &[3]);
    for (i, v) in [3i8, 4, 5].iter().enumerate() {
        match s.get_elem(i).unwrap() {
            Elem::B8(b) => assert_eq!(b as i8, *v),
            _ => panic!(),
        }
    }
    assert!(matches!(
        t.slice(0, 2, 6).unwrap_err(),
        TensorError::IndexOutOfRange
    ));
    assert!(matches!(
        t.slice(1, 0, 1).unwrap_err(),
        TensorError::IndexOutOfRange
    ));
}

#[test]
fn zero_fills_and_rejects_non_numbers() {
    let z = Tensor::zero_dt(DatumType::U16, &vec![2, 2]).unwrap();
    for i in 0..4usize {
        match z.get_elem(i).unwrap() {
            Elem::B16(v) => assert_eq!(v, 0),
            _ => panic!(),
        }
    }
    // a float kind zero-fills too: the zero bit pattern is float zero
    let zf = Tensor::zero_dt(DatumType::F64, &vec![1]).unwrap();
    match zf.get_elem(0).unwrap() {
        Elem::B64(v) => assert_eq!(f64::from_bits(v), 0.0),
        _ => panic!(),
    }
    assert!(matches!(
        Tensor::zero_dt(DatumType::Utf8, &vec![1]).unwrap_err(),
        TensorError::KindMismatch
    ));
}

#[test]
fn from_raw_reads_little_endian() {
    let bytes: Vec<u8> = vec![1, 0, 0, 1];
    let t = Tensor::from_raw_dt(DatumType::U16, &vec![2], &bytes).unwrap();
    match t.get_elem(0).unwrap() {
        Elem::B16(v) => assert_eq!(v, 1),
        _ => panic!(),
    }
    match t.get_elem(1).unwrap() {
        Elem::B16(v) => assert_eq!(v, 256),
        _ => panic!(),
    }
    // wrong byte count
    assert!(matches!(
        Tensor::from_raw_dt(DatumType::U16, &vec![2], &vec![1, 0, 0]).unwrap_err(),
        TensorError::ShapeMismatch
    ));
    // owned kinds cannot be built from raw bytes
    assert!(matches!(
        Tensor::from_raw_dt(DatumType::Utf8, &vec![1], &vec![0u8; 24]).unwrap_err(),
        TensorError::KindMismatch
    ));
}

#[test]
fn axis_insert_remove_and_broadcast() {
    let mut t = t_i32(&[2, 3], &[1, 2, 3, 4, 5, 6]);
    t.insert_axis(1).unwrap();
    assert_eq!(t.shape().as_slice(), &[2, 1, 3]);
    assert_eq!(t.strides().as_slice(), &[3, 3, 1]);
    t.remove_axis(1).unwrap();
    assert_eq!(t.shape().as_slice(), &[2, 3]);
    assert_eq!(t.strides().as_slice(), &[3, 1]);
    assert!(matches!(
        t.remove_axis(0).unwrap_err(),
        TensorError::ShapeMismatch
    ));
    let b = t.broadcast_into_rank(4).unwrap();
    assert_eq!(b.shape().as_slice(), &[1, 1, 2, 3]);
    assert_eq!(i32_at(&b, &[0, 0, 1, 2]), 6);
    assert!(matches!(
        b.broadcast_into_rank(2).unwrap_err(),
        TensorError::RankMismatch
    ));
}

#[test]
fn broadcast_scalar_and_nth_and_uniform() {
    let s = t_i32(&[], &[9]);
    let b = s.broadcast_scalar_to_shape(&vec![2, 2]).unwrap();
    assert_eq!(b.shape().as_slice(), &[2, 2]);
    assert!(b.is_uniform().unwrap());
    assert_eq!(i32_at(&b, &[1, 1]), 9);

    let t = t_i32(&[3], &[7, 8, 7]);
    assert!(!t.is_uniform().unwrap());
    let n = t.nth(1).unwrap();
    assert_eq!(n.rank(), 0);
    assert_eq!(i32_lin(&n, 0), 8);
    assert!(matches!(t.nth(3).unwrap_err(), TensorError::IndexOutOfRange));
    assert!(matches!(
        t.broadcast_scalar_to_shape(&vec![2]).unwrap_err(),
        TensorError::RankMismatch
    ));
}

#[test]
fn cast_to_scalar_requires_rank_zero() {
    let s = t_i32(&[], &[41]);
    match s.cast_to_scalar(DatumType::I64).unwrap() {
        Elem::B64(v) => assert_eq!(v as i64, 41),
        _ => panic!(),
    }
    let t = t_i32(&[2], &[1, 2]);
    assert!(matches!(
        t.cast_to_scalar(DatumType::I64).unwrap_err(),
        TensorError::RankMismatch
    ));
}

#[test]
fn dump_renders_and_truncates() {
    let t = t_i32(&[2, 3], &[1, 2, 3, 4, 5, 6]);
    assert_eq!(t.dump(false).unwrap(), "2x3,I32 1, 2, 3, 4, 5, 6");
    let vals: Vec<i32> = (1..=13).collect();
    let big = t_i32(&[13], &vals);
    let d = big.dump(false).unwrap();
    assert_eq!(d, "13,I32 1, 2, 3, 4, 5, 6, 7, 8, 9, 10, 11, 12...");
    let full = big.dump(true).unwrap();
    assert!(full.ends_with("13"));
    // float bits have no defined textual form here
    let f = t_f32(&[1], &[1.0]);
    assert!(matches!(f.dump(false).unwrap_err(), TensorError::UnsupportedCast));
}

#[test]
fn strides_and_element_count() {
    let st = natural_strides_checked(&vec![2, 3, 4]).unwrap();
    assert_eq!(st.as_slice(), &[12isize, 4, 1]);
    assert_eq!(element_count(&vec![2, 3, 4]).unwrap(), 24);
    assert_eq!(element_count(&vec![5, 0, 7]).unwrap(), 0);
    assert!(element_count(&vec![usize::MAX, 2]).is_none());
}

#[test]
fn views_anchor_at_prefixes() {
    let t = t_i32(&[2, 3], &[1, 2, 3, 4, 5, 6]);
    let v = t.view_at_prefix(&vec![1]).unwrap();
    assert_eq!(v.shape().as_slice(), &[3]);
    match v.at(&vec![2]).unwrap() {
        Elem::B32(b) => assert_eq!(b as i32, 6),
        _ => panic!(),
    }
    assert!(matches!(
        v.at(&vec![3]).unwrap_err(),
        TensorError::IndexOutOfRange
    ));
    assert!(matches!(
        t.view_at_prefix(&vec![2]).unwrap_err(),
        TensorError::IndexOutOfRange
    ));
    let whole = t.view();
    assert_eq!(whole.shape().as_slice(), &[2, 3]);
}

#[test]
fn equality_is_exact() {
    let a = t_i32(&[2], &[1, 2]);
    let b = t_i32(&[2], &[1, 2]);
    let c = t_i32(&[2], &[1, 3]);
    let d = t_i32(&[1, 2], &[1, 2]);
    assert!(a == b);
    assert!(a != c);
    assert!(a != d);
    let f = t_f32(&[1], &[f32::NAN]);
    let g = t_f32(&[1], &[f32::NAN]);
    // bitwise equality: two NaNs with the same bits compare equal
    assert!(f == g);
}

#[test]
fn default_is_a_float32_scalar_zero() {
    let d = Tensor::default();
    assert_eq!(d.rank(), 0);
    assert_eq!(d.datum_type(), DatumType::F32);
    match d.get_elem(0).unwrap() {
        Elem::B32(b) => assert_eq!(f32::from_bits(b), 0.0),
        _ => panic!(),
    }
}

#[test]
fn first_failing_index_reports_multi_index() {
    let t = t_i32(&[2, 3], &[1, 2, 3, 4, 5, 6]);
    let passes = vec![true, true, true, true, false, true];
    let idx = t.first_failing_index(&passes).unwrap();
    assert_eq!(idx.as_slice(), &[1usize, 1]);
    let all = vec![true; 6];
    assert!(t.first_failing_index(&all).is_none());
}

#[test]
fn invalid_alignment_is_an_allocation_error() {
    let e = Tensor::uninitialized_aligned_dt(DatumType::I32, &vec![2], 3).unwrap_err();
    assert!(matches!(e, TensorError::AllocationError));
    let ok = Tensor::uninitialized_aligned_dt(DatumType::I32, &vec![2], 16).unwrap();
    assert_eq!(ok.len(), 2);
}

#[test]
fn set_shape_unchecked_keeps_content() {
    let mut t = t_i32(&[2, 3], &[1, 2, 3, 4, 5, 6]);
    t.set_shape_unchecked(&vec![6]);
    assert_eq!(t.shape().as_slice(), &[6]);
    assert_eq!(i32_lin(&t, 5), 6);
}

#[test]
fn assign_slice_unchecked_copies() {
    let mut a = t_i32(&[4], &[0, 0, 0, 0]);
    let b = t_i32(&[4], &[5, 6, 7, 8]);
    a.assign_slice_unchecked(1, 3, &b, 2, 4, 0);
    assert_eq!(i32_lin(&a, 0), 0);
    assert_eq!(i32_lin(&a, 1), 7);
    assert_eq!(i32_lin(&a, 2), 8);
    assert_eq!(i32_lin(&a, 3), 0);
}

#[test]
fn string_casts_to_bool() {
    let t = t_str(&[2], &["true", "false"]);
    let b = t.cast_to_dt(DatumType::Bool).unwrap().into_owned();
    match b.get_elem(0).unwrap() {
        Elem::B8(v) => assert_eq!(v, 1),
        _ => panic!(),
    }
    match b.get_elem(1).unwrap() {
        Elem::B8(v) => assert_eq!(v, 0),
        _ => panic!(),
    }
    let bad = t_str(&[1], &["maybe"]);
    assert!(matches!(
        bad.cast_to_dt(DatumType::Bool).unwrap_err(),
        TensorError::ParseError(_)
    ));
}

#[test]
fn relabel_same_width_kinds() {
    // a float tensor's bits relabel as same-width integers and back
    let mut t = t_f32(&[2], &[1.0, -2.0]);
    t.set_datum_type(DatumType::I32).unwrap();
    assert_eq!(t.datum_type(), DatumType::I32);
    let bits = 1.0f32.to_bits();
    match t.get_elem(0).unwrap() {
        Elem::B32(b) => assert_eq!(b, bits),
        _ => panic!(),
    }
    t.set_datum_type(DatumType::F32).unwrap();
    assert_eq!(t.datum_type(), DatumType::F32);
    // a different storage class is refused
    assert!(matches!(
        t.set_datum_type(DatumType::I64).unwrap_err(),
        TensorError::KindMismatch
    ));
    // a non-0/1 byte cannot be relabelled as a boolean
    let mut u = Tensor::from_elems(DatumType::U8, &vec![1], vec![Elem::B8(7)]).unwrap();
    assert!(matches!(
        u.set_datum_type(DatumType::Bool).unwrap_err(),
        TensorError::KindMismatch
    ));
    let mut ok = Tensor::from_elems(DatumType::U8, &vec![1], vec![Elem::B8(1)]).unwrap();
    ok.set_datum_type(DatumType::Bool).unwrap();
    assert_eq!(ok.datum_type(), DatumType::Bool);
}

#[test]
fn dump_renders_strings_and_dims() {
    let t = t_str(&[2], &["ab", "cd"]);
    assert_eq!(t.dump(false).unwrap(), "2,Utf8 ab, cd");
    let d = Tensor::from_elems(
        DatumType::TDim,
        &vec![2],
        vec![Elem::Dim(TDim::Val(-3)), Elem::Dim(TDim::Sym(1))],
    )
    .unwrap();
    assert_eq!(d.dump(false).unwrap(), "2,TDim -3, S1");
}

#[test]
fn blob_tensors_clone_and_compare() {
    let elems = vec![Elem::Bytes(vec![1, 2, 3]), Elem::Bytes(vec![])];
    let t = Tensor::from_elems(DatumType::Blob, &vec![2], elems).unwrap();
    let c = t.deep_clone();
    assert!(c == t);
    match c.get_elem(0).unwrap() {
        Elem::Bytes(v) => assert_eq!(v, vec![1, 2, 3]),
        _ => panic!(),
    }
    let other =
        Tensor::from_elems(DatumType::Blob, &vec![1], vec![Elem::Bytes(vec![9])]).unwrap();
    assert!(t != other);
}

#[test]
fn clone_is_a_deep_copy() {
    let t = t_str(&[2], &["a", "b"]);
    let c = t.clone();
    assert!(c == t);
}

#[test]
fn mutable_views_write_through() {
    let mut t = t_i32(&[2, 3], &[1, 2, 3, 4, 5, 6]);
    {
        let mut v = t.view_at_prefix_mut(&vec![1]).unwrap();
        match v.at(&vec![0]).unwrap() {
            Elem::B32(b) => assert_eq!(b as i32, 4),
            _ => panic!(),
        }
        v.set(&vec![2], Elem::B32(99)).unwrap();
        assert!(matches!(
            v.set(&vec![3], Elem::B32(0)).unwrap_err(),
            TensorError::IndexOutOfRange
        ));
        assert!(matches!(
            v.set(&vec![0], Elem::B8(0)).unwrap_err(),
            TensorError::KindMismatch
        ));
    }
    assert_eq!(i32_at(&t, &[1, 2]), 99);
    assert!(matches!(
        t.view_at_prefix_mut(&vec![5]).unwrap_err(),
        TensorError::IndexOutOfRange
    ));
    let mut w = t.view_mut();
    w.set(&vec![0, 0], Elem::B32(7)).unwrap();
    assert_eq!(i32_lin(&t, 0), 7);
}
