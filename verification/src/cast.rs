//! The casting engine: converting a tensor of one element kind to another.
//! Integer, boolean, symbolic-dimension and string conversions are all
//! specified exactly; an identity cast borrows the tensor without copying.

use vstd::prelude::*;

use crate::datum::{elem_fits, DatumType, Elem, ElemV, TDim};
use crate::error::TensorError;
use crate::shape::prod;
use crate::tensor::Tensor;
use crate::text::{bool_rep, int_literal_ok, int_literal_val, int_rep, parse_bool, parse_int,
    render_bool, render_i128, render_tdim, tdim_rep};

verus! {

/// The least value an integer or boolean kind can hold.
pub open spec fn kind_min(dt: DatumType) -> int {
    match dt {
        DatumType::I8 => -128,
        DatumType::I16 => -32768,
        DatumType::I32 => -0x80000000,
        DatumType::I64 => -0x8000000000000000,
        _ => 0,
    }
}

/// The greatest value an integer or boolean kind can hold.
pub open spec fn kind_max(dt: DatumType) -> int {
    match dt {
        DatumType::Bool => 1,
        DatumType::U8 => 255,
        DatumType::U16 => 65535,
        DatumType::U32 => 0xffffffff,
        DatumType::U64 => 0xffffffffffffffff,
        DatumType::I8 => 127,
        DatumType::I16 => 32767,
        DatumType::I32 => 0x7fffffff,
        DatumType::I64 => 0x7fffffffffffffff,
        _ => 0,
    }
}

/// The modulus of an integer kind: two to its bit width.
pub open spec fn kind_mod(dt: DatumType) -> int {
    match dt {
        DatumType::U8 | DatumType::I8 => 0x100,
        DatumType::U16 | DatumType::I16 => 0x10000,
        DatumType::U32 | DatumType::I32 => 0x100000000,
        DatumType::U64 | DatumType::I64 => 0x10000000000000000,
        _ => 1,
    }
}

/// The integer value of an element of an integer or boolean kind,
/// interpreting the stored bits with the kind's signedness.
pub open spec fn int_of(dt: DatumType, e: ElemV) -> int {
    match (dt, e) {
        (DatumType::Bool, ElemV::B8(b)) => b as int,
        (DatumType::U8, ElemV::B8(b)) => b as int,
        (DatumType::I8, ElemV::B8(b)) => if b < 128 {
            b as int
        } else {
            b - 256
        },
        (DatumType::U16, ElemV::B16(b)) => b as int,
        (DatumType::I16, ElemV::B16(b)) => if b < 32768 {
            b as int
        } else {
            b - 65536
        },
        (DatumType::U32, ElemV::B32(b)) => b as int,
        (DatumType::I32, ElemV::B32(b)) => if b < 0x80000000 {
            b as int
        } else {
            b - 0x100000000
        },
        (DatumType::U64, ElemV::B64(b)) => b as int,
        (DatumType::I64, ElemV::B64(b)) => if b < 0x8000000000000000 {
            b as int
        } else {
            b - 0x10000000000000000
        },
        _ => 0,
    }
}

/// The element of an integer or boolean kind that holds an in-range value.
pub open spec fn elem_of_int(dt: DatumType, v: int) -> ElemV {
    match dt {
        DatumType::Bool | DatumType::U8 => ElemV::B8(v as u8),
        DatumType::I8 => ElemV::B8(
            (if v < 0 {
                v + 256
            } else {
                v
            }) as u8,
        ),
        DatumType::U16 => ElemV::B16(v as u16),
        DatumType::I16 => ElemV::B16(
            (if v < 0 {
                v + 65536
            } else {
                v
            }) as u16,
        ),
        DatumType::U32 => ElemV::B32(v as u32),
        DatumType::I32 => ElemV::B32(
            (if v < 0 {
                v + 0x100000000
            } else {
                v
            }) as u32,
        ),
        DatumType::U64 => ElemV::B64(v as u64),
        DatumType::I64 => ElemV::B64(
            (if v < 0 {
                v + 0x10000000000000000
            } else {
                v
            }) as u64,
        ),
        _ => ElemV::B8(0),
    }
}

/// A value wrapped into an integer kind's range, as the language's
/// narrowing integer casts do.
pub open spec fn wrap_to(dt: DatumType, v: int) -> int {
    let u = v % kind_mod(dt);
    if dt.is_signed_spec() && u > kind_max(dt) {
        u - kind_mod(dt)
    } else {
        u
    }
}

/// The source value of a cast, for the kinds whose elements carry one: the
/// integer value for integer and boolean kinds, the resolved value of a
/// symbolic dimension.
pub open spec fn src_int(sd: DatumType, e: ElemV) -> int {
    if sd == DatumType::TDim {
        match e {
            ElemV::Dim(TDim::Val(v)) => v as int,
            _ => 0,
        }
    } else {
        int_of(sd, e)
    }
}

/// The text a cast to the string kind renders an element as.
pub open spec fn render_of(sd: DatumType, e: ElemV) -> Seq<char> {
    if sd == DatumType::Bool {
        bool_rep(int_of(sd, e) == 1)
    } else if sd == DatumType::TDim {
        match e {
            ElemV::Dim(d) => tdim_rep(d),
            _ => Seq::<char>::empty(),
        }
    } else {
        int_rep(int_of(sd, e))
    }
}

/// Whether a string parses as the target kind.
pub open spec fn parseable(dt: DatumType, s: Seq<char>) -> bool {
    if dt == DatumType::Bool {
        s == bool_rep(true) || s == bool_rep(false)
    } else {
        int_literal_ok(s) && kind_min(dt) <= int_literal_val(s) <= kind_max(dt)
    }
}

/// The conversion table: whether a cast from `sd` to `dt` has a rule.  This
/// core converts between the integer, boolean, symbolic-dimension and string
/// kinds; every identity cast succeeds; no rule interprets float bits.
pub open spec fn cast_ok(sd: DatumType, dt: DatumType) -> bool {
    if sd == dt {
        true
    } else if dt == DatumType::Utf8 {
        sd.is_integer_spec() || sd == DatumType::Bool || sd == DatumType::TDim
    } else if sd == DatumType::Utf8 {
        dt.is_integer_spec() || dt == DatumType::Bool
    } else if dt == DatumType::TDim {
        sd.is_integer_spec() || sd == DatumType::Bool
    } else if dt == DatumType::Bool {
        sd.is_integer_spec()
    } else if dt.is_integer_spec() {
        sd.is_integer_spec() || sd == DatumType::Bool || sd == DatumType::TDim
    } else {
        false
    }
}

/// What a supported non-identity cast makes of one element.
pub open spec fn cast_elem(sd: DatumType, dt: DatumType, e: ElemV) -> ElemV {
    if dt == DatumType::Utf8 {
        ElemV::Text(render_of(sd, e))
    } else if sd == DatumType::Utf8 {
        let s = (match e {
            ElemV::Text(s) => s,
            _ => Seq::<char>::empty(),
        });
        if dt == DatumType::Bool {
            ElemV::B8(
                if s == bool_rep(true) {
                    1u8
                } else {
                    0u8
                },
            )
        } else {
            elem_of_int(dt, int_literal_val(s))
        }
    } else if dt == DatumType::Bool {
        ElemV::B8(
            if src_int(sd, e) != 0 {
                1u8
            } else {
                0u8
            },
        )
    } else if dt == DatumType::TDim {
        // routed through a 32-bit integer intermediate
        ElemV::Dim(TDim::Val(wrap_to(DatumType::I32, src_int(sd, e)) as i64))
    } else {
        elem_of_int(dt, wrap_to(dt, src_int(sd, e)))
    }
}

/// The least value of an integer or boolean kind, computed.
pub fn kind_min_i128(dt: DatumType) -> (r: i128)
    ensures
        r == kind_min(dt),
{
    match dt {
        DatumType::I8 => -128,
        DatumType::I16 => -32768,
        DatumType::I32 => -0x80000000,
        DatumType::I64 => -0x8000000000000000,
        _ => 0,
    }
}

/// The greatest value of an integer or boolean kind, computed.
pub fn kind_max_i128(dt: DatumType) -> (r: i128)
    ensures
        r == kind_max(dt),
{
    match dt {
        DatumType::Bool => 1,
        DatumType::U8 => 255,
        DatumType::U16 => 65535,
        DatumType::U32 => 0xffffffff,
        DatumType::U64 => 0xffffffffffffffff,
        DatumType::I8 => 127,
        DatumType::I16 => 32767,
        DatumType::I32 => 0x7fffffff,
        DatumType::I64 => 0x7fffffffffffffff,
        _ => 0,
    }
}

/// The integer value of an element of an integer or boolean kind.
pub(crate) fn int_value(sd: DatumType, e: &Elem) -> (r: i128)
    requires
        sd.is_integer_spec() || sd == DatumType::Bool,
        elem_fits(sd, e@),
    ensures
        r == int_of(sd, e@),
        kind_min(sd) <= r <= kind_max(sd),
{
    match (sd, e) {
        (DatumType::Bool, Elem::B8(b)) => *b as i128,
        (DatumType::U8, Elem::B8(b)) => *b as i128,
        (DatumType::I8, Elem::B8(b)) => {
            if *b < 128 {
                *b as i128
            } else {
                (*b as i128) - 256
            }
        },
        (DatumType::U16, Elem::B16(b)) => *b as i128,
        (DatumType::I16, Elem::B16(b)) => {
            if *b < 32768 {
                *b as i128
            } else {
                (*b as i128) - 65536
            }
        },
        (DatumType::U32, Elem::B32(b)) => *b as i128,
        (DatumType::I32, Elem::B32(b)) => {
            if *b < 0x80000000 {
                *b as i128
            } else {
                (*b as i128) - 0x100000000
            }
        },
        (DatumType::U64, Elem::B64(b)) => *b as i128,
        (DatumType::I64, Elem::B64(b)) => {
            if *b < 0x8000000000000000 {
                *b as i128
            } else {
                (*b as i128) - 0x10000000000000000
            }
        },
        _ => {
            proof {
                assert(false);
            }
            0
        },
    }
}

/// The element of an integer or boolean kind holding an in-range value.
fn elem_from_int(dt: DatumType, v: i128) -> (r: Elem)
    requires
        dt.is_integer_spec() || dt == DatumType::Bool,
        kind_min(dt) <= v <= kind_max(dt),
    ensures
        r@ == elem_of_int(dt, v as int),
        elem_fits(dt, r@),
        int_of(dt, r@) == v,
{
    match dt {
        DatumType::Bool | DatumType::U8 => Elem::B8(v as u8),
        DatumType::I8 => Elem::B8(
            (if v < 0 {
                v + 256
            } else {
                v
            }) as u8,
        ),
        DatumType::U16 => Elem::B16(v as u16),
        DatumType::I16 => Elem::B16(
            (if v < 0 {
                v + 65536
            } else {
                v
            }) as u16,
        ),
        DatumType::U32 => Elem::B32(v as u32),
        DatumType::I32 => Elem::B32(
            (if v < 0 {
                v + 0x100000000
            } else {
                v
            }) as u32,
        ),
        DatumType::U64 => Elem::B64(v as u64),
        DatumType::I64 => Elem::B64(
            (if v < 0 {
                v + 0x10000000000000000
            } else {
                v
            }) as u64,
        ),
        _ => {
            proof {
                assert(false);
            }
            Elem::B8(0)
        },
    }
}

/// Wrap a value into an integer kind's range, as narrowing casts do.
fn wrap_int(dt: DatumType, v: i128) -> (r: i128)
    requires
        dt.is_integer_spec(),
        -0x10000000000000000 <= v <= 0xffffffffffffffff,
    ensures
        r == wrap_to(dt, v as int),
        kind_min(dt) <= r <= kind_max(dt),
{
    let m: i128 = match dt {
        DatumType::U8 | DatumType::I8 => 0x100,
        DatumType::U16 | DatumType::I16 => 0x10000,
        DatumType::U32 | DatumType::I32 => 0x100000000,
        _ => 0x10000000000000000,
    };
    proof {
        assert(m == kind_mod(dt));
    }
    let u: i128 = if v >= 0 {
        v % m
    } else {
        let a = (-v) % m;
        proof {
            let b = -(v as int);
            vstd::arithmetic::div_mod::lemma_fundamental_div_mod(b, m as int);
            assert(b == (m as int) * (b / (m as int)) + a);
            if a == 0 {
                assert(v as int == (m as int) * (-(b / (m as int))) + 0) by (nonlinear_arith)
                    requires
                        v as int == -b,
                        b == (m as int) * (b / (m as int)) + 0,
                ;
                vstd::arithmetic::div_mod::lemma_fundamental_div_mod_converse(
                    v as int,
                    m as int,
                    -(b / (m as int)),
                    0,
                );
            } else {
                assert(v as int == (m as int) * (-(b / (m as int)) - 1) + ((m as int) - a))
                    by (nonlinear_arith)
                    requires
                        v as int == -b,
                        b == (m as int) * (b / (m as int)) + a,
                ;
                vstd::arithmetic::div_mod::lemma_fundamental_div_mod_converse(
                    v as int,
                    m as int,
                    -(b / (m as int)) - 1,
                    (m as int) - a,
                );
            }
        }
        if a == 0 {
            0
        } else {
            m - a
        }
    };
    proof {
        assert(u == (v as int) % (m as int));
    }
    let mx = kind_max_i128(dt);
    if dt.is_signed() && u > mx {
        u - m
    } else {
        u
    }
}

/// A cast result: the tensor itself where no conversion was needed (an
/// identity cast allocates nothing), or a freshly converted tensor.
#[derive(Debug)]
pub enum TensorCow<'a> {
    Borrowed(&'a Tensor),
    Owned(Tensor),
}

impl<'a> TensorCow<'a> {
    /// The element values of the result, whichever form it took.
    pub open spec fn view(&self) -> Tensor {
        match self {
            TensorCow::Borrowed(t) => **t,
            TensorCow::Owned(t) => *t,
        }
    }

    /// Take ownership of the result, copying only where it was borrowed.
    pub fn into_owned(self) -> (r: Tensor)
        requires
            self.view().wf(),
        ensures
            r.wf(),
            crate::tensor::tensor_eq(r, self.view()),
    {
        match self {
            TensorCow::Borrowed(t) => t.deep_clone(),
            TensorCow::Owned(t) => t,
        }
    }
}

impl Tensor {
    /// Convert this tensor to the element kind `dt`.  An identity cast
    /// returns the tensor borrowed, allocating nothing; any other supported
    /// cast converts every element.  A symbolic dimension that is still
    /// unresolved cannot be made numeric, and a string that does not parse
    /// as the target kind fails the whole cast, naming the offending text.
    pub fn cast_to_dt(&self, dt: DatumType) -> (r: Result<TensorCow<'_>, TensorError>)
        requires
            self.wf(),
        ensures
            match r {
                Ok(TensorCow::Borrowed(t)) => dt == self.dt && t == self,
                Ok(TensorCow::Owned(t)) => {
                    &&& dt != self.dt
                    &&& cast_ok(self.dt, dt)
                    &&& t.wf()
                    &&& t.dt == dt
                    &&& t.shape@ == self.shape@
                    &&& forall|j: int|
                        0 <= j < t.elems().len() ==> #[trigger] t.elems()[j] == cast_elem(
                            self.dt,
                            dt,
                            self.elems()[j],
                        )
                },
                Err(e) => {
                    &&& dt != self.dt
                    &&& {
                        ||| (e is UnsupportedCast && !cast_ok(self.dt, dt))
                        ||| (e is UnresolvedDimension && self.dt == DatumType::TDim && exists|
                            j: int,
                        |
                            0 <= j < self.elems().len() && ((#[trigger] self.elems()[j]) matches
                                ElemV::Dim(TDim::Sym(_))))
                        ||| (e matches TensorError::ParseError(s) && self.dt == DatumType::Utf8
                            && exists|j: int|
                            0 <= j < self.elems().len() && ((#[trigger] self.elems()[j]) matches
                                ElemV::Text(t) && !parseable(dt, t) && s@ == t))
                        ||| (e is AllocationError && !Tensor::alloc_ok(
                            dt,
                            self.shape@,
                            dt.alignment_spec(),
                        ))
                    }
                },
            },
            dt == self.dt ==> r is Ok,
            dt != self.dt ==> ((r is Ok) <==> {
                &&& cast_ok(self.dt, dt)
                &&& (self.dt == DatumType::TDim && dt != DatumType::Utf8 ==> forall|j: int|
                    0 <= j < self.elems().len() ==> ((#[trigger] self.elems()[j]) matches
                        ElemV::Dim(TDim::Val(_))))
                &&& (self.dt == DatumType::Utf8 ==> forall|j: int|
                    0 <= j < self.elems().len() ==> ((#[trigger] self.elems()[j]) matches
                        ElemV::Text(t) && parseable(dt, t)))
                &&& Tensor::alloc_ok(dt, self.shape@, dt.alignment_spec())
            }),
    {
        if same_kind(self.dt, dt) {
            return Ok(TensorCow::Borrowed(self));
        }
        let sd = self.dt;
        // the conversion table
        let supported: bool = if dt == DatumType::Utf8 {
            sd.is_integer() || sd == DatumType::Bool || sd == DatumType::TDim
        } else if sd == DatumType::Utf8 {
            dt.is_integer() || dt == DatumType::Bool
        } else if dt == DatumType::TDim {
            sd.is_integer() || sd == DatumType::Bool
        } else if dt == DatumType::Bool {
            sd.is_integer()
        } else if dt.is_integer() {
            sd.is_integer() || sd == DatumType::Bool || sd == DatumType::TDim
        } else {
            false
        };
        proof {
            assert(supported == cast_ok(sd, dt));
        }
        if !supported {
            return Err(TensorError::UnsupportedCast);
        }
        let mut t = match Self::uninitialized_dt(dt, &self.shape) {
            Ok(t) => t,
            Err(_) => {
                return Err(TensorError::AllocationError);
            },
        };
        let n = self.data.len();
        let mut j: usize = 0;
        while j < n
            invariant
                j <= n,
                self.wf(),
                t.wf(),
                sd == self.dt,
                dt != sd,
                cast_ok(sd, dt),
                t.dt == dt,
                t.shape@ == self.shape@,
                n == self.elems().len(),
                n == t.elems().len(),
                forall|k: int|
                    0 <= k < j ==> #[trigger] t.elems()[k] == cast_elem(sd, dt, self.elems()[k]),
                sd == DatumType::TDim && dt != DatumType::Utf8 ==> forall|k: int|
                    0 <= k < j ==> ((#[trigger] self.elems()[k]) matches ElemV::Dim(
                        TDim::Val(_),
                    )),
                sd == DatumType::Utf8 ==> forall|k: int|
                    0 <= k < j ==> ((#[trigger] self.elems()[k]) matches ElemV::Text(t)
                        && parseable(dt, t)),
            decreases n - j,
        {
            let e = self.data.get(j);
            proof {
                assert(elem_fits(sd, self.elems()[j as int]));
            }
            let ne: Elem = if dt == DatumType::Utf8 {
                if sd == DatumType::Bool {
                    let v = int_value(sd, &e);
                    render_into_elem_bool(v == 1)
                } else if sd == DatumType::TDim {
                    match e {
                        Elem::Dim(d) => Elem::Text(render_tdim(&d)),
                        _ => {
                            proof {
                                assert(false);
                            }
                            Elem::B8(0)
                        },
                    }
                } else {
                    let v = int_value(sd, &e);
                    Elem::Text(render_i128(v))
                }
            } else if sd == DatumType::Utf8 {
                match e {
                    Elem::Text(s) => {
                        if dt == DatumType::Bool {
                            match parse_bool(s.as_str()) {
                                Some(b) => Elem::B8(
                                    if b {
                                        1
                                    } else {
                                        0
                                    },
                                ),
                                None => {
                                    return Err(TensorError::ParseError(s));
                                },
                            }
                        } else {
                            let mn = kind_min_i128(dt);
                            let mx = kind_max_i128(dt);
                            match parse_int(s.as_str(), mn, mx) {
                                Some(v) => elem_from_int(dt, v),
                                None => {
                                    return Err(TensorError::ParseError(s));
                                },
                            }
                        }
                    },
                    _ => {
                        proof {
                            assert(false);
                        }
                        Elem::B8(0)
                    },
                }
            } else {
                // the source carries an integer value
                let v: i128 = if sd == DatumType::TDim {
                    match &e {
                        Elem::Dim(TDim::Val(x)) => *x as i128,
                        Elem::Dim(TDim::Sym(_)) => {
                            return Err(TensorError::UnresolvedDimension);
                        },
                        _ => {
                            proof {
                                assert(false);
                            }
                            0
                        },
                    }
                } else {
                    int_value(sd, &e)
                };
                if dt == DatumType::Bool {
                    Elem::B8(
                        if v != 0 {
                            1
                        } else {
                            0
                        },
                    )
                } else if dt == DatumType::TDim {
                    let w = wrap_int(DatumType::I32, v);
                    Elem::Dim(TDim::Val(w as i64))
                } else {
                    let w = wrap_int(dt, v);
                    elem_from_int(dt, w)
                }
            };
            proof {
                assert(ne@ == cast_elem(sd, dt, self.elems()[j as int]));
                assert(elem_fits(dt, ne@));
            }
            t.data.set(j, ne);
            j = j + 1;
        }
        Ok(TensorCow::Owned(t))
    }

    /// The single value of a rank-0 tensor, cast to the kind `dt`.
    pub fn cast_to_scalar(&self, dt: DatumType) -> (r: Result<Elem, TensorError>)
        requires
            self.wf(),
        ensures
            match r {
                Ok(e) => {
                    &&& self.shape@.len() == 0
                    &&& (dt == self.dt ==> e@ == self.elems()[0])
                    &&& (dt != self.dt ==> e@ == cast_elem(self.dt, dt, self.elems()[0]))
                },
                Err(err) => {
                    if self.shape@.len() != 0 {
                        err is RankMismatch
                    } else {
                        &&& dt != self.dt
                        &&& {
                            ||| (err is UnsupportedCast && !cast_ok(self.dt, dt))
                            ||| (err is UnresolvedDimension && self.dt == DatumType::TDim
                                && exists|j: int|
                                0 <= j < self.elems().len() && ((#[trigger] self.elems()[j])
                                    matches ElemV::Dim(TDim::Sym(_))))
                            ||| (err matches TensorError::ParseError(s) && self.dt
                                == DatumType::Utf8 && exists|j: int|
                                0 <= j < self.elems().len() && ((#[trigger] self.elems()[j])
                                    matches ElemV::Text(t) && !parseable(dt, t) && s@ == t))
                            ||| (err is AllocationError && !Tensor::alloc_ok(
                                dt,
                                self.shape@,
                                dt.alignment_spec(),
                            ))
                        }
                    }
                },
            },
            (r is Ok) <==> (self.shape@.len() == 0 && (dt == self.dt || {
                &&& cast_ok(self.dt, dt)
                &&& (self.dt == DatumType::TDim && dt != DatumType::Utf8 ==> forall|j: int|
                    0 <= j < self.elems().len() ==> ((#[trigger] self.elems()[j]) matches
                        ElemV::Dim(TDim::Val(_))))
                &&& (self.dt == DatumType::Utf8 ==> forall|j: int|
                    0 <= j < self.elems().len() ==> ((#[trigger] self.elems()[j]) matches
                        ElemV::Text(t) && parseable(dt, t)))
                &&& Tensor::alloc_ok(dt, self.shape@, dt.alignment_spec())
            })),
    {
        if self.rank() != 0 {
            return Err(TensorError::RankMismatch);
        }
        proof {
            assert(prod(self.shape@) == 1);
            assert(self.elems().len() == 1);
        }
        let c = self.cast_to_dt(dt)?;
        match c {
            TensorCow::Borrowed(t) => Ok(t.data.get(0)),
            TensorCow::Owned(t) => {
                proof {
                    assert(t.elems().len() == 1);
                }
                Ok(t.data.get(0))
            },
        }
    }
}

/// Kind equality, usable from exec code.
fn same_kind(a: DatumType, b: DatumType) -> (r: bool)
    ensures
        r == (a == b),
{
    a == b
}

/// The boolean renderings, as elements.
fn render_into_elem_bool(b: bool) -> (r: Elem)
    ensures
        r@ == ElemV::Text(bool_rep(b)),
{
    Elem::Text(render_bool(b))
}

} // verus!
