//! Human-readable rendering of a tensor: its shape, kind name and elements,
//! truncated after twelve elements unless full output is forced.

use vstd::prelude::*;

use crate::cast::int_of;
use crate::datum::{DatumType, Elem, ElemV};
use crate::error::TensorError;
use crate::shape::index_of;
use crate::tensor::Tensor;
use crate::text::{bool_rep, dec_rep, int_rep, render_bool, render_i128, render_tdim, render_u64,
    tdim_rep};

verus! {

/// The name of an element kind.
pub open spec fn kind_name(dt: DatumType) -> Seq<char> {
    match dt {
        DatumType::Bool => seq!['B', 'o', 'o', 'l'],
        DatumType::U8 => seq!['U', '8'],
        DatumType::U16 => seq!['U', '1', '6'],
        DatumType::U32 => seq!['U', '3', '2'],
        DatumType::U64 => seq!['U', '6', '4'],
        DatumType::I8 => seq!['I', '8'],
        DatumType::I16 => seq!['I', '1', '6'],
        DatumType::I32 => seq!['I', '3', '2'],
        DatumType::I64 => seq!['I', '6', '4'],
        DatumType::F16 => seq!['F', '1', '6'],
        DatumType::F32 => seq!['F', '3', '2'],
        DatumType::F64 => seq!['F', '6', '4'],
        DatumType::TDim => seq!['T', 'D', 'i', 'm'],
        DatumType::Utf8 => seq!['U', 't', 'f', '8'],
        DatumType::Blob => seq!['B', 'l', 'o', 'b'],
    }
}

/// The text a renderable element shows as.
pub open spec fn elem_text(dt: DatumType, e: ElemV) -> Seq<char> {
    if dt == DatumType::Bool {
        bool_rep(int_of(dt, e) == 1)
    } else if dt == DatumType::TDim {
        match e {
            ElemV::Dim(d) => tdim_rep(d),
            _ => Seq::<char>::empty(),
        }
    } else if dt == DatumType::Utf8 {
        match e {
            ElemV::Text(s) => s,
            _ => Seq::<char>::empty(),
        }
    } else {
        int_rep(int_of(dt, e))
    }
}

/// A shape's dimensions joined with `x`.
pub open spec fn shape_text(s: Seq<usize>) -> Seq<char>
    decreases s.len(),
{
    if s.len() == 0 {
        Seq::<char>::empty()
    } else if s.len() == 1 {
        dec_rep(s[0] as int)
    } else {
        shape_text(s.drop_last()) + seq!['x'] + dec_rep(s.last() as int)
    }
}

/// Elements joined with a comma and a space.
pub open spec fn elems_text(dt: DatumType, es: Seq<ElemV>) -> Seq<char>
    decreases es.len(),
{
    if es.len() == 0 {
        Seq::<char>::empty()
    } else if es.len() == 1 {
        elem_text(dt, es[0])
    } else {
        elems_text(dt, es.drop_last()) + seq![',', ' '] + elem_text(dt, es.last())
    }
}

/// What `dump` produces: the shape, a comma, the kind name, a space, the
/// first twelve elements (all of them when forced or few), and an ellipsis
/// marker where elements were left out.
pub open spec fn dump_text(
    dt: DatumType,
    shape: Seq<usize>,
    es: Seq<ElemV>,
    force_full: bool,
) -> Seq<char> {
    let trunc = es.len() > 12 && !force_full;
    let shown = if trunc {
        es.take(12)
    } else {
        es
    };
    let tail = if trunc {
        seq!['.', '.', '.']
    } else {
        Seq::<char>::empty()
    };
    shape_text(shape) + seq![','] + kind_name(dt) + seq![' '] + elems_text(dt, shown) + tail
}

/// A kind whose elements this core can render as text.
pub open spec fn renderable(dt: DatumType) -> bool {
    dt.is_integer_spec() || dt == DatumType::Bool || dt == DatumType::TDim || dt
        == DatumType::Utf8
}

/// The name of an element kind, computed.
pub fn kind_name_string(dt: DatumType) -> (r: String)
    ensures
        r@ == kind_name(dt),
{
    proof {
        reveal_strlit("Bool");
        reveal_strlit("U8");
        reveal_strlit("U16");
        reveal_strlit("U32");
        reveal_strlit("U64");
        reveal_strlit("I8");
        reveal_strlit("I16");
        reveal_strlit("I32");
        reveal_strlit("I64");
        reveal_strlit("F16");
        reveal_strlit("F32");
        reveal_strlit("F64");
        reveal_strlit("TDim");
        reveal_strlit("Utf8");
        reveal_strlit("Blob");
    }
    let r = match dt {
        DatumType::Bool => "Bool",
        DatumType::U8 => "U8",
        DatumType::U16 => "U16",
        DatumType::U32 => "U32",
        DatumType::U64 => "U64",
        DatumType::I8 => "I8",
        DatumType::I16 => "I16",
        DatumType::I32 => "I32",
        DatumType::I64 => "I64",
        DatumType::F16 => "F16",
        DatumType::F32 => "F32",
        DatumType::F64 => "F64",
        DatumType::TDim => "TDim",
        DatumType::Utf8 => "Utf8",
        DatumType::Blob => "Blob",
    }.to_owned();
    proof {
        assert(r@ =~= kind_name(dt));
    }
    r
}

/// One renderable element's text, computed.
fn elem_string(dt: DatumType, e: &Elem) -> (r: String)
    requires
        renderable(dt),
        crate::datum::elem_fits(dt, e@),
    ensures
        r@ == elem_text(dt, e@),
{
    if dt == DatumType::Bool {
        let v = crate::cast::int_value(dt, e);
        render_bool(v == 1)
    } else if dt == DatumType::TDim {
        match e {
            Elem::Dim(d) => render_tdim(d),
            _ => {
                proof {
                    assert(false);
                }
                String::new()
            },
        }
    } else if dt == DatumType::Utf8 {
        match e {
            Elem::Text(s) => s.clone(),
            _ => {
                proof {
                    assert(false);
                }
                String::new()
            },
        }
    } else {
        let v = crate::cast::int_value(dt, e);
        render_i128(v)
    }
}

impl Tensor {
    /// Render the tensor in a human-readable form: its shape, kind and
    /// elements.  Unless `force_full` is set, only the first twelve elements
    /// are shown, followed by an ellipsis.  Only the kinds with a defined
    /// textual form render.
    pub fn dump(&self, force_full: bool) -> (r: Result<String, TensorError>)
        requires
            self.wf(),
        ensures
            match r {
                Ok(s) => renderable(self.dt) && s@ == dump_text(
                    self.dt,
                    self.shape@,
                    self.elems(),
                    force_full,
                ),
                Err(e) => !renderable(self.dt) && e is UnsupportedCast,
            },
    {
        let dt = self.dt;
        let ok = dt.is_integer() || dt == DatumType::Bool || dt == DatumType::TDim || dt
            == DatumType::Utf8;
        if !ok {
            return Err(TensorError::UnsupportedCast);
        }
        proof {
            reveal_strlit("x");
            reveal_strlit(",");
            reveal_strlit(" ");
            reveal_strlit(", ");
            reveal_strlit("...");
        }
        let mut out = String::new();
        let rank = self.shape.len();
        let mut i: usize = 0;
        while i < rank
            invariant
                i <= rank,
                rank == self.shape@.len(),
                self.wf(),
                dt == self.dt,
                renderable(dt),
                out@ == shape_text(self.shape@.take(i as int)),
            decreases rank - i,
        {
            proof {
                reveal_strlit("x");
                assert(self.shape@.take(i as int + 1).drop_last() =~= self.shape@.take(i as int));
                assert(self.shape@.take(i as int + 1).last() == self.shape@[i as int]);
            }
            if i > 0 {
                out.append("x");
            }
            let d = render_u64(self.shape[i] as u64);
            out.append(d.as_str());
            proof {
                if i == 0 {
                    assert(out@ =~= shape_text(self.shape@.take(1)));
                } else {
                    assert(out@ =~= shape_text(self.shape@.take(i as int + 1)));
                }
            }
            i = i + 1;
        }
        proof {
            assert(self.shape@.take(rank as int) =~= self.shape@);
        }
        out.append(",");
        let nm = kind_name_string(dt);
        out.append(nm.as_str());
        out.append(" ");
        let ghost head = out@;
        let n = self.data.len();
        let trunc = n > 12 && !force_full;
        let count = if trunc {
            12
        } else {
            n
        };
        let ghost shown = if trunc {
            self.elems().take(12)
        } else {
            self.elems()
        };
        let mut j: usize = 0;
        while j < count
            invariant
                j <= count,
                count <= n,
                self.wf(),
                dt == self.dt,
                renderable(dt),
                n == self.elems().len(),
                trunc == (n > 12 && !force_full),
                trunc ==> count == 12,
                !trunc ==> count == n,
                shown == (if trunc {
                    self.elems().take(12)
                } else {
                    self.elems()
                }),
                count == shown.len(),
                out@ == head + elems_text(dt, shown.take(j as int)),
            decreases count - j,
        {
            proof {
                reveal_strlit(", ");
                assert(shown.take(j as int + 1).drop_last() =~= shown.take(j as int));
                assert(shown.take(j as int + 1).last() == shown[j as int]);
                if trunc {
                    assert(shown == self.elems().take(12));
                    assert(self.elems().take(12)[j as int] == self.elems()[j as int]);
                } else {
                    assert(shown[j as int] == self.elems()[j as int]);
                }
            }
            if j > 0 {
                out.append(", ");
            }
            let e = self.data.get(j);
            let es = elem_string(dt, &e);
            out.append(es.as_str());
            proof {
                if j == 0 {
                    assert(out@ =~= head + elems_text(dt, shown.take(1)));
                } else {
                    assert(out@ =~= head + elems_text(dt, shown.take(j as int + 1)));
                }
            }
            j = j + 1;
        }
        proof {
            assert(shown.take(count as int) =~= shown);
        }
        if trunc {
            out.append("...");
        }
        proof {
            assert(out@ =~= dump_text(dt, self.shape@, self.elems(), force_full));
        }
        Ok(out)
    }

    /// The multi-index of the first `false` in an elementwise comparison
    /// outcome laid out in this tensor's row-major order, or `None` where
    /// every position passed.  This is the reporting half of an approximate
    /// comparison: a caller hands in one verdict per element.
    pub fn first_failing_index(&self, passes: &Vec<bool>) -> (r: Option<Vec<usize>>)
        requires
            self.wf(),
            passes@.len() == self.elems().len(),
        ensures
            match r {
                Some(idx) => exists|j: int|
                    {
                        &&& 0 <= j < passes@.len()
                        &&& !passes@[j]
                        &&& (forall|k: int| 0 <= k < j ==> passes@[k])
                        &&& idx@.map_values(|v: usize| v as int) == index_of(self.shape@, j)
                    },
                None => forall|j: int| 0 <= j < passes@.len() ==> passes@[j],
            },
    {
        let n = passes.len();
        let mut j: usize = 0;
        while j < n
            invariant
                j <= n,
                self.wf(),
                n == passes@.len(),
                n == self.elems().len(),
                forall|k: int| 0 <= k < j ==> passes@[k],
            decreases n - j,
        {
            if !passes[j] {
                let idx = crate::shape::decode_index(&self.shape, &self.strides, j);
                return Some(idx);
            }
            j = j + 1;
        }
        None
    }
}

} // verus!
