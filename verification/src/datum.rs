//! The element-kind registry: the closed set of kinds a tensor can hold,
//! the per-kind facts (byte width, alignment, copy-triviality, numeric
//! classification), and the element value types.

use vstd::prelude::*;

verus! {

/// The closed set of element kinds a tensor can hold.
///
/// The three float kinds are carried by their bit patterns: this core moves,
/// slices, stacks, compares and hashes them, but never interprets them as
/// real numbers.
#[derive(Clone, Copy, PartialEq, Eq, Structural, Hash, Debug)]
pub enum DatumType {
    Bool,
    U8,
    U16,
    U32,
    U64,
    I8,
    I16,
    I32,
    I64,
    F16,
    F32,
    F64,
    TDim,
    Utf8,
    Blob,
}

/// A symbolic dimension: either a concrete value or an unresolved symbol,
/// identified by an opaque id.
#[derive(Clone, Copy, PartialEq, Eq, Structural, Hash, Debug)]
pub enum TDim {
    Val(i64),
    Sym(u64),
}

/// How a kind's elements are stored: a fixed-width bit pattern, or one of the
/// owned element types.  Kinds sharing a storage class are bit-for-bit
/// interchangeable for operations that never interpret values.
#[derive(Clone, Copy, PartialEq, Eq, Structural, Debug)]
pub enum StorageKind {
    W8,
    W16,
    W32,
    W64,
    Dim,
    Text,
    Bytes,
}

/// One element, as stored: fixed-width kinds by their bit pattern, the owned
/// kinds by their value.
#[derive(Debug)]
pub enum Elem {
    B8(u8),
    B16(u16),
    B32(u32),
    B64(u64),
    Dim(TDim),
    Text(String),
    Bytes(Vec<u8>),
}

/// The mathematical value of one element.
pub enum ElemV {
    B8(u8),
    B16(u16),
    B32(u32),
    B64(u64),
    Dim(TDim),
    Text(Seq<char>),
    Bytes(Seq<u8>),
}

impl View for Elem {
    type V = ElemV;

    open spec fn view(&self) -> ElemV {
        match self {
            Elem::B8(v) => ElemV::B8(*v),
            Elem::B16(v) => ElemV::B16(*v),
            Elem::B32(v) => ElemV::B32(*v),
            Elem::B64(v) => ElemV::B64(*v),
            Elem::Dim(d) => ElemV::Dim(*d),
            Elem::Text(s) => ElemV::Text(s@),
            Elem::Bytes(b) => ElemV::Bytes(b@),
        }
    }
}

impl DatumType {
    /// The storage class of this kind.
    pub open spec fn class(self) -> StorageKind {
        match self {
            DatumType::Bool | DatumType::U8 | DatumType::I8 => StorageKind::W8,
            DatumType::U16 | DatumType::I16 | DatumType::F16 => StorageKind::W16,
            DatumType::U32 | DatumType::I32 | DatumType::F32 => StorageKind::W32,
            DatumType::U64 | DatumType::I64 | DatumType::F64 => StorageKind::W64,
            DatumType::TDim => StorageKind::Dim,
            DatumType::Utf8 => StorageKind::Text,
            DatumType::Blob => StorageKind::Bytes,
        }
    }

    /// The storage class, computed.
    pub fn storage_kind(self) -> (r: StorageKind)
        ensures
            r == self.class(),
    {
        match self {
            DatumType::Bool | DatumType::U8 | DatumType::I8 => StorageKind::W8,
            DatumType::U16 | DatumType::I16 | DatumType::F16 => StorageKind::W16,
            DatumType::U32 | DatumType::I32 | DatumType::F32 => StorageKind::W32,
            DatumType::U64 | DatumType::I64 | DatumType::F64 => StorageKind::W64,
            DatumType::TDim => StorageKind::Dim,
            DatumType::Utf8 => StorageKind::Text,
            DatumType::Blob => StorageKind::Bytes,
        }
    }

    /// Byte width of one element of this kind.
    pub open spec fn size_of_spec(self) -> usize {
        match self.class() {
            StorageKind::W8 => 1usize,
            StorageKind::W16 => 2usize,
            StorageKind::W32 => 4usize,
            StorageKind::W64 => 8usize,
            StorageKind::Dim => 16usize,
            StorageKind::Text => 24usize,
            StorageKind::Bytes => 24usize,
        }
    }

    /// Byte width of one element of this kind.
    pub fn size_of(self) -> (r: usize)
        ensures
            r == self.size_of_spec(),
    {
        match self.storage_kind() {
            StorageKind::W8 => 1,
            StorageKind::W16 => 2,
            StorageKind::W32 => 4,
            StorageKind::W64 => 8,
            StorageKind::Dim => 16,
            StorageKind::Text => 24,
            StorageKind::Bytes => 24,
        }
    }

    /// Natural alignment, in bytes, of one element of this kind.
    pub open spec fn alignment_spec(self) -> usize {
        match self.class() {
            StorageKind::W8 => 1usize,
            StorageKind::W16 => 2usize,
            StorageKind::W32 => 4usize,
            StorageKind::W64 => 8usize,
            StorageKind::Dim => 8usize,
            StorageKind::Text => 8usize,
            StorageKind::Bytes => 8usize,
        }
    }

    /// Natural alignment, in bytes, of one element of this kind.
    pub fn alignment(self) -> (r: usize)
        ensures
            r == self.alignment_spec(),
    {
        match self.storage_kind() {
            StorageKind::W8 => 1,
            StorageKind::W16 => 2,
            StorageKind::W32 => 4,
            StorageKind::W64 => 8,
            StorageKind::Dim => 8,
            StorageKind::Text => 8,
            StorageKind::Bytes => 8,
        }
    }

    /// Whether elements of this kind can be duplicated by a raw byte copy,
    /// with no destructor obligations.
    pub open spec fn is_copy_spec(self) -> bool {
        match self.class() {
            StorageKind::W8 | StorageKind::W16 | StorageKind::W32 | StorageKind::W64 => true,
            StorageKind::Dim | StorageKind::Text | StorageKind::Bytes => false,
        }
    }

    /// Whether elements of this kind can be duplicated by a raw byte copy.
    #[verifier::when_used_as_spec(is_copy_spec)]
    pub fn is_copy(self) -> (r: bool)
        ensures
            r == self.is_copy_spec(),
    {
        match self.storage_kind() {
            StorageKind::W8 | StorageKind::W16 | StorageKind::W32 | StorageKind::W64 => true,
            StorageKind::Dim | StorageKind::Text | StorageKind::Bytes => false,
        }
    }

    /// Whether this kind is a signed or unsigned integer kind.
    pub open spec fn is_integer_spec(self) -> bool {
        match self {
            DatumType::U8 | DatumType::U16 | DatumType::U32 | DatumType::U64 => true,
            DatumType::I8 | DatumType::I16 | DatumType::I32 | DatumType::I64 => true,
            _ => false,
        }
    }

    /// Whether this kind is a signed or unsigned integer kind.
    #[verifier::when_used_as_spec(is_integer_spec)]
    pub fn is_integer(self) -> (r: bool)
        ensures
            r == self.is_integer_spec(),
    {
        match self {
            DatumType::U8 | DatumType::U16 | DatumType::U32 | DatumType::U64 => true,
            DatumType::I8 | DatumType::I16 | DatumType::I32 | DatumType::I64 => true,
            _ => false,
        }
    }

    /// Whether this kind is a floating-point kind (carried as bit patterns).
    pub open spec fn is_float_spec(self) -> bool {
        match self {
            DatumType::F16 | DatumType::F32 | DatumType::F64 => true,
            _ => false,
        }
    }

    /// Whether this kind is a floating-point kind.
    #[verifier::when_used_as_spec(is_float_spec)]
    pub fn is_float(self) -> (r: bool)
        ensures
            r == self.is_float_spec(),
    {
        match self {
            DatumType::F16 | DatumType::F32 | DatumType::F64 => true,
            _ => false,
        }
    }

    /// Whether this kind is numeric: an integer or a float kind.
    pub open spec fn is_number_spec(self) -> bool {
        self.is_integer_spec() || self.is_float_spec()
    }

    /// Whether this kind is numeric: an integer or a float kind.
    #[verifier::when_used_as_spec(is_number_spec)]
    pub fn is_number(self) -> (r: bool)
        ensures
            r == self.is_number_spec(),
    {
        self.is_integer() || self.is_float()
    }

    /// Whether this kind is a signed integer kind.
    pub open spec fn is_signed_spec(self) -> bool {
        match self {
            DatumType::I8 | DatumType::I16 | DatumType::I32 | DatumType::I64 => true,
            _ => false,
        }
    }

    /// Whether this kind is a signed integer kind.
    #[verifier::when_used_as_spec(is_signed_spec)]
    pub fn is_signed(self) -> (r: bool)
        ensures
            r == self.is_signed_spec(),
    {
        match self {
            DatumType::I8 | DatumType::I16 | DatumType::I32 | DatumType::I64 => true,
            _ => false,
        }
    }
}

/// Whether an element value is a legal inhabitant of a kind: its storage
/// class matches, and boolean elements are 0 or 1.
pub open spec fn elem_fits(dt: DatumType, e: ElemV) -> bool {
    &&& class_of_elem(e) == dt.class()
    &&& (dt == DatumType::Bool ==> match e {
        ElemV::B8(b) => b <= 1,
        _ => false,
    })
}

/// The storage class an element value belongs to.
pub open spec fn class_of_elem(e: ElemV) -> StorageKind {
    match e {
        ElemV::B8(_) => StorageKind::W8,
        ElemV::B16(_) => StorageKind::W16,
        ElemV::B32(_) => StorageKind::W32,
        ElemV::B64(_) => StorageKind::W64,
        ElemV::Dim(_) => StorageKind::Dim,
        ElemV::Text(_) => StorageKind::Text,
        ElemV::Bytes(_) => StorageKind::Bytes,
    }
}

/// The zero (default) element value of a kind.
pub open spec fn zero_elem_v(dt: DatumType) -> ElemV {
    match dt.class() {
        StorageKind::W8 => ElemV::B8(0u8),
        StorageKind::W16 => ElemV::B16(0u16),
        StorageKind::W32 => ElemV::B32(0u32),
        StorageKind::W64 => ElemV::B64(0u64),
        StorageKind::Dim => ElemV::Dim(TDim::Val(0i64)),
        StorageKind::Text => ElemV::Text(Seq::<char>::empty()),
        StorageKind::Bytes => ElemV::Bytes(Seq::<u8>::empty()),
    }
}

impl Elem {
    /// Deep copy of one element.
    pub fn dup(&self) -> (r: Elem)
        ensures
            r@ == self@,
    {
        match self {
            Elem::B8(v) => Elem::B8(*v),
            Elem::B16(v) => Elem::B16(*v),
            Elem::B32(v) => Elem::B32(*v),
            Elem::B64(v) => Elem::B64(*v),
            Elem::Dim(d) => Elem::Dim(*d),
            Elem::Text(s) => Elem::Text(s.clone()),
            Elem::Bytes(b) => {
                let mut c: Vec<u8> = Vec::new();
                let mut i: usize = 0;
                while i < b.len()
                    invariant
                        i <= b.len(),
                        c@ == b@.take(i as int),
                    decreases b.len() - i,
                {
                    c.push(b[i]);
                    proof {
                        assert(c@ =~= b@.take(i as int + 1));
                    }
                    i = i + 1;
                }
                proof {
                    assert(c@ =~= b@);
                }
                Elem::Bytes(c)
            },
        }
    }

    /// Equality of two elements, by value.
    pub fn same(&self, other: &Elem) -> (r: bool)
        ensures
            r == (self@ == other@),
    {
        match (self, other) {
            (Elem::B8(a), Elem::B8(b)) => a == b,
            (Elem::B16(a), Elem::B16(b)) => a == b,
            (Elem::B32(a), Elem::B32(b)) => a == b,
            (Elem::B64(a), Elem::B64(b)) => a == b,
            (Elem::Dim(a), Elem::Dim(b)) => a == b,
            (Elem::Text(a), Elem::Text(b)) => a.eq(b),
            (Elem::Bytes(a), Elem::Bytes(b)) => {
                if a.len() != b.len() {
                    false
                } else {
                    let mut i: usize = 0;
                    let mut ok = true;
                    while i < a.len()
                        invariant
                            i <= a.len(),
                            a@.len() == b@.len(),
                            ok == (forall|j: int| 0 <= j < i ==> a@[j] == b@[j]),
                        decreases a.len() - i,
                    {
                        if a[i] != b[i] {
                            ok = false;
                        }
                        i = i + 1;
                    }
                    proof {
                        if ok {
                            assert(a@ =~= b@);
                        }
                    }
                    ok
                }
            },
            _ => {
                proof {
                    assert(self@ != other@);
                }
                false
            },
        }
    }

    /// The storage class of this element.
    pub fn storage_kind(&self) -> (r: StorageKind)
        ensures
            r == class_of_elem(self@),
    {
        match self {
            Elem::B8(_) => StorageKind::W8,
            Elem::B16(_) => StorageKind::W16,
            Elem::B32(_) => StorageKind::W32,
            Elem::B64(_) => StorageKind::W64,
            Elem::Dim(_) => StorageKind::Dim,
            Elem::Text(_) => StorageKind::Text,
            Elem::Bytes(_) => StorageKind::Bytes,
        }
    }

    /// Whether this element is a legal inhabitant of `dt`.
    pub fn fits(&self, dt: DatumType) -> (r: bool)
        ensures
            r == elem_fits(dt, self@),
    {
        if self.storage_kind() != dt.storage_kind() {
            return false;
        }
        if dt == DatumType::Bool {
            match self {
                Elem::B8(b) => *b <= 1,
                _ => false,
            }
        } else {
            true
        }
    }
}

/// The zero (default) element of a kind, computed.
pub fn zero_elem(dt: DatumType) -> (r: Elem)
    ensures
        r@ == zero_elem_v(dt),
        elem_fits(dt, r@),
{
    match dt.storage_kind() {
        StorageKind::W8 => Elem::B8(0),
        StorageKind::W16 => Elem::B16(0),
        StorageKind::W32 => Elem::B32(0),
        StorageKind::W64 => Elem::B64(0),
        StorageKind::Dim => Elem::Dim(TDim::Val(0)),
        StorageKind::Text => Elem::Text(String::new()),
        StorageKind::Bytes => Elem::Bytes(Vec::new()),
    }
}

impl TDim {
    /// The concrete value of this dimension, when it is resolved.
    pub fn to_i64(&self) -> (r: Option<i64>)
        ensures
            match r {
                Some(v) => self == TDim::Val(v),
                None => self is Sym,
            },
    {
        match self {
            TDim::Val(v) => Some(*v),
            TDim::Sym(_) => None,
        }
    }
}

} // verus!
