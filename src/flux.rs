//! A typed value system for computation graphs: symbols, scalar and aggregate types with
//! their storage sizes, and value handles.
use vstd::prelude::*;

verus! {

/* ===================== Symbols ===================== */

/// A name, compared by its text.
#[derive(Clone, Debug, PartialEq, Eq, Hash, PartialOrd, Ord)]
pub struct Symbol {
    text: String,
}

impl View for Symbol {
    type V = Seq<char>;

    closed spec fn view(&self) -> Seq<char> {
        self.text@
    }
}

impl Symbol {
    /// A symbol with the given text.
    pub fn new(s: &str) -> (r: Symbol)
        ensures
            r@ == s@,
    {
        Symbol { text: s.to_owned() }
    }

    /// The text of the symbol.
    pub fn as_str(&self) -> (r: &str)
        ensures
            r@ == self@,
    {
        self.text.as_str()
    }
}

impl From<&str> for Symbol {
    fn from(s: &str) -> Symbol {
        Symbol::new(s)
    }
}

impl vstd::std_specs::convert::FromSpecImpl<&str> for Symbol {
    open spec fn obeys_from_spec() -> bool {
        false
    }

    open spec fn from_spec(s: &str) -> Symbol {
        arbitrary()
    }
}

/* ===================== Type System ===================== */

/// Widths of integer types.
#[derive(Copy, Clone, Debug, PartialEq, Eq, Hash, Structural)]
pub enum IntWidth {
    W1,
    W8,
    W16,
    W32,
    W64,
}

impl IntWidth {
    /// Number of bits of the width.
    pub open spec fn bits_spec(self) -> u32 {
        match self {
            IntWidth::W1 => 1,
            IntWidth::W8 => 8,
            IntWidth::W16 => 16,
            IntWidth::W32 => 32,
            IntWidth::W64 => 64,
        }
    }

    /// Number of bits of the width.
    pub fn bits(self) -> (r: u32)
        ensures
            r == self.bits_spec(),
    {
        match self {
            IntWidth::W1 => 1,
            IntWidth::W8 => 8,
            IntWidth::W16 => 16,
            IntWidth::W32 => 32,
            IntWidth::W64 => 64,
        }
    }
}

/// Widths of floating-point types.
#[derive(Copy, Clone, Debug, PartialEq, Eq, Hash, Structural)]
pub enum FloatWidth {
    F16,
    BF16,
    F32,
    F64,
}

impl FloatWidth {
    /// Number of bits of the width.
    pub open spec fn bits_spec(self) -> u32 {
        match self {
            FloatWidth::F16 | FloatWidth::BF16 => 16,
            FloatWidth::F32 => 32,
            FloatWidth::F64 => 64,
        }
    }

    /// Number of bits of the width.
    pub fn bits(self) -> (r: u32)
        ensures
            r == self.bits_spec(),
    {
        match self {
            FloatWidth::F16 | FloatWidth::BF16 => 16,
            FloatWidth::F32 => 32,
            FloatWidth::F64 => 64,
        }
    }
}

/// A tensor dimension, known or decided at run time.
#[derive(Copy, Clone, Debug, PartialEq, Eq, Hash, Structural)]
pub enum Dim {
    Dynamic,
    Known(usize),
}

/// A tensor type: its shape and its element type.
#[derive(Debug, PartialEq, Eq, Hash)]
pub struct TensorType {
    pub shape: Vec<Dim>,
    pub elem: Box<Type>,
}

/// Payload of an opaque type that records a data layout.
#[derive(Clone, Debug, PartialEq, Eq, Hash)]
pub struct LayoutPayload {
    pub tag: Symbol,
}

/// Types of values.
#[derive(Debug, PartialEq, Eq, Hash)]
pub enum Type {
    Int(IntWidth, bool),
    Float(FloatWidth),
    Index,
    Tensor(TensorType),
    Tuple(Vec<Type>),
    Opaque { dialect: Symbol, name: Symbol, payload: Option<LayoutPayload> },
}

/// Whether `bits` names an integer width.
pub open spec fn int_width_supported(bits: u32) -> bool {
    bits == 1 || bits == 8 || bits == 16 || bits == 32 || bits == 64
}

/// Whether `bits` names a floating-point width.
pub open spec fn float_width_supported(bits: u32) -> bool {
    bits == 16 || bits == 32 || bits == 64
}

/// Bytes that hold `bits` bits.
pub open spec fn bytes_for(bits: u32) -> int {
    (bits + 7) / 8
}

/// The number of elements of a shape; `None` when a dimension is dynamic or the count
/// exceeds `usize`.
pub open spec fn element_count(shape: Seq<Dim>) -> Option<int>
    decreases shape.len(),
{
    if shape.len() == 0 {
        Some(1)
    } else {
        match (element_count(shape.drop_last()), shape.last()) {
            (Some(n), Dim::Known(k)) => if n * k <= usize::MAX {
                Some(n * k)
            } else {
                None
            },
            _ => None,
        }
    }
}

/// Storage size of a type in bytes; `None` for types without a static size, or when the size
/// exceeds `usize`.
pub open spec fn byte_size_of(t: Type) -> Option<int>
    decreases t,
{
    match t {
        Type::Int(w, _) => Some(bytes_for(w.bits_spec())),
        Type::Float(w) => Some(bytes_for(w.bits_spec())),
        Type::Index => None,
        Type::Tuple(elems) => sizes_sum(elems@),
        Type::Tensor(tt) => match (byte_size_of(*tt.elem), element_count(tt.shape@)) {
            (Some(eb), Some(n)) => if n * eb <= usize::MAX {
                Some(n * eb)
            } else {
                None
            },
            _ => None,
        },
        Type::Opaque { .. } => None,
    }
}

/// The total storage size of a sequence of types.
pub open spec fn sizes_sum(ts: Seq<Type>) -> Option<int>
    decreases ts,
{
    if ts.len() == 0 {
        Some(0)
    } else {
        match (sizes_sum(ts.drop_last()), byte_size_of(ts.last())) {
            (Some(a), Some(b)) => if a + b <= usize::MAX {
                Some(a + b)
            } else {
                None
            },
            _ => None,
        }
    }
}

impl Type {
    /// The integer type of `bits` bits.
    pub fn i(bits: u32, signed: bool) -> (r: Self)
        requires
            int_width_supported(bits),
        ensures
            r matches Type::Int(w, s) && w.bits_spec() == bits && s == signed,
    {
        let w = if bits == 1 {
            IntWidth::W1
        } else if bits == 8 {
            IntWidth::W8
        } else if bits == 16 {
            IntWidth::W16
        } else if bits == 32 {
            IntWidth::W32
        } else {
            IntWidth::W64
        };
        Type::Int(w, signed)
    }

    /// The integer type of `bits` bits; `UnsupportedWidth` for a width that has no type.
    pub fn try_i(bits: u32, signed: bool) -> (r: Result<Self, crate::errors::NumError>)
        ensures
            int_width_supported(bits) ==> (r matches Ok(Type::Int(w, s)) && w.bits_spec() == bits
                && s == signed),
            !int_width_supported(bits) ==> r == Err::<Self, crate::errors::NumError>(
                crate::errors::NumError::UnsupportedWidth,
            ),
    {
        if bits == 1 || bits == 8 || bits == 16 || bits == 32 || bits == 64 {
            Ok(Type::i(bits, signed))
        } else {
            Err(crate::errors::NumError::UnsupportedWidth)
        }
    }

    /// The floating-point type of `bits` bits.
    pub fn f(bits: u32) -> (r: Self)
        requires
            float_width_supported(bits),
        ensures
            r matches Type::Float(w) && w.bits_spec() == bits && w != FloatWidth::BF16,
    {
        let w = if bits == 16 {
            FloatWidth::F16
        } else if bits == 32 {
            FloatWidth::F32
        } else {
            FloatWidth::F64
        };
        Type::Float(w)
    }

    /// The floating-point type of `bits` bits; `UnsupportedWidth` for a width that has no type.
    pub fn try_f(bits: u32) -> (r: Result<Self, crate::errors::NumError>)
        ensures
            float_width_supported(bits) ==> (r matches Ok(Type::Float(w)) && w.bits_spec() == bits
                && w != FloatWidth::BF16),
            !float_width_supported(bits) ==> r == Err::<Self, crate::errors::NumError>(
                crate::errors::NumError::UnsupportedWidth,
            ),
    {
        if bits == 16 || bits == 32 || bits == 64 {
            Ok(Type::f(bits))
        } else {
            Err(crate::errors::NumError::UnsupportedWidth)
        }
    }

    /// The brain floating-point type.
    pub fn bf16() -> (r: Self)
        ensures
            r == Type::Float(FloatWidth::BF16),
    {
        Type::Float(FloatWidth::BF16)
    }

    /// The index type.
    pub fn index() -> (r: Self)
        ensures
            r == Type::Index,
    {
        Type::Index
    }

    /// The tensor type of the given shape and element type.
    pub fn tensor(shape: Vec<Dim>, elem: Type) -> (r: Self)
        ensures
            r matches Type::Tensor(tt) && tt.shape@ == shape@ && *tt.elem == elem,
    {
        Type::Tensor(TensorType { shape, elem: Box::new(elem) })
    }

    /// The tuple type of the given element types.
    pub fn tuple(elems: Vec<Type>) -> (r: Self)
        ensures
            r matches Type::Tuple(es) && es@ == elems@,
    {
        Type::Tuple(elems)
    }

    /// An opaque type of a dialect, without payload.
    pub fn opaque(dialect: &str, name: &str) -> (r: Self)
        ensures
            r matches Type::Opaque { dialect: d, name: n, payload: p } && d@ == dialect@ && n@
                == name@ && p is None,
    {
        Type::Opaque { dialect: Symbol::new(dialect), name: Symbol::new(name), payload: None }
    }

    /// An opaque type of a dialect, with a layout payload.
    pub fn opaque_with(dialect: &str, name: &str, payload: LayoutPayload) -> (r: Self)
        ensures
            r matches Type::Opaque { dialect: d, name: n, payload: p } && d@ == dialect@ && n@
                == name@ && p == Some(payload),
    {
        Type::Opaque {
            dialect: Symbol::new(dialect),
            name: Symbol::new(name),
            payload: Some(payload),
        }
    }

    /// Whether this is an integer type.
    pub fn is_int(&self) -> (r: bool)
        ensures
            r == (*self is Int),
    {
        match self {
            Type::Int(_, _) => true,
            _ => false,
        }
    }

    /// Whether this is a floating-point type.
    pub fn is_float(&self) -> (r: bool)
        ensures
            r == (*self is Float),
    {
        match self {
            Type::Float(_) => true,
            _ => false,
        }
    }

    /// Whether this is a tensor type.
    pub fn is_tensor(&self) -> (r: bool)
        ensures
            r == (*self is Tensor),
    {
        match self {
            Type::Tensor(_) => true,
            _ => false,
        }
    }

    /// Bits of a scalar type; `None` for the other types.
    pub fn scalar_bit_width(&self) -> (r: Option<u32>)
        ensures
            r == (match *self {
                Type::Int(w, _) => Some(w.bits_spec()),
                Type::Float(w) => Some(w.bits_spec()),
                _ => None,
            }),
    {
        match self {
            Type::Int(w, _) => Some(w.bits()),
            Type::Float(w) => Some(w.bits()),
            _ => None,
        }
    }

    /// Storage size in bytes; `None` for the index and opaque types, for tensors with a
    /// dynamic dimension, and for sizes that exceed `usize`.
    pub fn byte_size(&self) -> (r: Option<usize>)
        ensures
            r matches Some(n) ==> byte_size_of(*self) == Some(n as int),
            r is None ==> byte_size_of(*self) is None,
        decreases self,
    {
        match self {
            Type::Int(w, _) => Some(((w.bits() + 7) / 8) as usize),
            Type::Float(w) => Some(((w.bits() + 7) / 8) as usize),
            Type::Index => None,
            Type::Tuple(elems) => {
                let mut sum: usize = 0;
                let mut i: usize = 0;
                while i < elems.len()
                    invariant
                        i <= elems@.len(),
                        byte_size_of(*self) == sizes_sum(elems@),
                        decreases_to!(*self => *elems),
                        sizes_sum(elems@.subrange(0, i as int)) == Some(sum as int),
                    decreases elems@.len() - i,
                {
                    proof {
                        let t = elems@.subrange(0, i as int + 1);
                        assert(t.drop_last() =~= elems@.subrange(0, i as int));
                        assert(t.last() == elems@[i as int]);
                        assert(decreases_to!(*elems => elems@[i as int]));
                    }
                    let s = match elems[i].byte_size() {
                        Some(s) => s,
                        None => {
                            proof {
                                lemma_sizes_sum_none(elems@, i as int);
                            }
                            return None;
                        },
                    };
                    sum = match sum.checked_add(s) {
                        Some(v) => v,
                        None => {
                            proof {
                                lemma_sizes_sum_none(elems@, i as int);
                            }
                            return None;
                        },
                    };
                    i = i + 1;
                }
                proof {
                    assert(elems@.subrange(0, elems@.len() as int) =~= elems@);
                }
                Some(sum)
            },
            Type::Tensor(tt) => {
                let eb = match tt.elem.byte_size() {
                    Some(eb) => eb,
                    None => {
                        return None;
                    },
                };
                let mut n: usize = 1;
                let mut i: usize = 0;
                while i < tt.shape.len()
                    invariant
                        i <= tt.shape@.len(),
                        byte_size_of(*self) == (match element_count(tt.shape@) {
                            Some(n) => if n * eb <= usize::MAX {
                                Some(n * eb)
                            } else {
                                None
                            },
                            None => None,
                        }),
                        element_count(tt.shape@.subrange(0, i as int)) == Some(n as int),
                    decreases tt.shape@.len() - i,
                {
                    proof {
                        let t = tt.shape@.subrange(0, i as int + 1);
                        assert(t.drop_last() =~= tt.shape@.subrange(0, i as int));
                        assert(t.last() == tt.shape@[i as int]);
                    }
                    match tt.shape[i] {
                        Dim::Known(k) => {
                            n = match n.checked_mul(k) {
                                Some(v) => v,
                                None => {
                                    proof {
                                        lemma_element_count_none(tt.shape@, i as int);
                                    }
                                    return None;
                                },
                            };
                        },
                        Dim::Dynamic => {
                            proof {
                                lemma_element_count_none(tt.shape@, i as int);
                            }
                            return None;
                        },
                    }
                    i = i + 1;
                }
                proof {
                    assert(tt.shape@.subrange(0, tt.shape@.len() as int) =~= tt.shape@);
                }
                n.checked_mul(eb)
            },
            Type::Opaque { .. } => None,
        }
    }
}

/// Once a prefix of the elements has no size, neither has the whole sequence.
proof fn lemma_sizes_sum_none(ts: Seq<Type>, i: int)
    requires
        0 <= i < ts.len(),
        sizes_sum(ts.subrange(0, i + 1)) is None,
    ensures
        sizes_sum(ts) is None,
    decreases ts.len() - i,
{
    if i + 1 == ts.len() {
        assert(ts.subrange(0, i + 1) =~= ts);
    } else {
        let t = ts.subrange(0, i + 2);
        assert(t.drop_last() =~= ts.subrange(0, i + 1));
        lemma_sizes_sum_none(ts, i + 1);
    }
}

/// Once a prefix of the dimensions has no count, neither has the whole shape.
proof fn lemma_element_count_none(ds: Seq<Dim>, i: int)
    requires
        0 <= i < ds.len(),
        element_count(ds.subrange(0, i + 1)) is None,
    ensures
        element_count(ds) is None,
    decreases ds.len() - i,
{
    if i + 1 == ds.len() {
        assert(ds.subrange(0, i + 1) =~= ds);
    } else {
        let t = ds.subrange(0, i + 2);
        assert(t.drop_last() =~= ds.subrange(0, i + 1));
        lemma_element_count_none(ds, i + 1);
    }
}

/* ===================== Values ===================== */

/// Identity of a value; never zero.
#[derive(Copy, Clone, Debug, PartialEq, Eq, Hash, Structural)]
pub struct ValueId {
    id: u32,
}

impl ValueId {
    /// The number behind the identity.
    pub closed spec fn spec_get(self) -> u32 {
        self.id
    }

    /// The identity numbered `n`.
    pub fn new(n: u32) -> (r: Self)
        requires
            n != 0,
        ensures
            r.spec_get() == n,
    {
        ValueId { id: n }
    }

    /// The number behind the identity.
    pub fn get(self) -> (r: u32)
        ensures
            r == self.spec_get(),
    {
        self.id
    }
}

/// Identity of an operation; never zero.
#[derive(Copy, Clone, Debug, PartialEq, Eq, Hash, Structural)]
pub struct OpId {
    id: u32,
}

impl OpId {
    /// The number behind the identity.
    pub closed spec fn spec_get(self) -> u32 {
        self.id
    }

    /// The identity numbered `n`.
    pub fn new(n: u32) -> (r: Self)
        requires
            n != 0,
        ensures
            r.spec_get() == n,
    {
        OpId { id: n }
    }

    /// The number behind the identity.
    pub fn get(self) -> (r: u32)
        ensures
            r == self.spec_get(),
    {
        self.id
    }
}

/// Where a value comes from.
#[derive(Copy, Clone, Debug, PartialEq, Eq, Hash, Structural)]
pub enum ValueKind {
    /// The `idx`-th result of the operation `op`.
    OpResult { op: OpId, idx: u32 },
}

/// A value: its identity and its type.
#[derive(Debug)]
pub struct Value {
    id: ValueId,
    ty: Type,
}

impl Value {
    /// The value of the given identity and type.
    pub fn new(id: ValueId, ty: Type) -> (r: Self)
        ensures
            r.spec_id() == id,
            r.spec_ty() == ty,
    {
        Value { id, ty }
    }

    pub closed spec fn spec_id(&self) -> ValueId {
        self.id
    }

    pub closed spec fn spec_ty(&self) -> Type {
        self.ty
    }

    /// The identity of the value.
    pub fn id(&self) -> (r: ValueId)
        ensures
            r == self.spec_id(),
    {
        self.id
    }

    /// The type of the value.
    pub fn ty(&self) -> (r: &Type)
        ensures
            *r == self.spec_ty(),
    {
        &self.ty
    }
}

/// Anything that stands for a value.
pub trait ValueLike {
    fn id(&self) -> ValueId;

    fn ty(&self) -> &Type;
}

impl ValueLike for Value {
    fn id(&self) -> ValueId {
        self.id
    }

    fn ty(&self) -> &Type {
        &self.ty
    }
}

/// A use of a value: the operation that reads it, and at which input.
#[derive(Copy, Clone, Debug, PartialEq, Eq, Structural)]
pub struct Use {
    pub user: OpId,
    pub input_index: u32,
}

} // verus!
