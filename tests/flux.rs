use dsp_lib::errors::NumError;
use dsp_lib::flux::{Dim, FloatWidth, IntWidth, LayoutPayload, OpId, Symbol, Type, Value, ValueId, ValueLike};
use std::collections::hash_map::DefaultHasher;
use std::hash::{Hash, Hasher};

#[test]
fn symbol_roundtrip() {
    let s1 = Symbol::new("linalg");
    let s2 = Symbol::from("linalg");
    assert_eq!(s1, s2);
    assert_eq!(s1.as_str(), "linalg");
}

#[test]
fn type_helpers_and_sizes() {
    let i32t = Type::i(32, true);
    let f32t = Type::f(32);
    assert!(i32t.is_int());
    assert!(f32t.is_float());
    assert_eq!(i32t.scalar_bit_width(), Some(32));
    assert_eq!(f32t.byte_size(), Some(4));
    let t = Type::tensor(vec![Dim::Known(2), Dim::Known(3)], Type::f(64));
    assert_eq!(t.byte_size(), Some(2 * 3 * 8));
    let dyn_t = Type::tensor(vec![Dim::Known(2), Dim::Dynamic], Type::i(8, false));
    assert_eq!(dyn_t.byte_size(), None);
    let tup = Type::tuple(vec![Type::i(8, true), Type::f(32)]);
    assert_eq!(tup.byte_size(), Some(1 + 4));
}

#[test]
fn opaque_with_payload_eq_hash() {
    let a = Type::opaque_with("core", "layout", LayoutPayload { tag: Symbol::new("NHWC") });
    let b = Type::opaque_with("core", "layout", LayoutPayload { tag: Symbol::new("NHWC") });
    let c = Type::opaque_with("core", "layout", LayoutPayload { tag: Symbol::new("NCHW") });
    assert_eq!(a, b);
    assert_ne!(a, c);
    let mut ha = DefaultHasher::new();
    let mut hb = DefaultHasher::new();
    a.hash(&mut ha);
    b.hash(&mut hb);
    assert_eq!(ha.finish(), hb.finish());
}

#[test]
fn widths_report_their_bits() {
    assert_eq!(IntWidth::W1.bits(), 1);
    assert_eq!(IntWidth::W64.bits(), 64);
    assert_eq!(FloatWidth::BF16.bits(), 16);
    assert_eq!(FloatWidth::F64.bits(), 64);
    assert_eq!(Type::bf16().scalar_bit_width(), Some(16));
    assert_eq!(Type::bf16().byte_size(), Some(2));
}

#[test]
fn one_bit_integers_take_a_byte() {
    assert_eq!(Type::i(1, false).byte_size(), Some(1));
    assert_eq!(Type::i(64, true).byte_size(), Some(8));
}

#[test]
fn unsupported_widths_are_rejected() {
    assert_eq!(Type::try_i(24, true), Err(NumError::UnsupportedWidth));
    assert_eq!(Type::try_f(8), Err(NumError::UnsupportedWidth));
    assert_eq!(Type::try_i(16, false), Ok(Type::i(16, false)));
    assert_eq!(Type::try_f(64), Ok(Type::f(64)));
}

#[test]
fn sizeless_types() {
    assert_eq!(Type::index().byte_size(), None);
    assert_eq!(Type::opaque("core", "token").byte_size(), None);
    assert!(!Type::index().is_int());
    assert_eq!(Type::index().scalar_bit_width(), None);
    let nested = Type::tuple(vec![Type::i(16, true), Type::index()]);
    assert_eq!(nested.byte_size(), None);
    assert!(Type::tensor(vec![], Type::f(16)).is_tensor());
}

#[test]
fn nested_aggregates_add_up() {
    let inner = Type::tensor(vec![Dim::Known(4)], Type::i(32, true));
    let t = Type::tuple(vec![inner, Type::tuple(vec![]), Type::f(16)]);
    assert_eq!(t.byte_size(), Some(16 + 0 + 2));
    let scalar_tensor = Type::tensor(vec![], Type::f(64));
    assert_eq!(scalar_tensor.byte_size(), Some(8));
}

#[test]
fn oversized_tensors_have_no_size() {
    let t = Type::tensor(vec![Dim::Known(usize::MAX), Dim::Known(2)], Type::i(8, true));
    assert_eq!(t.byte_size(), None);
    let t = Type::tensor(vec![Dim::Known(usize::MAX)], Type::i(16, true));
    assert_eq!(t.byte_size(), None);
}

#[test]
fn values_carry_identity_and_type() {
    let v = Value::new(ValueId::new(7), Type::f(32));
    assert_eq!(v.id().get(), 7);
    assert_eq!(v.ty(), &Type::f(32));
    assert_eq!(ValueLike::id(&v), ValueId::new(7));
    assert_eq!(OpId::new(3).get(), 3);
}
