use dsp_lib::cast::{FromPrimitive, ToPrimitive};
use dsp_lib::units::{Bitwise, Bounded, Exp, Inv, One, Ordered, PhysicalRepr, Signed, UnitOps, Zero};

#[test]
fn cast_boundary() {
    assert_eq!(200u16.to_i8(), None);
    assert_eq!(100u16.to_i8(), Some(100i8));
}

#[test]
fn casts_fail_outside_the_destination_range() {
    assert_eq!((-1i32).to_u8(), None);
    assert_eq!((-128i64).to_i8(), Some(-128i8));
    assert_eq!((-129i64).to_i8(), None);
    assert_eq!(u64::MAX.to_i64(), None);
    assert_eq!(u64::MAX.to_u64(), Some(u64::MAX));
    assert_eq!(i64::MIN.to_i32(), None);
    assert_eq!(255u8.to_i16(), Some(255i16));
    assert_eq!(<u8 as FromPrimitive>::from_i32(256), None);
    assert_eq!(<i16 as FromPrimitive>::from_u64(32767), Some(32767i16));
    assert_eq!(<u32 as FromPrimitive>::from_i8(-1), None);
}

#[test]
fn identity_laws_on_integers() {
    for x in [i32::MIN, -7, 0, 5, i32::MAX] {
        assert_eq!(UnitOps::checked_add(x, <i32 as Zero>::zero()), Some(x));
        assert_eq!(UnitOps::checked_mul(x, <i32 as One>::one()), Some(x));
        assert_eq!(UnitOps::checked_sub(x, x), Some(0));
    }
}

#[test]
fn checked_arithmetic_reports_overflow() {
    assert_eq!(UnitOps::checked_add(i8::MAX, 1i8), None);
    assert_eq!(UnitOps::checked_sub(0u16, 1u16), None);
    assert_eq!(UnitOps::checked_mul(1i64 << 32, 1i64 << 31), None);
    assert_eq!(UnitOps::checked_div(i32::MIN, -1), None);
    assert_eq!(UnitOps::checked_div(7i32, 0), None);
    assert_eq!(UnitOps::checked_div(-7i32, 2), Some(-3));
}

#[test]
fn zero_and_one_predicates() {
    let mut x = 9u32;
    assert!(!x.is_zero());
    x.set_zero();
    assert!(x.is_zero());
    x.set_one();
    assert!(x.is_one());
    assert_eq!(0i16.recip(), None);
    assert_eq!((-1i16).recip(), Some(-1));
    assert_eq!(3i16.recip(), Some(0));
}

#[test]
fn bit_round_trip() {
    for x in [i16::MIN, -1, 0, 1, 0x1234, i16::MAX] {
        assert_eq!(i16::from_bits(x.to_bits()), x);
        assert_eq!(<i16 as PhysicalRepr>::from_be_bytes(&x.to_be_bytes()), x);
        assert_eq!(<i16 as PhysicalRepr>::from_le_bytes(&x.to_le_bytes()), x);
    }
    assert_eq!((-1i8).to_bits(), 255u8);
    assert_eq!(i8::from_bits(128u8), -128);
    assert_eq!(<u64 as PhysicalRepr>::from_be_bytes(&u64::MAX.to_be_bytes()), u64::MAX);
}

#[test]
fn byte_orders() {
    assert_eq!(PhysicalRepr::to_be_bytes(0x0102_0304i32), vec![1u8, 2, 3, 4]);
    assert_eq!(PhysicalRepr::to_le_bytes(0x0102_0304i32), vec![4u8, 3, 2, 1]);
    assert_eq!(PhysicalRepr::to_be_bytes(-2i16), vec![0xffu8, 0xfe]);
    assert_eq!(<u32 as PhysicalRepr>::from_le_bytes(&[1, 0, 0, 0]), 1);
    assert_eq!(<u32 as PhysicalRepr>::from_be_bytes(&[1, 0, 0, 0]), 1 << 24);
    assert_eq!(<i64 as PhysicalRepr>::bit_width(), 64);
    assert_eq!(<u16 as PhysicalRepr>::byte_width(), 2);
}

#[test]
fn inverse_law_on_integers() {
    assert_eq!(Inv::inv(1i32), Some(1));
    assert_eq!(Inv::inv(-1i32), Some(-1));
    assert_eq!(Inv::inv(Inv::inv(-1i32).unwrap()), Some(-1));
    assert_eq!(Inv::inv(2i32), None);
    assert_eq!(Inv::inv(0u8), None);
}

#[test]
fn ordering_and_bounds() {
    assert_eq!(Ordered::min(3i8, -4), -4);
    assert_eq!(Ordered::max(3u8, 4), 4);
    assert_eq!(Ordered::clamp(100i32, -5, 5), 5);
    assert_eq!(Ordered::clamp(-100i32, -5, 5), -5);
    assert_eq!(Ordered::clamp(2i32, -5, 5), 2);
    assert_eq!(<i8 as Bounded>::min_value(), -128);
    assert_eq!(<u16 as Bounded>::max_value(), u16::MAX);
}

#[test]
fn signed_helpers() {
    assert_eq!(<i32 as Signed>::neg_one(), -1);
    assert_eq!(<i8 as Signed>::sign_mask(), 0x80u8);
    assert_eq!(<i64 as Signed>::sign_mask(), 1u64 << 63);
    assert_eq!(Signed::abs(i8::MIN), None);
    assert_eq!(Signed::abs(-5i8), Some(5));
    assert_eq!(Signed::checked_neg(i16::MIN), None);
    assert_eq!(Signed::signum(-9i32), -1);
    assert_eq!(Signed::signum(0i32), 0);
    assert_eq!(Signed::signum(9i32), 1);
    assert!(Signed::is_negative(-1i8));
    assert!(!Signed::is_positive(0i8));
}

#[test]
fn powers_and_roots() {
    assert_eq!(Exp::pow(3i32, 4), Some(81));
    assert_eq!(Exp::pow(-2i8, 7), Some(-128));
    assert_eq!(Exp::pow(2i8, 7), None);
    assert_eq!(Exp::pow(0u8, 0), Some(1));
    assert_eq!(Exp::sq(12u8), Some(144));
    assert_eq!(Exp::cb(7u8), None);
    assert_eq!(Exp::sqrt(99i32), Some(9));
    assert_eq!(Exp::sqrt(-4i32), None);
    assert_eq!(Exp::sqrt(u64::MAX), Some(4294967295));
}

#[test]
fn roots_round_toward_zero() {
    assert_eq!(Exp::root(80i32, 4), Some(2));
    assert_eq!(Exp::root(81i32, 4), Some(3));
    assert_eq!(Exp::root(-27i32, 3), Some(-3));
    assert_eq!(Exp::root(-26i32, 3), Some(-2));
    assert_eq!(Exp::root(-16i32, 2), None);
    assert_eq!(Exp::root(16u8, 0), None);
    assert_eq!(Exp::root(i64::MIN, 1), Some(i64::MIN));
    assert_eq!(Exp::root(u64::MAX, 64), Some(1));
    assert_eq!(Exp::cbrt(-1000i16), -10);
    assert_eq!(Exp::cbrt(63u8), 3);
}

#[test]
fn bit_operations() {
    assert_eq!(Bitwise::bit_not(0u8), 0xff);
    assert_eq!(Bitwise::bit_not(0i8), -1);
    assert_eq!(Bitwise::bit_and(0b1100u8, 0b1010), 0b1000);
    assert_eq!(Bitwise::bit_or(0b1100u8, 0b1010), 0b1110);
    assert_eq!(Bitwise::bit_xor(0b1100u8, 0b1010), 0b0110);
    assert_eq!(Bitwise::checked_shl(1u16, 15), Some(0x8000));
    assert_eq!(Bitwise::checked_shl(1u16, 16), None);
    assert_eq!(Bitwise::checked_shl(0x81u8, 1), Some(0x02));
    assert_eq!(Bitwise::checked_shr(-16i32, 2), Some(-4));
    assert_eq!(Bitwise::checked_shr(-16i32, 32), None);
}

#[test]
fn constants_of_the_units() {
    assert_eq!(<i32 as Zero>::ZERO, 0);
    assert_eq!(<u8 as One>::ONE, 1);
    assert_eq!(<i16 as Bounded>::MIN, i16::MIN);
    assert_eq!(<u32 as Bounded>::MAX, u32::MAX);
    assert_eq!(<i8 as Signed>::NEG_ONE, -1);
    assert_eq!(<i32 as Signed>::SIGN_MASK, 0x8000_0000u32);
    assert_eq!(<i64 as PhysicalRepr>::BITS, 64);
    assert_eq!(<u16 as PhysicalRepr>::BYTES, 2);
}
