use dsp_lib::errors::NumError;
use dsp_lib::fixed::Real;

#[test]
fn mixed_scale_sum_is_exact() {
    // 1.5 with 8 fractional bits plus 2.25 with 16 fractional bits
    let a: Real<i16> = Real::new(0x0180);
    let b: Real<i32> = Real::new(0x0002_4000);
    let sum: Result<Real<i32>, NumError> = a.add(b);
    assert_eq!(sum, Ok(Real::new(0x0003_C000)));
    // 1/256 is kept, not truncated to the coarser scale
    let tiny: Real<i16> = Real::new(1);
    let one: Real<i32> = Real::new(0x0001_0000);
    assert_eq!(tiny.add::<i32, i32>(one), Ok(Real::new(0x0001_0100)));
}

#[test]
fn fixed_point_overflow() {
    let a: Real<i64> = Real::new(i64::MAX);
    let b: Real<i64> = Real::new(i64::MAX);
    assert_eq!(a.mul::<i64, i64>(b), Err(NumError::Overflow));
    let neg: Real<i64> = Real::new(i64::MIN);
    assert_eq!(neg.mul::<i64, i64>(neg), Err(NumError::Overflow));
}

#[test]
fn fixed_point_products_and_quotients() {
    // 1.5 * 2.5 = 3.75 at 8 fractional bits
    let a: Real<i16> = Real::new(0x0180);
    let b: Real<i16> = Real::new(0x0280);
    assert_eq!(a.mul::<i16, i16>(b), Ok(Real::new(0x03C0)));
    // 3.75 / 1.5 = 2.5
    let c: Real<i16> = Real::new(0x03C0);
    assert_eq!(c.div::<i16, i16>(a), Ok(Real::new(0x0280)));
    // 1.5 (8 bits) * 2.0 (16 bits) = 3.0 at 16 bits
    let two: Real<i32> = Real::new(0x0002_0000);
    assert_eq!(a.mul::<i32, i32>(two), Ok(Real::new(0x0003_0000)));
    // -1 / 3 rounds toward zero
    let m: Real<i16> = Real::new(-0x0100);
    let three: Real<i16> = Real::new(0x0300);
    assert_eq!(m.div::<i16, i16>(three), Ok(Real::new(-0x0055)));
    // products round down
    let eps: Real<i16> = Real::new(-1);
    let half: Real<i16> = Real::new(0x0080);
    assert_eq!(eps.mul::<i16, i16>(half), Ok(Real::new(-1)));
}

#[test]
fn fixed_point_errors() {
    let a: Real<i16> = Real::new(0x0100);
    let z: Real<i32> = Real::new(0);
    assert_eq!(a.div::<i32, i32>(z), Err(NumError::DivisionByZero));
    let big: Real<i16> = Real::new(i16::MAX);
    assert_eq!(big.add::<i16, i16>(big), Err(NumError::Overflow));
    assert_eq!(big.sub::<i16, i16>(Real::new(-1)), Err(NumError::Overflow));
    assert_eq!(<Real<i16>>::frac_bits(), 8);
    assert_eq!(<Real<i32>>::frac_bits(), 16);
    assert_eq!(<Real<i64>>::frac_bits(), 32);
    assert_eq!(big.raw(), i16::MAX);
}

#[test]
fn fixed_point_inverse() {
    assert_eq!(<Real<i16>>::one(), Real::new(0x0100));
    assert_eq!(<Real<i64>>::one(), Real::new(1i64 << 32));
    let two: Real<i16> = Real::new(0x0200);
    assert_eq!(two.inv(), Ok(Real::new(0x0080)));
    assert_eq!(two.inv().unwrap().inv(), Ok(two));
    let zero: Real<i32> = Real::new(0);
    assert_eq!(zero.inv(), Err(NumError::DivisionByZero));
    let tiny: Real<i16> = Real::new(1);
    assert_eq!(tiny.inv(), Err(NumError::Overflow));
}
