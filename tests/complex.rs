use dsp_lib::complex::Complex;
use dsp_lib::errors::NumError;

#[test]
fn complex_multiplication() {
    let a = Complex::new(1i32, 2);
    let b = Complex::new(3i32, 4);
    assert_eq!(a.mul(b), Ok(Complex::new(1 * 3 - 2 * 4, 1 * 4 + 2 * 3)));
    assert_eq!(a.mul(b), Ok(Complex::new(-5, 10)));
}

#[test]
fn complex_division() {
    let a = Complex::new(-5i32, 10);
    let b = Complex::new(3i32, 4);
    assert_eq!(a.div(b), Ok(Complex::new(1, 2)));
    assert_eq!(a.div(Complex::new(0, 0)), Err(NumError::DivisionByZero));
}

#[test]
fn division_rounds_toward_zero() {
    let a = Complex::new(7i64, -7);
    assert_eq!(a.div(Complex::new(2, 0)), Ok(Complex::new(3, -3)));
    assert_eq!(a.unscale(2), Ok(Complex::new(3, -3)));
    assert_eq!(a.unscale(0), Err(NumError::DivisionByZero));
}

#[test]
fn conjugate_twice_is_identity() {
    let z = Complex::new(3i16, -8);
    assert_eq!(z.conj(), Ok(Complex::new(3, 8)));
    assert_eq!(z.conj().unwrap().conj(), Ok(z));
    assert_eq!(Complex::new(0i8, i8::MIN).conj(), Err(NumError::Overflow));
}

#[test]
fn addition_is_associative() {
    let a = Complex::new(1i32, -2);
    let b = Complex::new(30i32, 40);
    let c = Complex::new(-500i32, 600);
    assert_eq!(a.add(b).unwrap().add(c), a.add(b.add(c).unwrap()));
    assert_eq!(a.add(b), Ok(Complex::new(31, 38)));
    assert_eq!(a.sub(b), Ok(Complex::new(-29, -42)));
    assert_eq!(Complex::new(i32::MAX, 0).add(Complex::new(1, 0)), Err(NumError::Overflow));
}

#[test]
fn units_and_inverses() {
    let i = Complex::<i32>::i();
    assert_eq!(i, Complex::new(0, 1));
    assert_eq!(Complex::<i32>::im(), Complex::new(0, 1));
    assert_eq!(Complex::<i32>::re(), Complex::new(1, 0));
    assert_eq!(Complex::<i32>::default(), Complex::new(0, 0));
    assert_eq!(Complex::from_real(9i32), Complex::new(9, 0));
    assert_eq!(i.inv(), Ok(Complex::new(0, -1)));
    assert_eq!(i.mul(i.inv().unwrap()), Ok(Complex::new(1, 0)));
    assert_eq!(Complex::new(2i32, 0).inv(), Ok(Complex::new(0, 0)));
    assert_eq!(Complex::new(0i32, 0).inv(), Err(NumError::DivisionByZero));
}

#[test]
fn norms_and_scaling() {
    let z = Complex::new(3i32, 4);
    assert_eq!(z.norm_sqr(), Ok(25));
    assert_eq!(z.norm(), Ok(5));
    assert_eq!(Complex::new(1i32, 1).norm(), Ok(1));
    assert_eq!(z.scale(-2), Ok(Complex::new(-6, -8)));
    assert_eq!(z.neg(), Ok(Complex::new(-3, -4)));
    assert_eq!(Complex::new(i16::MAX, 1).norm_sqr(), Err(NumError::Overflow));
    assert_eq!(Complex::new(i64::MIN, i64::MIN).mul(Complex::new(i64::MIN, i64::MIN)), Err(NumError::Overflow));
}

#[test]
fn reals_embed_as_complex() {
    assert_eq!(Complex::from(9i32), Complex::new(9, 0));
    assert_eq!(Complex::<i8>::from(-3), Complex::from_real(-3));
}
