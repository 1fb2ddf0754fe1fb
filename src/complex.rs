//! Complex numbers in Cartesian form over a signed integer unit (Gaussian integers).
//!
//! Every operation computes the exact result of the complex-field formula and reports
//! `Overflow` when a component is not representable; divisions round each component
//! toward zero and report `DivisionByZero` when the divisor's measure is zero.
use vstd::prelude::*;
use crate::errors::NumError;
use crate::units::{div_trunc, in_range, lemma_pow256_values, Integer, Signed, UnitOps};

verus! {

/// Complex number in Cartesian form.
#[derive(Clone, Copy, Debug, PartialEq, Eq)]
pub struct Complex<T> {
    /// Real portion
    pub re: T,
    /// Imaginary portion
    pub im: T,
}

/// Whether `v` fits in a 128-bit signed integer.
pub open spec fn wide(v: int) -> bool {
    -0x8000_0000_0000_0000_0000_0000_0000_0000 <= v <= 0x7fff_ffff_ffff_ffff_ffff_ffff_ffff_ffff
}

/// The complex number with the given components, or `Overflow` when one does not fit `T`.
pub open spec fn complex_of<T: UnitOps>(re: int, im: int) -> Result<Complex<T>, NumError> {
    if in_range::<T>(re) && in_range::<T>(im) {
        Ok(Complex { re: T::from_val(re), im: T::from_val(im) })
    } else {
        Err(NumError::Overflow)
    }
}

/// `re^2 + im^2`.
pub open spec fn norm_sqr_of<T: UnitOps>(z: Complex<T>) -> int {
    z.re.val() * z.re.val() + z.im.val() * z.im.val()
}

/// The outcome of `a + b`.
pub open spec fn add_outcome<T: UnitOps>(a: Complex<T>, b: Complex<T>) -> Result<Complex<T>, NumError> {
    complex_of::<T>(a.re.val() + b.re.val(), a.im.val() + b.im.val())
}

/// The outcome of `a - b`.
pub open spec fn sub_outcome<T: UnitOps>(a: Complex<T>, b: Complex<T>) -> Result<Complex<T>, NumError> {
    complex_of::<T>(a.re.val() - b.re.val(), a.im.val() - b.im.val())
}

/// The outcome of `a * b = (ac - bd, ad + bc)`.
pub open spec fn mul_outcome<T: UnitOps>(a: Complex<T>, b: Complex<T>) -> Result<Complex<T>, NumError> {
    complex_of::<T>(
        a.re.val() * b.re.val() - a.im.val() * b.im.val(),
        a.re.val() * b.im.val() + a.im.val() * b.re.val(),
    )
}

/// The outcome of `a / b = a * conj(b) / |b|^2`, each component rounded toward zero.
/// The intermediate sums are held in 128 bits.
pub open spec fn div_outcome<T: UnitOps>(a: Complex<T>, b: Complex<T>) -> Result<Complex<T>, NumError> {
    let n = norm_sqr_of(b);
    let x = a.re.val() * b.re.val() + a.im.val() * b.im.val();
    let y = a.im.val() * b.re.val() - a.re.val() * b.im.val();
    if n == 0 {
        Err(NumError::DivisionByZero)
    } else if !(wide(n) && wide(x) && wide(y)) {
        Err(NumError::Overflow)
    } else {
        complex_of::<T>(div_trunc(x, n), div_trunc(y, n))
    }
}

/// The outcome of `conj(z) = re - im i`.
pub open spec fn conj_outcome<T: UnitOps>(z: Complex<T>) -> Result<Complex<T>, NumError> {
    complex_of::<T>(z.re.val(), -z.im.val())
}

/// The outcome of `inv(z) = conj(z) / |z|^2`, each component rounded toward zero.
pub open spec fn inv_outcome<T: UnitOps>(z: Complex<T>) -> Result<Complex<T>, NumError> {
    let n = norm_sqr_of(z);
    if !in_range::<T>(n) {
        Err(NumError::Overflow)
    } else if n == 0 {
        Err(NumError::DivisionByZero)
    } else {
        complex_of::<T>(div_trunc(z.re.val(), n), div_trunc(-z.im.val(), n))
    }
}

/// A value of a signed unit lies within 64 bits.
pub proof fn lemma_signed_bounds<T: Integer + Signed>(x: T)
    ensures
        -0x8000_0000_0000_0000 <= x.val() <= 0x7fff_ffff_ffff_ffff,
{
    x.lemma_model();
    T::lemma_width();
    lemma_pow256_values();
    T::lemma_signed();
}

/// A value in the range of a signed unit fits in 128 bits.
proof fn lemma_in_range_wide<T: Integer + Signed>(v: int)
    requires
        in_range::<T>(v),
    ensures
        wide(v),
        -0x8000_0000_0000_0000 <= v <= 0x7fff_ffff_ffff_ffff,
{
    T::lemma_width();
    lemma_pow256_values();
    T::lemma_signed();
}

/// Products of values within 64 bits lie within 126 bits.
proof fn lemma_products(a: int, b: int, c: int, d: int)
    requires
        -0x8000_0000_0000_0000 <= a <= 0x7fff_ffff_ffff_ffff,
        -0x8000_0000_0000_0000 <= b <= 0x7fff_ffff_ffff_ffff,
        -0x8000_0000_0000_0000 <= c <= 0x7fff_ffff_ffff_ffff,
        -0x8000_0000_0000_0000 <= d <= 0x7fff_ffff_ffff_ffff,
    ensures
        -0x4000_0000_0000_0000_0000_0000_0000_0000 <= a * c <= 0x4000_0000_0000_0000_0000_0000_0000_0000,
        -0x4000_0000_0000_0000_0000_0000_0000_0000 <= b * d <= 0x4000_0000_0000_0000_0000_0000_0000_0000,
{
    assert(-0x4000_0000_0000_0000_0000_0000_0000_0000 <= a * c <= 0x4000_0000_0000_0000_0000_0000_0000_0000) by (nonlinear_arith)
        requires
            -0x8000_0000_0000_0000 <= a <= 0x7fff_ffff_ffff_ffff,
            -0x8000_0000_0000_0000 <= c <= 0x7fff_ffff_ffff_ffff;
    assert(-0x4000_0000_0000_0000_0000_0000_0000_0000 <= b * d <= 0x4000_0000_0000_0000_0000_0000_0000_0000) by (nonlinear_arith)
        requires
            -0x8000_0000_0000_0000 <= b <= 0x7fff_ffff_ffff_ffff,
            -0x8000_0000_0000_0000 <= d <= 0x7fff_ffff_ffff_ffff;
}

/// A pair of components computed in 128 bits, as a complex number of `T`.
fn narrow_pair<T: Integer + Signed>(re: Option<i128>, im: Option<i128>) -> (r: Result<Complex<T>, NumError>)
    ensures
        (re is Some && im is Some) ==> r == complex_of::<T>(re.unwrap() as int, im.unwrap() as int),
        (re is None || im is None) ==> r == Err::<Complex<T>, NumError>(NumError::Overflow),
{
    match (re, im) {
        (Some(x), Some(y)) => {
            match (T::from_wide(x), T::from_wide(y)) {
                (Some(a), Some(b)) => {
                    proof {
                        a.lemma_model();
                        b.lemma_model();
                    }
                    Ok(Complex { re: a, im: b })
                },
                _ => Err(NumError::Overflow),
            }
        },
        _ => Err(NumError::Overflow),
    }
}

impl<T: Integer + Signed> Complex<T> {
    /// Create a new complex number.
    pub fn new(re: T, im: T) -> (r: Self)
        ensures
            r.re == re,
            r.im == im,
    {
        Complex { re, im }
    }

    /// The real unit `1 + 0i`.
    pub fn re() -> (r: Self)
        ensures
            r.re.val() == 1,
            r.im.val() == 0,
    {
        Complex { re: T::one(), im: T::zero() }
    }

    /// The imaginary unit `0 + 1i`.
    pub fn im() -> (r: Self)
        ensures
            r.re.val() == 0,
            r.im.val() == 1,
    {
        Complex { re: T::zero(), im: T::one() }
    }

    /// The imaginary unit `0 + 1i`.
    pub fn i() -> (r: Self)
        ensures
            r.re.val() == 0,
            r.im.val() == 1,
    {
        Self::im()
    }

    /// The complex number `re + 0i`.
    pub fn from_real(re: T) -> (r: Self)
        ensures
            r == (Complex { re, im: T::from_val(0) }),
            r.im.val() == 0,
    {
        Complex { re, im: T::zero() }
    }

    /// Square of the norm: `re^2 + im^2`.
    pub fn norm_sqr(&self) -> (r: Result<T, NumError>)
        ensures
            r matches Ok(n) ==> n.val() == norm_sqr_of(*self),
            r is Ok == in_range::<T>(norm_sqr_of(*self)),
            r matches Err(e) ==> e == NumError::Overflow,
    {
        let a = self.re.to_wide();
        let b = self.im.to_wide();
        proof {
            lemma_signed_bounds(self.re);
            lemma_signed_bounds(self.im);
            lemma_products(a as int, b as int, a as int, b as int);
        }
        match (a * a).checked_add(b * b) {
            Some(n) => match T::from_wide(n) {
                Some(v) => Ok(v),
                None => Err(NumError::Overflow),
            },
            None => {
                proof {
                    if in_range::<T>(norm_sqr_of(*self)) {
                        lemma_in_range_wide::<T>(norm_sqr_of(*self));
                    }
                }
                Err(NumError::Overflow)
            },
        }
    }

    /// Multiply by a scalar: `(re k, im k)`.
    pub fn scale(&self, k: T) -> (r: Result<Self, NumError>)
        ensures
            r == complex_of::<T>(self.re.val() * k.val(), self.im.val() * k.val()),
    {
        let kw = k.to_wide();
        proof {
            lemma_signed_bounds(self.re);
            lemma_signed_bounds(self.im);
            lemma_signed_bounds(k);
            lemma_products(self.re.val(), self.im.val(), k.val(), k.val());
        }
        narrow_pair(Some(self.re.to_wide() * kw), Some(self.im.to_wide() * kw))
    }

    /// Divide by a scalar: `(re / k, im / k)`, each rounded toward zero.
    pub fn unscale(&self, k: T) -> (r: Result<Self, NumError>)
        ensures
            k.val() == 0 ==> r == Err::<Self, NumError>(NumError::DivisionByZero),
            k.val() != 0 ==> r == complex_of::<T>(
                div_trunc(self.re.val(), k.val()),
                div_trunc(self.im.val(), k.val()),
            ),
    {
        if k.is_zero() {
            return Err(NumError::DivisionByZero);
        }
        let re = self.re.checked_div(k);
        let im = self.im.checked_div(k);
        match (re, im) {
            (Some(a), Some(b)) => {
                proof {
                    a.lemma_model();
                    b.lemma_model();
                }
                Ok(Complex { re: a, im: b })
            },
            _ => Err(NumError::Overflow),
        }
    }

    /// The complex conjugate `re - im i`.
    pub fn conj(&self) -> (r: Result<Self, NumError>)
        ensures
            r == conj_outcome(*self),
    {
        proof {
            lemma_signed_bounds(self.im);
        }
        narrow_pair(Some(self.re.to_wide()), Some(-self.im.to_wide()))
    }

    /// The negation `-re - im i`.
    pub fn neg(&self) -> (r: Result<Self, NumError>)
        ensures
            r == complex_of::<T>(-self.re.val(), -self.im.val()),
    {
        proof {
            lemma_signed_bounds(self.re);
            lemma_signed_bounds(self.im);
        }
        narrow_pair(Some(-self.re.to_wide()), Some(-self.im.to_wide()))
    }

    /// The inverse `conj(z) / |z|^2`, each component rounded toward zero.
    pub fn inv(&self) -> (r: Result<Self, NumError>)
        ensures
            r == inv_outcome(*self),
    {
        let n = match self.norm_sqr() {
            Ok(n) => n,
            Err(e) => {
                return Err(e);
            },
        };
        if n.is_zero() {
            return Err(NumError::DivisionByZero);
        }
        let nw = n.to_wide();
        proof {
            lemma_signed_bounds(self.re);
            lemma_signed_bounds(self.im);
            lemma_signed_bounds(n);
            assert(n.val() >= 0) by (nonlinear_arith)
                requires
                    n.val() == self.re.val() * self.re.val() + self.im.val() * self.im.val();
        }
        narrow_pair(wide_div(self.re.to_wide(), nw), wide_div(-self.im.to_wide(), nw))
    }

    /// The magnitude: the square root of `re^2 + im^2`, rounded down.
    pub fn norm(&self) -> (r: Result<T, NumError>)
        ensures
            r is Ok == in_range::<T>(norm_sqr_of(*self)),
            r matches Ok(s) ==> 0 <= s.val() && s.val() * s.val() <= norm_sqr_of(*self) < (s.val()
                + 1) * (s.val() + 1),
            r matches Err(e) ==> e == NumError::Overflow,
    {
        match self.norm_sqr() {
            Ok(n) => {
                proof {
                    assert(n.val() >= 0) by (nonlinear_arith)
                        requires
                            n.val() == self.re.val() * self.re.val() + self.im.val() * self.im.val();
                }
                match n.sqrt() {
                    Some(s) => Ok(s),
                    None => Err(NumError::Overflow),
                }
            },
            Err(e) => Err(e),
        }
    }

    /// The sum `a + b`.
    pub fn add(self, rhs: Self) -> (r: Result<Self, NumError>)
        ensures
            r == add_outcome(self, rhs),
    {
        proof {
            lemma_signed_bounds(self.re);
            lemma_signed_bounds(self.im);
            lemma_signed_bounds(rhs.re);
            lemma_signed_bounds(rhs.im);
        }
        narrow_pair(
            Some(self.re.to_wide() + rhs.re.to_wide()),
            Some(self.im.to_wide() + rhs.im.to_wide()),
        )
    }

    /// The difference `a - b`.
    pub fn sub(self, rhs: Self) -> (r: Result<Self, NumError>)
        ensures
            r == sub_outcome(self, rhs),
    {
        proof {
            lemma_signed_bounds(self.re);
            lemma_signed_bounds(self.im);
            lemma_signed_bounds(rhs.re);
            lemma_signed_bounds(rhs.im);
        }
        narrow_pair(
            Some(self.re.to_wide() - rhs.re.to_wide()),
            Some(self.im.to_wide() - rhs.im.to_wide()),
        )
    }

    /// The product `(ac - bd) + (ad + bc) i`.
    pub fn mul(self, rhs: Self) -> (r: Result<Self, NumError>)
        ensures
            r == mul_outcome(self, rhs),
    {
        let (a, b) = (self.re.to_wide(), self.im.to_wide());
        let (c, d) = (rhs.re.to_wide(), rhs.im.to_wide());
        proof {
            lemma_signed_bounds(self.re);
            lemma_signed_bounds(self.im);
            lemma_signed_bounds(rhs.re);
            lemma_signed_bounds(rhs.im);
            lemma_products(a as int, b as int, c as int, d as int);
            lemma_products(a as int, b as int, d as int, c as int);
        }
        let re = (a * c).checked_sub(b * d);
        let im = (a * d).checked_add(b * c);
        proof {
            let x = a * c - b * d;
            let y = a * d + b * c;
            if re is None && in_range::<T>(x) {
                lemma_in_range_wide::<T>(x);
            }
            if im is None && in_range::<T>(y) {
                lemma_in_range_wide::<T>(y);
            }
        }
        narrow_pair(re, im)
    }

    /// The quotient `a * conj(b) / |b|^2`, each component rounded toward zero.
    pub fn div(self, rhs: Self) -> (r: Result<Self, NumError>)
        ensures
            r == div_outcome(self, rhs),
    {
        let (a, b) = (self.re.to_wide(), self.im.to_wide());
        let (c, d) = (rhs.re.to_wide(), rhs.im.to_wide());
        proof {
            lemma_signed_bounds(self.re);
            lemma_signed_bounds(self.im);
            lemma_signed_bounds(rhs.re);
            lemma_signed_bounds(rhs.im);
            lemma_products(a as int, b as int, c as int, d as int);
            lemma_products(b as int, a as int, c as int, d as int);
            lemma_products(c as int, d as int, c as int, d as int);
        }
        if c == 0 && d == 0 {
            return Err(NumError::DivisionByZero);
        }
        proof {
            assert(c * c + d * d > 0) by (nonlinear_arith)
                requires c != 0 || d != 0;
        }
        let n = (c * c).checked_add(d * d);
        let x = (a * c).checked_add(b * d);
        let y = (b * c).checked_sub(a * d);
        match (n, x, y) {
            (Some(n), Some(x), Some(y)) => narrow_pair(wide_div(x, n), wide_div(y, n)),
            _ => Err(NumError::Overflow),
        }
    }
}

/// `x / n` rounded toward zero, for a positive `n`.
fn wide_div(x: i128, n: i128) -> (r: Option<i128>)
    requires
        n > 0,
    ensures
        r == Some(div_trunc(x as int, n as int) as i128),
        wide(div_trunc(x as int, n as int)),
{
    let q = x.checked_div(n);
    proof {
        assert(q is Some);
    }
    q
}

impl<T: Integer + Signed> From<T> for Complex<T> {
    /// The complex number `re + 0i`.
    fn from(re: T) -> Complex<T> {
        Complex::from_real(re)
    }
}

impl<T: Integer + Signed> vstd::std_specs::convert::FromSpecImpl<T> for Complex<T> {
    open spec fn obeys_from_spec() -> bool {
        true
    }

    open spec fn from_spec(re: T) -> Complex<T> {
        Complex { re, im: T::from_val(0) }
    }
}

impl<T: Integer + Signed> Default for Complex<T> {
    /// The complex zero `0 + 0i`.
    fn default() -> (r: Self)
        ensures
            r.re.val() == 0,
            r.im.val() == 0,
    {
        Complex { re: T::zero(), im: T::zero() }
    }
}

} // verus!
