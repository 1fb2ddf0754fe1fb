//! Fixed-point reals: a signed integer `raw` standing for `raw / 2^f`, where the number `f`
//! of fractional bits is half the width of the representation (8 for 16 bits, 16 for 32,
//! 32 for 64).
//!
//! Operands of different widths are aligned to the larger scale before they combine, and
//! the result is held at that scale. Every step is exact in 128 bits; a result that does
//! not fit its representation is reported as `Overflow`, never wrapped.
use vstd::prelude::*;
use crate::complex::lemma_signed_bounds;
use crate::errors::NumError;
use crate::units::{div_trunc, in_range, pow2, power, Integer, PhysicalRepr, Signed, UnitOps, Zero};

verus! {

/// Fixed-point real number over the signed integer representation `T`.
#[derive(Clone, Copy, Debug, PartialEq, Eq)]
pub struct Real<T> {
    /// The scaled integer.
    pub raw: T,
}

/// Number of fractional bits of a fixed-point value over `T`.
pub open spec fn frac<T: UnitOps>() -> nat {
    T::width() * 4
}

/// The larger of two scales.
pub open spec fn max_scale(a: nat, b: nat) -> nat {
    if a >= b {
        a
    } else {
        b
    }
}

/// The smaller of two scales.
pub open spec fn min_scale(a: nat, b: nat) -> nat {
    if a <= b {
        a
    } else {
        b
    }
}

/// The raw integer of `x` moved to the scale `s`.
pub open spec fn aligned<T: UnitOps>(x: Real<T>, s: nat) -> int {
    x.raw.val() * pow2((s - frac::<T>()) as nat)
}

/// The fixed-point value of `O` with the raw integer `raw`, or `Overflow` when it does not fit.
pub open spec fn real_of<O: UnitOps>(raw: int) -> Result<Real<O>, NumError> {
    if in_range::<O>(raw) {
        Ok(Real { raw: O::from_val(raw) })
    } else {
        Err(NumError::Overflow)
    }
}

/// The outcome of `a + b` at the scale of `O`.
pub open spec fn fixed_add_outcome<T: UnitOps, U: UnitOps, O: UnitOps>(a: Real<T>, b: Real<U>) -> Result<Real<O>, NumError> {
    real_of::<O>(aligned(a, frac::<O>()) + aligned(b, frac::<O>()))
}

/// The outcome of `a - b` at the scale of `O`.
pub open spec fn fixed_sub_outcome<T: UnitOps, U: UnitOps, O: UnitOps>(a: Real<T>, b: Real<U>) -> Result<Real<O>, NumError> {
    real_of::<O>(aligned(a, frac::<O>()) - aligned(b, frac::<O>()))
}

/// The outcome of `a * b`: the product of the raw integers has the scale `fa + fb`, and is
/// shifted right (rounding down) by the smaller scale, which leaves the larger one.
pub open spec fn fixed_mul_outcome<T: UnitOps, U: UnitOps, O: UnitOps>(a: Real<T>, b: Real<U>) -> Result<Real<O>, NumError> {
    real_of::<O>((a.raw.val() * b.raw.val()) / pow2(min_scale(frac::<T>(), frac::<U>())))
}

/// The outcome of `a / b`: the aligned dividend is shifted left by the common scale, then
/// divided by the aligned divisor, rounding toward zero.
pub open spec fn fixed_div_outcome<T: UnitOps, U: UnitOps, O: UnitOps>(a: Real<T>, b: Real<U>) -> Result<Real<O>, NumError> {
    if b.raw.val() == 0 {
        Err(NumError::DivisionByZero)
    } else {
        real_of::<O>(
            div_trunc(aligned(a, frac::<O>()) * pow2(frac::<O>()), aligned(b, frac::<O>())),
        )
    }
}

/// `2^k` for the shifts in use.
fn pow2_wide(k: u32) -> (r: i128)
    requires
        k <= 32,
    ensures
        r == pow2(k as nat),
        1 <= r <= 0x1_0000_0000,
{
    let mut r: i128 = 1;
    let mut i: u32 = 0;
    proof {
        lemma_pow2_32();
    }
    while i < k
        invariant
            i <= k <= 32,
            r == pow2(i as nat),
            1 <= r,
            pow2(32) == 0x1_0000_0000,
        decreases k - i,
    {
        proof {
            lemma_pow2_step(i as nat);
            lemma_pow2_mono(i as nat, 31);
            lemma_pow2_step(31);
        }
        r = r * 2;
        i = i + 1;
    }
    proof {
        lemma_pow2_mono(k as nat, 32);
    }
    r
}

proof fn lemma_pow2_32()
    ensures
        pow2(32) == 0x1_0000_0000,
{
    reveal_with_fuel(power, 33);
}

proof fn lemma_pow2_pos(k: nat)
    ensures
        pow2(k) >= 1,
    decreases k,
{
    if k > 0 {
        lemma_pow2_pos((k - 1) as nat);
        assert(pow2(k) == 2 * pow2((k - 1) as nat));
    }
}

proof fn lemma_pow2_step(k: nat)
    ensures
        pow2(k + 1) == 2 * pow2(k),
{
    assert(power(2, k + 1) == 2 * power(2, k));
}

/// The scale of a fixed-point value over a signed unit: 4, 8, 16 or 32 bits.
proof fn lemma_frac<T: Integer + Signed>()
    ensures
        frac::<T>() == 4 || frac::<T>() == 8 || frac::<T>() == 16 || frac::<T>() == 32,
{
    T::lemma_width();
}

/// The fractional bits of a value over `T`, as computed at run time.
fn frac_bits_of<T: Integer + Signed>() -> (r: u32)
    ensures
        r == frac::<T>(),
{
    proof {
        T::lemma_width();
    }
    (T::byte_width() * 4) as u32
}

/// `2^f` fits a signed representation of `2f` bits.
proof fn lemma_one_fits<T: Integer + Signed>()
    ensures
        in_range::<T>(pow2(frac::<T>())),
{
    T::lemma_width();
    T::lemma_signed();
    crate::units::lemma_pow256_values();
    assert(pow2(4) == 16) by {
        reveal_with_fuel(power, 5);
    }
    assert(pow2(8) == 256) by {
        reveal_with_fuel(power, 9);
    }
    assert(pow2(16) == 65536) by {
        reveal_with_fuel(power, 17);
    }
    lemma_pow2_32();
}

/// A raw integer computed in 128 bits, as a fixed-point value of `O`.
fn narrow_real<O: Integer + Signed>(v: i128) -> (r: Result<Real<O>, NumError>)
    ensures
        r == real_of::<O>(v as int),
{
    match O::from_wide(v) {
        Some(x) => {
            proof {
                x.lemma_model();
            }
            Ok(Real { raw: x })
        },
        None => Err(NumError::Overflow),
    }
}

/// `x / d` rounded down, for a positive `d`.
fn floor_div(x: i128, d: i128) -> (r: i128)
    requires
        d > 0,
    ensures
        r == x as int / d as int,
{
    if x >= 0 {
        x / d
    } else {
        let y: i128 = -(x + 1);
        let q: i128 = y / d;
        proof {
            let rem = y as int % d as int;
            vstd::arithmetic::div_mod::lemma_fundamental_div_mod(y as int, d as int);
            assert(0 <= rem < d);
            assert(x as int == (-q - 1) * d + (d - rem - 1)) by (nonlinear_arith)
                requires
                    y == -(x + 1),
                    y as int == d * q + rem;
            vstd::arithmetic::div_mod::lemma_fundamental_div_mod_converse(
                x as int,
                d as int,
                -q - 1,
                d - rem - 1,
            );
            assert(q >= 0);
        }
        -q - 1
    }
}

/// Bound on a raw integer moved to a larger scale.
proof fn lemma_aligned_bound(v: int, p: int)
    requires
        -0x8000_0000_0000_0000 <= v <= 0x7fff_ffff_ffff_ffff,
        1 <= p <= 0x1000_0000,
    ensures
        -0x800_0000_0000_0000_0000_0000 <= v * p <= 0x800_0000_0000_0000_0000_0000,
{
    assert(-0x800_0000_0000_0000_0000_0000 <= v * p <= 0x800_0000_0000_0000_0000_0000) by (nonlinear_arith)
        requires
            -0x8000_0000_0000_0000 <= v <= 0x7fff_ffff_ffff_ffff,
            1 <= p <= 0x1000_0000;
}

/// The power of two that moves a value of scale `f` to scale `s`.
fn shift_factor(f: u32, s: u32) -> (r: i128)
    requires
        4 <= f <= s <= 32,
    ensures
        r == pow2((s - f) as nat),
        1 <= r <= 0x1000_0000,
{
    let r = pow2_wide(s - f);
    proof {
        lemma_pow2_mono((s - f) as nat, 28);
        assert(pow2(28) == 0x1000_0000) by {
            reveal_with_fuel(power, 29);
        }
    }
    r
}

proof fn lemma_pow2_mono(a: nat, b: nat)
    requires
        a <= b,
    ensures
        pow2(a) <= pow2(b),
    decreases b,
{
    if a < b {
        lemma_pow2_mono(a, (b - 1) as nat);
        lemma_pow2_pos((b - 1) as nat);
        lemma_pow2_step((b - 1) as nat);
    }
}

impl<T: Integer + Signed> Real<T> {
    /// Create a fixed-point value from its scaled integer.
    pub fn new(raw: T) -> (r: Self)
        ensures
            r.raw == raw,
    {
        Real { raw }
    }

    /// The scaled integer.
    pub fn raw(&self) -> (r: T)
        ensures
            r == self.raw,
    {
        self.raw
    }

    /// Number of fractional bits of this representation.
    pub fn frac_bits() -> (r: u32)
        ensures
            r == frac::<T>(),
    {
        frac_bits_of::<T>()
    }

    /// The sum, at the larger of the two scales.
    pub fn add<U: Integer + Signed, O: Integer + Signed>(self, rhs: Real<U>) -> (r: Result<Real<O>, NumError>)
        requires
            frac::<O>() == max_scale(frac::<T>(), frac::<U>()),
        ensures
            r == fixed_add_outcome::<T, U, O>(self, rhs),
    {
        let (x, y) = self.align_with(rhs);
        narrow_real(x + y)
    }

    /// The difference, at the larger of the two scales.
    pub fn sub<U: Integer + Signed, O: Integer + Signed>(self, rhs: Real<U>) -> (r: Result<Real<O>, NumError>)
        requires
            frac::<O>() == max_scale(frac::<T>(), frac::<U>()),
        ensures
            r == fixed_sub_outcome::<T, U, O>(self, rhs),
    {
        let (x, y) = self.align_with(rhs);
        narrow_real(x - y)
    }

    /// The product, at the larger of the two scales.
    pub fn mul<U: Integer + Signed, O: Integer + Signed>(self, rhs: Real<U>) -> (r: Result<Real<O>, NumError>)
        requires
            frac::<O>() == max_scale(frac::<T>(), frac::<U>()),
        ensures
            r == fixed_mul_outcome::<T, U, O>(self, rhs),
    {
        let fa = frac_bits_of::<T>();
        let fb = frac_bits_of::<U>();
        let m = if fa <= fb {
            fa
        } else {
            fb
        };
        proof {
            lemma_frac::<T>();
            lemma_frac::<U>();
            lemma_signed_bounds(self.raw);
            lemma_signed_bounds(rhs.raw);
            let a = self.raw.val();
            let b = rhs.raw.val();
            assert(-0x4000_0000_0000_0000_0000_0000_0000_0000 <= a * b <= 0x4000_0000_0000_0000_0000_0000_0000_0000) by (nonlinear_arith)
                requires
                    -0x8000_0000_0000_0000 <= a <= 0x7fff_ffff_ffff_ffff,
                    -0x8000_0000_0000_0000 <= b <= 0x7fff_ffff_ffff_ffff;
            lemma_pow2_pos(m as nat);
        }
        let p = pow2_wide(m);
        let prod = self.raw.to_wide() * rhs.raw.to_wide();
        narrow_real(floor_div(prod, p))
    }

    /// The quotient, at the larger of the two scales, rounded toward zero.
    pub fn div<U: Integer + Signed, O: Integer + Signed>(self, rhs: Real<U>) -> (r: Result<Real<O>, NumError>)
        requires
            frac::<O>() == max_scale(frac::<T>(), frac::<U>()),
        ensures
            r == fixed_div_outcome::<T, U, O>(self, rhs),
    {
        if rhs.raw.is_zero() {
            return Err(NumError::DivisionByZero);
        }
        let (x, y) = self.align_with(rhs);
        let s = frac_bits_of::<O>();
        proof {
            lemma_frac::<O>();
            lemma_pow2_32();
            lemma_pow2_mono(s as nat, 32);
        }
        let p = pow2_wide(s);
        proof {
            assert(-0x800_0000_0000_0000_0000_0000_0000_0000 <= x * p <= 0x800_0000_0000_0000_0000_0000_0000_0000) by (nonlinear_arith)
                requires
                    -0x800_0000_0000_0000_0000_0000 <= x <= 0x800_0000_0000_0000_0000_0000,
                    1 <= p <= 0x1_0000_0000;
            lemma_pow2_pos((s - frac::<U>()) as nat);
            let b = rhs.raw.val();
            let q = pow2((s - frac::<U>()) as nat);
            assert(y != 0) by (nonlinear_arith)
                requires
                    y == b * q,
                    b != 0,
                    q >= 1;
        }
        let num = x * p;
        let q = if y > 0 {
            wide_div_trunc(num, y)
        } else {
            wide_div_trunc(-num, -y)
        };
        proof {
            if y < 0 {
                assert(div_trunc(-num as int, -y as int) == div_trunc(num as int, y as int));
            }
        }
        narrow_real(q)
    }

    /// The value `1` of this representation: `2^f` as a raw integer.
    pub fn one() -> (r: Self)
        ensures
            r.raw.val() == pow2(frac::<T>()),
    {
        let f = frac_bits_of::<T>();
        proof {
            lemma_frac::<T>();
            lemma_one_fits::<T>();
        }
        let p = pow2_wide(f);
        match T::from_wide(p) {
            Some(raw) => Real { raw },
            None => {
                proof {
                    assert(false);
                }
                Real { raw: T::zero() }
            },
        }
    }

    /// The inverse `1 / self`, rounded toward zero; `DivisionByZero` for zero.
    pub fn inv(self) -> (r: Result<Self, NumError>)
        ensures
            self.raw.val() == 0 ==> r == Err::<Self, NumError>(NumError::DivisionByZero),
            self.raw.val() != 0 ==> r == real_of::<T>(
                div_trunc(pow2(frac::<T>()) * pow2(frac::<T>()), self.raw.val()),
            ),
    {
        let r = Self::one().div::<T, T>(self);
        proof {
            let f = frac::<T>();
            assert((f - f) as nat == 0);
            assert(pow2(0) == 1) by {
                reveal_with_fuel(power, 1);
            }
        }
        r
    }

    /// The raw integers of `self` and `rhs` moved to the larger of their scales.
    fn align_with<U: Integer + Signed>(self, rhs: Real<U>) -> (r: (i128, i128))
        ensures
            r.0 == aligned(self, max_scale(frac::<T>(), frac::<U>())),
            r.1 == aligned(rhs, max_scale(frac::<T>(), frac::<U>())),
            -0x800_0000_0000_0000_0000_0000 <= r.0 <= 0x800_0000_0000_0000_0000_0000,
            -0x800_0000_0000_0000_0000_0000 <= r.1 <= 0x800_0000_0000_0000_0000_0000,
    {
        let fa = frac_bits_of::<T>();
        let fb = frac_bits_of::<U>();
        let s = if fa >= fb {
            fa
        } else {
            fb
        };
        proof {
            lemma_frac::<T>();
            lemma_frac::<U>();
            lemma_signed_bounds(self.raw);
            lemma_signed_bounds(rhs.raw);
        }
        let pa = shift_factor(fa, s);
        let pb = shift_factor(fb, s);
        proof {
            lemma_aligned_bound(self.raw.val(), pa as int);
            lemma_aligned_bound(rhs.raw.val(), pb as int);
        }
        (self.raw.to_wide() * pa, rhs.raw.to_wide() * pb)
    }
}

/// `x / d` rounded toward zero, for a positive `d`.
fn wide_div_trunc(x: i128, d: i128) -> (r: i128)
    requires
        d > 0,
        x > i128::MIN,
    ensures
        r == div_trunc(x as int, d as int),
{
    if x >= 0 {
        x / d
    } else {
        let q: i128 = (-x) / d;
        proof {
            vstd::arithmetic::div_mod::lemma_div_is_ordered(0, -x as int, d as int);
        }
        -q
    }
}

} // verus!
