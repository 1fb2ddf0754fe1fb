//! The capability hierarchy of numeric units.
//!
//! Every unit is modelled by the mathematical integer it stands for (`val`), together with
//! the width of its machine representation in bytes and its signedness. Each operation is
//! specified over that model: a checked operation returns `Some` exactly when the exact
//! mathematical result is representable, and then returns that result.
use vstd::prelude::*;

verus! {

/// `256^k`.
pub open spec fn pow256(k: nat) -> nat
    decreases k,
{
    if k == 0 {
        1
    } else {
        256 * pow256((k - 1) as nat)
    }
}

/// `b^e` over the integers.
pub open spec fn power(b: int, e: nat) -> int
    decreases e,
{
    if e == 0 {
        1
    } else {
        b * power(b, (e - 1) as nat)
    }
}

/// `2^e`.
pub open spec fn pow2(e: nat) -> int {
    power(2, e)
}

/// Smallest value of a representation of `width` bytes.
pub open spec fn min_of(width: nat, signed: bool) -> int {
    if signed {
        -(pow256(width) / 2)
    } else {
        0
    }
}

/// Largest value of a representation of `width` bytes.
pub open spec fn max_of(width: nat, signed: bool) -> int {
    if signed {
        pow256(width) / 2 - 1
    } else {
        pow256(width) - 1
    }
}

/// Whether `v` is representable in `width` bytes.
pub open spec fn fits(v: int, width: nat, signed: bool) -> bool {
    min_of(width, signed) <= v <= max_of(width, signed)
}

/// Whether `v` is representable by the unit type `T`.
pub open spec fn in_range<T: UnitOps>(v: int) -> bool {
    fits(v, T::width(), T::signed())
}

/// The value of `T` that stands for `v`, when there is one.
pub open spec fn fit<T: UnitOps>(v: int) -> Option<T> {
    if in_range::<T>(v) {
        Some(T::from_val(v))
    } else {
        None
    }
}

/// A result that is `Some` exactly when `v` is representable, and then stands for `v`, is
/// `fit::<T>(v)`.
pub proof fn lemma_fit<T: UnitOps>(r: Option<T>, v: int)
    requires
        (r is Some) == in_range::<T>(v),
        r matches Some(x) ==> x.val() == v,
    ensures
        r == fit::<T>(v),
{
    if let Some(x) = r {
        x.lemma_model();
    }
}

/// Division rounding toward zero, as machine integers divide.
pub open spec fn div_trunc(a: int, b: int) -> int {
    if a == 0 {
        0
    } else if a > 0 && b > 0 {
        a / b
    } else if a < 0 && b < 0 {
        (-a) / (-b)
    } else if a < 0 {
        -((-a) / b)
    } else {
        -(a / (-b))
    }
}

/// The unsigned bit pattern of `v` in two's complement over `width` bytes.
pub open spec fn to_bits_spec(v: int, width: nat) -> int {
    if v >= 0 {
        v
    } else {
        v + pow256(width)
    }
}

/// The value that the bit pattern `b` of `width` bytes stands for.
pub open spec fn from_bits_spec(b: int, width: nat, signed: bool) -> int {
    if signed && b >= pow256(width) / 2 {
        b - pow256(width)
    } else {
        b
    }
}

/// Elementary checked arithmetic over a unit's integer model.
pub trait UnitOps: Copy + Sized {
    /// The integer this value stands for.
    spec fn val(self) -> int;

    /// Width of the representation in bytes.
    spec fn width() -> nat;

    /// Whether the representation holds negative values.
    spec fn signed() -> bool;

    /// The value standing for the integer `v`; meaningful where `v` is in range.
    spec fn from_val(v: int) -> Self;

    proof fn lemma_model(self)
        ensures
            fits(self.val(), Self::width(), Self::signed()),
            Self::from_val(self.val()) == self,
    ;

    proof fn lemma_from_val(v: int)
        requires
            fits(v, Self::width(), Self::signed()),
        ensures
            Self::from_val(v).val() == v,
    ;

    proof fn lemma_width()
        ensures
            Self::width() == 1 || Self::width() == 2 || Self::width() == 4 || Self::width() == 8,
    ;

    fn eq_val(&self, other: &Self) -> (r: bool)
        ensures
            r == (self.val() == other.val()),
    ;

    fn checked_add(self, rhs: Self) -> (r: Option<Self>)
        ensures
            (r is Some) == fits(self.val() + rhs.val(), Self::width(), Self::signed()),
            r matches Some(x) ==> x.val() == self.val() + rhs.val(),
    ;

    fn checked_sub(self, rhs: Self) -> (r: Option<Self>)
        ensures
            (r is Some) == fits(self.val() - rhs.val(), Self::width(), Self::signed()),
            r matches Some(x) ==> x.val() == self.val() - rhs.val(),
    ;

    fn checked_mul(self, rhs: Self) -> (r: Option<Self>)
        ensures
            (r is Some) == fits(self.val() * rhs.val(), Self::width(), Self::signed()),
            r matches Some(x) ==> x.val() == self.val() * rhs.val(),
    ;

    /// Division rounding toward zero; `None` on a zero divisor or an unrepresentable quotient.
    fn checked_div(self, rhs: Self) -> (r: Option<Self>)
        ensures
            (r is Some) == (rhs.val() != 0 && fits(
                div_trunc(self.val(), rhs.val()),
                Self::width(),
                Self::signed(),
            )),
            r matches Some(x) ==> x.val() == div_trunc(self.val(), rhs.val()),
    ;

    /// The value widened to 128 bits.
    fn to_wide(self) -> (r: i128)
        ensures
            r == self.val(),
    ;

    /// The value of a 128-bit integer, when representable.
    fn from_wide(v: i128) -> (r: Option<Self>)
        ensures
            (r is Some) == fits(v as int, Self::width(), Self::signed()),
            r matches Some(x) ==> x.val() == v as int,
    ;
}

/// The additive identity.
pub trait Zero: UnitOps {
    /// The additive identity, as a constant.
    const ZERO: Self;

    proof fn lemma_zero()
        ensures
            Self::ZERO == Self::from_val(0),
            Self::ZERO.val() == 0,
    ;

    fn zero() -> (r: Self)
        ensures
            r == Self::from_val(0),
            r.val() == 0,
    {
        proof {
            Self::lemma_zero();
        }
        Self::ZERO
    }

    fn is_zero(&self) -> (r: bool)
        ensures
            r == (self.val() == 0),
    {
        self.eq_val(&Self::zero())
    }

    fn set_zero(&mut self)
        ensures
            final(self).val() == 0,
    {
        *self = Self::zero();
    }
}

/// The multiplicative identity.
pub trait One: UnitOps {
    /// The multiplicative identity, as a constant.
    const ONE: Self;

    proof fn lemma_one()
        ensures
            Self::ONE == Self::from_val(1),
            Self::ONE.val() == 1,
    ;

    fn one() -> (r: Self)
        ensures
            r == Self::from_val(1),
            r.val() == 1,
    {
        proof {
            Self::lemma_one();
        }
        Self::ONE
    }

    fn is_one(&self) -> (r: bool)
        ensures
            r == (self.val() == 1),
    {
        self.eq_val(&Self::one())
    }

    fn set_one(&mut self)
        ensures
            final(self).val() == 1,
    {
        *self = Self::one();
    }

    /// `1 / self`, rounded toward zero; `None` for zero.
    fn recip(self) -> (r: Option<Self>)
        ensures
            r == (if self.val() == 0 {
                None
            } else {
                fit::<Self>(div_trunc(1, self.val()))
            }),
    {
        let r = Self::one().checked_div(self);
        proof {
            if self.val() != 0 {
                lemma_fit::<Self>(r, div_trunc(1, self.val()));
            }
        }
        r
    }
}

/// The exact multiplicative inverse, where the type has one.
pub trait Inv: UnitOps {
    /// The inverse of `x`, where it exists in the type.
    spec fn inv_spec(x: Self) -> Option<Self>;

    fn inv(self) -> (r: Option<Self>)
        ensures
            r == Self::inv_spec(self),
    ;

    proof fn lemma_inv_involutive(x: Self)
        ensures
            Self::inv_spec(x) matches Some(y) ==> Self::inv_spec(y) == Some(x),
    ;
}

/// Ordering w.r.t. the type itself.
pub trait Ordered: UnitOps {
    fn min(self, other: Self) -> (r: Self)
        ensures
            r == (if self.val() <= other.val() {
                self
            } else {
                other
            }),
    ;

    fn max(self, other: Self) -> (r: Self)
        ensures
            r == (if self.val() >= other.val() {
                self
            } else {
                other
            }),
    ;

    fn clamp(self, lo: Self, hi: Self) -> (r: Self)
        requires
            lo.val() <= hi.val(),
        ensures
            r == (if self.val() < lo.val() {
                lo
            } else if self.val() > hi.val() {
                hi
            } else {
                self
            }),
            lo.val() <= r.val() <= hi.val(),
    ;
}

/// Bounds on the representable values.
pub trait Bounded: UnitOps {
    /// The smallest value, as a constant.
    const MIN: Self;

    /// The largest value, as a constant.
    const MAX: Self;

    proof fn lemma_bounds()
        ensures
            Self::MIN.val() == min_of(Self::width(), Self::signed()),
            Self::MAX.val() == max_of(Self::width(), Self::signed()),
    ;

    fn min_value() -> (r: Self)
        ensures
            r.val() == min_of(Self::width(), Self::signed()),
    {
        proof {
            Self::lemma_bounds();
        }
        Self::MIN
    }

    fn max_value() -> (r: Self)
        ensures
            r.val() == max_of(Self::width(), Self::signed()),
    {
        proof {
            Self::lemma_bounds();
        }
        Self::MAX
    }
}

/// Units that hold negative values.
pub trait Signed: UnitOps + PhysicalRepr {
    proof fn lemma_signed()
        ensures
            Self::signed(),
    ;

    /// The value `-1`, as a constant.
    const NEG_ONE: Self;

    /// The bit pattern that isolates the sign bit, as a constant.
    const SIGN_MASK: Self::BitsRepr;

    proof fn lemma_signed_constants()
        ensures
            Self::NEG_ONE.val() == -1,
            Self::SIGN_MASK.val() == pow256(Self::width()) / 2,
    ;

    fn neg_one() -> (r: Self)
        ensures
            r.val() == -1,
    {
        proof {
            Self::lemma_signed_constants();
        }
        Self::NEG_ONE
    }

    /// The bit pattern that isolates the sign bit.
    fn sign_mask() -> (r: Self::BitsRepr)
        ensures
            r.val() == pow256(Self::width()) / 2,
    {
        proof {
            Self::lemma_signed_constants();
        }
        Self::SIGN_MASK
    }

    fn checked_neg(self) -> (r: Option<Self>)
        ensures
            r == fit::<Self>(-self.val()),
    ;

    fn abs(self) -> (r: Option<Self>)
        ensures
            r == fit::<Self>(if self.val() < 0 {
                -self.val()
            } else {
                self.val()
            }),
    ;

    fn signum(self) -> (r: Self)
        ensures
            r.val() == (if self.val() > 0 {
                1int
            } else if self.val() < 0 {
                -1int
            } else {
                0int
            }),
    ;

    fn is_positive(self) -> (r: bool)
        ensures
            r == (self.val() > 0),
    ;

    fn is_negative(self) -> (r: bool)
        ensures
            r == (self.val() < 0),
    ;
}

/// Reinterpretation between a unit and its raw bits and bytes.
pub trait PhysicalRepr: UnitOps {
    /// Unsigned integer of the same width.
    type BitsRepr: UnitOps;

    proof fn lemma_bits_repr()
        ensures
            <Self::BitsRepr as UnitOps>::width() == Self::width(),
            !<Self::BitsRepr as UnitOps>::signed(),
    ;

    /// Bits of the representation, as a constant.
    const BITS: u32;

    /// Bytes of the representation, as a constant.
    const BYTES: usize;

    proof fn lemma_sizes()
        ensures
            Self::BITS == 8 * Self::width(),
            Self::BYTES == Self::width(),
    ;

    fn bit_width() -> (r: u32)
        ensures
            r == 8 * Self::width(),
    {
        proof {
            Self::lemma_sizes();
        }
        Self::BITS
    }

    fn byte_width() -> (r: usize)
        ensures
            r == Self::width(),
    {
        proof {
            Self::lemma_sizes();
        }
        Self::BYTES
    }

    fn to_bits(self) -> (r: Self::BitsRepr)
        ensures
            r.val() == to_bits_spec(self.val(), Self::width()),
    ;

    fn from_bits(b: Self::BitsRepr) -> (r: Self)
        ensures
            r.val() == from_bits_spec(b.val(), Self::width(), Self::signed()),
    ;

    /// Bytes of the representation, most significant first.
    fn to_be_bytes(self) -> (r: Vec<u8>)
        ensures
            r@.len() == Self::width(),
            crate::bytes::be_value(r@) == to_bits_spec(self.val(), Self::width()),
    ;

    /// Bytes of the representation, least significant first.
    fn to_le_bytes(self) -> (r: Vec<u8>)
        ensures
            r@.len() == Self::width(),
            crate::bytes::le_value(r@) == to_bits_spec(self.val(), Self::width()),
    ;

    fn from_be_bytes(bytes: &[u8]) -> (r: Self)
        requires
            bytes@.len() == Self::width(),
        ensures
            r.val() == from_bits_spec(crate::bytes::be_value(bytes@), Self::width(), Self::signed()),
    ;

    fn from_le_bytes(bytes: &[u8]) -> (r: Self)
        requires
            bytes@.len() == Self::width(),
        ensures
            r.val() == from_bits_spec(crate::bytes::le_value(bytes@), Self::width(), Self::signed()),
    ;
}

/// Integer powers and roots.
pub trait Exp: UnitOps + One {
    /// `self^e`, when representable.
    fn pow(self, e: u32) -> (r: Option<Self>)
        ensures
            r == fit::<Self>(power(self.val(), e as nat)),
    {
        let mut acc = Self::one();
        let mut i: u32 = 0;
        while i < e
            invariant
                i <= e,
                acc.val() == power(self.val(), i as nat),
            decreases e - i,
        {
            match acc.checked_mul(self) {
                Some(next) => {
                    proof {
                        Self::lemma_from_val(acc.val() * self.val());
                        assert(power(self.val(), (i + 1) as nat) == self.val() * power(self.val(), i as nat));
                    }
                    acc = next;
                    i = i + 1;
                },
                None => {
                    proof {
                        self.lemma_model();
                        acc.lemma_model();
                        lemma_power_escapes::<Self>(self.val(), i as nat, e as nat);
                    }
                    return None;
                },
            }
        }
        proof {
            acc.lemma_model();
        }
        Some(acc)
    }

    /// `self^2`, when representable.
    fn sq(self) -> (r: Option<Self>)
        ensures
            r == fit::<Self>(self.val() * self.val()),
    {
        let r = self.checked_mul(self);
        proof {
            lemma_fit::<Self>(r, self.val() * self.val());
        }
        r
    }

    /// `self^3`, when representable.
    fn cb(self) -> (r: Option<Self>)
        ensures
            r == fit::<Self>(self.val() * self.val() * self.val()),
    {
        proof {
            let b = self.val();
            assert(power(b, 0) == 1);
            assert(power(b, 1) == b);
            assert(power(b, 2) == b * b);
            assert(power(b, 3) == b * (b * b));
            assert(b * (b * b) == b * b * b) by (nonlinear_arith);
        }
        self.pow(3)
    }

    /// The `k`-th root, rounded toward zero; `None` for `k == 0` and for even roots of
    /// negative values.
    fn root(self, k: u32) -> (r: Option<Self>)
        ensures
            (r is Some) == (k >= 1 && (self.val() >= 0 || k % 2 == 1)),
            r matches Some(s) ==> is_root_toward_zero(s.val(), self.val(), k as nat),
    ;

    /// The cube root, rounded toward zero.
    fn cbrt(self) -> (r: Self)
        ensures
            is_root_toward_zero(r.val(), self.val(), 3),
    {
        match self.root(3) {
            Some(s) => s,
            None => {
                proof {
                    assert(3u32 % 2 == 1);
                }
                self
            },
        }
    }

    /// The integer square root (rounded down); `None` for negative values.
    fn sqrt(self) -> (r: Option<Self>)
        ensures
            self.val() < 0 ==> r is None,
            self.val() >= 0 ==> (r matches Some(s) && 0 <= s.val() && s.val() * s.val() <= self.val()
                < (s.val() + 1) * (s.val() + 1)),
    ;
}

/// `s` is the `k`-th root of `v`, rounded toward zero.
pub open spec fn is_root_toward_zero(s: int, v: int, k: nat) -> bool {
    if v >= 0 {
        0 <= s && power(s, k) <= v < power(s + 1, k)
    } else {
        s <= 0 && power(-s, k) <= -v < power(-s + 1, k)
    }
}

/// Units: values with identities, inverses and a raw representation.
pub trait Unit: Zero + One + Inv + PhysicalRepr {}

/// Bit operations on the two's-complement (or unsigned) representation.
pub trait Bitwise: UnitOps {
    spec fn not_spec(x: Self) -> Self;

    spec fn and_spec(x: Self, y: Self) -> Self;

    spec fn or_spec(x: Self, y: Self) -> Self;

    spec fn xor_spec(x: Self, y: Self) -> Self;

    spec fn shl_spec(x: Self, k: u32) -> Self;

    spec fn shr_spec(x: Self, k: u32) -> Self;

    fn bit_not(self) -> (r: Self)
        ensures
            r == Self::not_spec(self),
    ;

    fn bit_and(self, rhs: Self) -> (r: Self)
        ensures
            r == Self::and_spec(self, rhs),
    ;

    fn bit_or(self, rhs: Self) -> (r: Self)
        ensures
            r == Self::or_spec(self, rhs),
    ;

    fn bit_xor(self, rhs: Self) -> (r: Self)
        ensures
            r == Self::xor_spec(self, rhs),
    ;

    /// Shift left by `k` bits, dropping the bits shifted out; `None` when `k` is not below
    /// the bit width.
    fn checked_shl(self, k: u32) -> (r: Option<Self>)
        ensures
            r == (if k < 8 * Self::width() {
                Some(Self::shl_spec(self, k))
            } else {
                None
            }),
    ;

    /// Shift right by `k` bits (arithmetic for signed values); `None` when `k` is not below
    /// the bit width.
    fn checked_shr(self, k: u32) -> (r: Option<Self>)
        ensures
            r == (if k < 8 * Self::width() {
                Some(Self::shr_spec(self, k))
            } else {
                None
            }),
    ;
}

/// Machine integers.
pub trait Integer: Unit + Ordered + Bounded + Bitwise + Exp + crate::cast::CastPrimitive {}

/// Units that are both bounded and signed.
pub trait BoundedSigned: Bounded + Signed {}

/// Once a power of `b` leaves the range of `T`, every later power stays out of it.
pub proof fn lemma_power_escapes<T: UnitOps>(b: int, i: nat, e: nat)
    requires
        i < e,
        in_range::<T>(b),
        in_range::<T>(power(b, i)),
        !in_range::<T>(b * power(b, i)),
    ensures
        !in_range::<T>(power(b, e)),
    decreases e,
{
    T::lemma_width();
    lemma_pow256_even(T::width());
    let m = pow256(T::width()) as int;
    if e == i + 1 {
        assert(power(b, e) == b * power(b, i));
    } else {
        lemma_power_escapes::<T>(b, i, (e - 1) as nat);
        let p = power(b, (e - 1) as nat);
        assert(power(b, e) == b * p);
        lemma_power_magnitude(b, i);
        lemma_power_magnitude(b, (e - 1) as nat);
        if !T::signed() {
            lemma_power_nonneg(b, (e - 1) as nat);
        }
        // p is out of range, so |p| >= m / 2; and |b| >= 2 (the powers of -1, 0, 1 stay in range)
        let ap = if p < 0 { -p } else { p };
        let ab = if b < 0 { -b } else { b };
        assert(ap >= m / 2);
        assert(ab >= 2);
        assert(ab * ap >= 2 * (m / 2)) by (nonlinear_arith)
            requires ab >= 2, ap >= m / 2, m / 2 >= 0;
        if b >= 0 {
            if p >= 0 {
                assert(b * p == ab * ap);
            } else {
                assert(b * p == -(ab * ap)) by (nonlinear_arith)
                    requires ab == b, ap == -p;
            }
        } else {
            if p >= 0 {
                assert(b * p == -(ab * ap)) by (nonlinear_arith)
                    requires ab == -b, ap == p;
            } else {
                assert(b * p == ab * ap) by (nonlinear_arith)
                    requires ab == -b, ap == -p;
            }
        }
    }
}

/// `256^k` for the widths in use.
pub(crate) proof fn lemma_pow256_values()
    ensures
        pow256(0) == 1,
        pow256(1) == 256,
        pow256(2) == 65536,
        pow256(4) == 4294967296,
        pow256(8) == 18446744073709551616,
{
    reveal_with_fuel(pow256, 9);
}

proof fn lemma_pow256_even(w: nat)
    requires
        w >= 1,
    ensures
        pow256(w) >= 256,
        pow256(w) == 2 * (pow256(w) / 2),
    decreases w,
{
    assert(pow256(0) == 1);
    if w > 1 {
        lemma_pow256_even((w - 1) as nat);
    }
}

/// The powers of `0`, `1` and `-1` stay within `{-1, 0, 1}`.
proof fn lemma_power_magnitude(b: int, i: nat)
    ensures
        b == 0 ==> (power(b, i) == 0 || power(b, i) == 1),
        b == 1 ==> power(b, i) == 1,
        b == -1 ==> (power(b, i) == 1 || power(b, i) == -1),
    decreases i,
{
    if i > 0 {
        lemma_power_magnitude(b, (i - 1) as nat);
    }
}

proof fn lemma_power_nonneg(b: int, i: nat)
    requires
        b >= 0,
    ensures
        power(b, i) >= 0,
    decreases i,
{
    if i > 0 {
        lemma_power_nonneg(b, (i - 1) as nat);
        assert(b * power(b, (i - 1) as nat) >= 0) by (nonlinear_arith)
            requires b >= 0, power(b, (i - 1) as nat) >= 0;
    }
}

} // verus!
