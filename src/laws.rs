//! Algebraic laws of the units, stated over the models that the operations' contracts use.
use vstd::prelude::*;
use crate::complex::{
    add_outcome, complex_of, conj_outcome, inv_outcome, mul_outcome, norm_sqr_of, Complex,
};
use crate::bytes::{be_value, le_value};
use crate::fixed::{fixed_add_outcome, real_of, Real};
use crate::units::{
    fit, from_bits_spec, in_range, lemma_pow256_values, pow2, pow256, power, to_bits_spec,
    Integer, Inv, PhysicalRepr, Signed, UnitOps,
};

verus! {

/// Identity laws: `x + 0 == x`, `x * 1 == x` and `x - x == 0`, where `zero` and `one` are the
/// values that `Zero::zero` and `One::one` return.
pub proof fn law_identities<T: UnitOps>(x: T, zero: T, one: T)
    requires
        zero.val() == 0,
        one.val() == 1,
    ensures
        fit::<T>(x.val() + zero.val()) == Some(x),
        fit::<T>(x.val() * one.val()) == Some(x),
        fit::<T>(x.val() - x.val()) == Some(zero),
{
    x.lemma_model();
    zero.lemma_model();
}

/// Bit round trip: reading back the bit pattern of `x` gives `x`, and the pattern fits the
/// unsigned representation of the same width. The byte encodings in either order carry
/// exactly that pattern, so reading back the bytes of `x` gives `x` as well.
pub proof fn law_bits_round_trip<T: PhysicalRepr>(x: T)
    ensures
        0 <= to_bits_spec(x.val(), T::width()) < pow256(T::width()),
        from_bits_spec(to_bits_spec(x.val(), T::width()), T::width(), T::signed()) == x.val(),
{
    x.lemma_model();
    T::lemma_width();
    lemma_pow256_values();
}

/// Byte round trip: bytes that `to_be_bytes` or `to_le_bytes` hand out for `x` are read back
/// by `from_be_bytes` or `from_le_bytes` as `x`.
pub proof fn law_bytes_round_trip<T: PhysicalRepr>(x: T, be: Seq<u8>, le: Seq<u8>)
    requires
        be.len() == T::width(),
        be_value(be) == to_bits_spec(x.val(), T::width()),
        le.len() == T::width(),
        le_value(le) == to_bits_spec(x.val(), T::width()),
    ensures
        from_bits_spec(be_value(be), T::width(), T::signed()) == x.val(),
        from_bits_spec(le_value(le), T::width(), T::signed()) == x.val(),
{
    law_bits_round_trip(x);
}

/// Inverse law: where `x` has an inverse `y`, the inverse of `y` is `x`.
pub proof fn law_inverse<T: Inv>(x: T)
    requires
        x.val() != 0,
    ensures
        T::inv_spec(x) matches Some(y) ==> T::inv_spec(y) == Some(x),
{
    T::lemma_inv_involutive(x);
}

/// The conjugate of the conjugate of `z` is `z`, wherever the first conjugate exists.
pub proof fn law_conj_involutive<T: Integer + Signed>(z: Complex<T>)
    ensures
        conj_outcome(z) matches Ok(w) ==> conj_outcome(w) == Ok::<Complex<T>, crate::errors::NumError>(z),
{
    z.re.lemma_model();
    z.im.lemma_model();
    if conj_outcome(z) is Ok {
        T::lemma_from_val(-z.im.val());
        T::lemma_from_val(z.re.val());
    }
}

/// Addition is associative: `(a + b) + c == a + (b + c)`, both sides computed exactly and
/// failing alike, wherever `a + b` and `b + c` exist.
pub proof fn law_add_associative<T: Integer + Signed>(a: Complex<T>, b: Complex<T>, c: Complex<T>)
    ensures
        (add_outcome(a, b) is Ok && add_outcome(b, c) is Ok) ==> add_outcome(
            add_outcome(a, b)->Ok_0,
            c,
        ) == add_outcome(a, add_outcome(b, c)->Ok_0),
{
    if add_outcome(a, b) is Ok && add_outcome(b, c) is Ok {
        T::lemma_from_val(a.re.val() + b.re.val());
        T::lemma_from_val(a.im.val() + b.im.val());
        T::lemma_from_val(b.re.val() + c.re.val());
        T::lemma_from_val(b.im.val() + c.im.val());
    }
}

/// A unit `z` (`|z|^2 == 1`) has an inverse, and `z * inv(z) == 1`.
pub proof fn law_unit_times_inverse<T: Integer + Signed>(z: Complex<T>)
    requires
        norm_sqr_of(z) == 1,
    ensures
        inv_outcome(z) matches Ok(w) && mul_outcome(z, w) == complex_of::<T>(1, 0),
{
    let a = z.re.val();
    let b = z.im.val();
    z.re.lemma_model();
    z.im.lemma_model();
    T::lemma_width();
    T::lemma_signed();
    lemma_pow256_values();
    assert(-1 <= a <= 1 && -1 <= b <= 1) by (nonlinear_arith)
        requires
            a * a + b * b == 1;
    assert(in_range::<T>(1) && in_range::<T>(-b));
    T::lemma_from_val(a);
    T::lemma_from_val(-b);
    assert(a * a - b * (-b) == 1) by (nonlinear_arith)
        requires
            a * a + b * b == 1;
    assert(a * (-b) + b * a == 0) by (nonlinear_arith);
}

/// Adding a value with 8 fractional bits to one with 16 keeps the finer scale: the result is
/// the exact sum `a / 2^8 + b / 2^16`, reported as `Overflow` only when that sum does not fit.
pub proof fn law_mixed_scale_sum_exact(a: Real<i16>, b: Real<i32>)
    ensures
        fixed_add_outcome::<i16, i32, i32>(a, b) == real_of::<i32>(a.raw as int * 256 + b.raw as int),
        fixed_add_outcome::<i16, i32, i32>(a, b) matches Ok(r) ==> r.raw as int * pow2(8) == a.raw as int
            * pow2(16) + b.raw as int * pow2(8),
{
    assert(pow2(0) == 1) by {
        reveal_with_fuel(power, 1);
    }
    assert(pow2(8) == 256) by {
        reveal_with_fuel(power, 9);
    }
    assert(pow2(16) == 65536) by {
        reveal_with_fuel(power, 17);
    }
    lemma_pow256_values();
    if fixed_add_outcome::<i16, i32, i32>(a, b) is Ok {
        assert(a.raw as int * 256 * 256 == a.raw as int * 65536);
    }
}

} // verus!
