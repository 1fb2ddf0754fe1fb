//! Integer roots of unsigned integers.
use vstd::prelude::*;
use crate::units::power;

verus! {

/// Powers of a positive base do not decrease with the exponent.
proof fn lemma_power_mono_exp(b: int, i: nat, k: nat)
    requires
        b >= 1,
        i <= k,
    ensures
        1 <= power(b, i) <= power(b, k),
    decreases k,
{
    if k > 0 {
        let j = if i < k {
            i
        } else {
            (k - 1) as nat
        };
        lemma_power_mono_exp(b, j, (k - 1) as nat);
        let p = power(b, (k - 1) as nat);
        assert(power(b, k) == b * p);
        assert(b * p >= p) by (nonlinear_arith)
            requires b >= 1, p >= 1;
    }
}

/// Powers with a positive exponent do not decrease with a non-negative base.
proof fn lemma_power_mono_base(a: int, b: int, k: nat)
    requires
        0 <= a <= b,
    ensures
        0 <= power(a, k) <= power(b, k),
    decreases k,
{
    if k > 0 {
        lemma_power_mono_base(a, b, (k - 1) as nat);
        let pa = power(a, (k - 1) as nat);
        let pb = power(b, (k - 1) as nat);
        assert(a * pa <= b * pb) by (nonlinear_arith)
            requires 0 <= a <= b, 0 <= pa <= pb;
        assert(a * pa >= 0) by (nonlinear_arith)
            requires 0 <= a, 0 <= pa;
    }
}

/// `b^k >= b` for a positive exponent and a non-negative base.
proof fn lemma_power_ge_base(b: int, k: nat)
    requires
        b >= 0,
        k >= 1,
    ensures
        power(b, k) >= b,
{
    if b >= 1 {
        lemma_power_mono_exp(b, 1, k);
        assert(power(b, 1) == b * power(b, 0));
    } else {
        lemma_power_mono_base(0, b, k);
    }
}

/// Whether `b^k` exceeds `n`.
fn power_exceeds(b: u128, k: u32, n: u64) -> (r: bool)
    requires
        b <= 0x1_0000_0000_0000_0000,
    ensures
        r == (power(b as int, k as nat) > n),
{
    let mut acc: u128 = 1;
    let mut i: u32 = 0;
    while i < k
        invariant
            i <= k,
            b <= 0x1_0000_0000_0000_0000,
            acc == power(b as int, i as nat),
            acc <= n || acc == 1,
        decreases k - i,
    {
        proof {
            assert(acc * b <= 0xffff_ffff_ffff_ffff * 0x1_0000_0000_0000_0000) by (nonlinear_arith)
                requires acc <= 0xffff_ffff_ffff_ffff, b <= 0x1_0000_0000_0000_0000;
            assert(power(b as int, (i + 1) as nat) == b * power(b as int, i as nat));
        }
        let next = acc * b;
        if next > n as u128 {
            proof {
                assert(b >= 1) by {
                    if b == 0 {
                        assert(next == 0);
                    }
                }
                lemma_power_mono_exp(b as int, (i + 1) as nat, k as nat);
            }
            return true;
        }
        acc = next;
        i = i + 1;
    }
    acc > n as u128
}

/// The integer square root of `n`, rounded down.
pub fn isqrt(n: u64) -> (r: u64)
    ensures
        r * r <= n < (r + 1) * (r + 1),
        r <= n,
{
    let mut lo: u64 = 0;
    let mut hi: u64 = 4294967296;
    while hi - lo > 1
        invariant
            lo < hi <= 4294967296,
            lo * lo <= n,
            n < hi * hi,
        decreases hi - lo,
    {
        let mid: u64 = lo + (hi - lo) / 2;
        proof {
            assert(mid as int * mid as int <= 4294967296 * 4294967296) by (nonlinear_arith)
                requires 0 <= mid <= 4294967296;
        }
        let sq: u128 = (mid as u128) * (mid as u128);
        if sq <= n as u128 {
            lo = mid;
        } else {
            hi = mid;
        }
    }
    proof {
        if lo >= 1 {
            assert(lo <= lo * lo) by (nonlinear_arith)
                requires lo >= 1;
        }
    }
    lo
}

/// The `k`-th root of `n`, rounded down.
pub fn iroot(n: u64, k: u32) -> (r: u64)
    requires
        k >= 1,
    ensures
        power(r as int, k as nat) <= n < power(r as int + 1, k as nat),
        r <= n,
{
    let mut lo: u128 = 0;
    let mut hi: u128 = n as u128 + 1;
    proof {
        lemma_power_mono_base(0, 0, k as nat);
        assert(power(0, k as nat) == 0 * power(0, (k - 1) as nat));
        lemma_power_ge_base(hi as int, k as nat);
    }
    while hi - lo > 1
        invariant
            k >= 1,
            lo < hi <= n as u128 + 1,
            power(lo as int, k as nat) <= n,
            n < power(hi as int, k as nat),
        decreases hi - lo,
    {
        let mid: u128 = lo + (hi - lo) / 2;
        if power_exceeds(mid, k, n) {
            hi = mid;
        } else {
            lo = mid;
        }
    }
    lo as u64
}

} // verus!
