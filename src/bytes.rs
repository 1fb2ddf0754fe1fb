//! Byte-order encodings of unsigned integers.
use vstd::prelude::*;
use crate::units::pow256;


verus! {

/// The number that bytes stand for, most significant first.
pub open spec fn be_value(s: Seq<u8>) -> int
    decreases s.len(),
{
    if s.len() == 0 {
        0
    } else {
        be_value(s.drop_last()) * 256 + s.last()
    }
}

/// The number that bytes stand for, least significant first.
pub open spec fn le_value(s: Seq<u8>) -> int
    decreases s.len(),
{
    if s.len() == 0 {
        0
    } else {
        le_value(s.drop_last()) + pow256((s.len() - 1) as nat) * s.last()
    }
}

/// The `k`-th byte of `v`, counting from the least significant.
pub open spec fn digit(v: int, k: nat) -> int {
    (v / pow256(k) as int) % 256
}

proof fn lemma_pow256_pos(k: nat)
    ensures
        pow256(k) >= 1,
    decreases k,
{
    if k > 0 {
        lemma_pow256_pos((k - 1) as nat);
    }
}

/// Bytes that hold the digits of `v` in order, least significant first, decode to `v`
/// modulo `256^n`.
proof fn lemma_le_digits(s: Seq<u8>, v: int)
    requires
        v >= 0,
        forall|j: int| 0 <= j < s.len() ==> s[j] as int == digit(v, j as nat),
    ensures
        le_value(s) == v % pow256(s.len()) as int,
    decreases s.len(),
{
    let n = s.len();
    if n == 0 {
        assert(v % 1 == 0);
    } else {
        let p = pow256((n - 1) as nat) as int;
        lemma_pow256_pos((n - 1) as nat);
        lemma_le_digits(s.drop_last(), v);
        assert(s.last() as int == digit(v, (n - 1) as nat));
        vstd::arithmetic::div_mod::lemma_mod_breakdown(v, p, 256);
        assert(pow256(n) as int == 256 * p);
        assert(p * 256 == 256 * p);
    }
}

/// Bytes that hold the digits of `v` in order, most significant first, decode to `v`
/// modulo `256^n`.
proof fn lemma_be_digits(s: Seq<u8>, v: int)
    requires
        v >= 0,
        forall|j: int| 0 <= j < s.len() ==> s[j] as int == digit(v, (s.len() - 1 - j) as nat),
    ensures
        be_value(s) == v % pow256(s.len()) as int,
    decreases s.len(),
{
    let n = s.len();
    if n == 0 {
        assert(v % 1 == 0);
    } else {
        let p = pow256((n - 1) as nat) as int;
        lemma_pow256_pos((n - 1) as nat);
        let t = s.drop_last();
        assert forall|j: int| 0 <= j < t.len() implies t[j] as int == digit(v / 256, (t.len() - 1 - j) as nat) by {
            let k = (n - 1 - j) as nat;
            assert(k >= 1);
            lemma_pow256_pos((k - 1) as nat);
            vstd::arithmetic::div_mod::lemma_div_denominator(v, 256, pow256((k - 1) as nat) as int);
            assert(pow256(k) as int == 256 * pow256((k - 1) as nat));
        }
        lemma_be_digits(t, v / 256);
        assert(s.last() as int == digit(v, 0));
        assert(pow256(0) == 1);
        vstd::arithmetic::div_mod::lemma_mod_breakdown(v, 256, p);
        assert(pow256(n) as int == 256 * p);
    }
}

/// A decoded value is below `256^n`.
proof fn lemma_le_bound(s: Seq<u8>)
    ensures
        0 <= le_value(s) < pow256(s.len()),
    decreases s.len(),
{
    if s.len() > 0 {
        let p = pow256((s.len() - 1) as nat) as int;
        lemma_le_bound(s.drop_last());
        assert(p * s.last() <= p * 255) by (nonlinear_arith)
            requires p >= 0, s.last() <= 255;
        assert(p * s.last() >= 0) by (nonlinear_arith)
            requires p >= 0, s.last() >= 0;
    }
}

proof fn lemma_be_bound(s: Seq<u8>)
    ensures
        0 <= be_value(s) < pow256(s.len()),
    decreases s.len(),
{
    if s.len() > 0 {
        let p = pow256((s.len() - 1) as nat) as int;
        lemma_be_bound(s.drop_last());
        assert(be_value(s.drop_last()) * 256 + s.last() < p * 256) by (nonlinear_arith)
            requires be_value(s.drop_last()) < p, be_value(s.drop_last()) >= 0, s.last() < 256;
    }
}

/// The `n` low bytes of `v`, least significant first.
pub fn encode_le(v: u64, n: usize) -> (r: Vec<u8>)
    requires
        n <= 8,
        v < pow256(n as nat),
    ensures
        r@.len() == n,
        le_value(r@) == v,
{
    let mut out: Vec<u8> = Vec::new();
    let mut x: u64 = v;
    let mut i: usize = 0;
    proof {
        assert(pow256(0) == 1);
        assert(v as int / 1 == v);
    }
    while i < n
        invariant
            i <= n <= 8,
            out@.len() == i,
            x as int == v as int / pow256(i as nat) as int,
            forall|j: int| 0 <= j < i ==> out@[j] as int == digit(v as int, j as nat),
        decreases n - i,
    {
        proof {
            lemma_pow256_pos(i as nat);
            vstd::arithmetic::div_mod::lemma_div_denominator(v as int, pow256(i as nat) as int, 256);
            assert(pow256((i + 1) as nat) as int == 256 * pow256(i as nat));
            assert(pow256(i as nat) as int * 256 == 256 * pow256(i as nat));
        }
        out.push((x % 256) as u8);
        x = x / 256;
        i = i + 1;
    }
    proof {
        lemma_le_digits(out@, v as int);
        vstd::arithmetic::div_mod::lemma_small_mod(v as nat, pow256(n as nat));
    }
    out
}

/// The `n` low bytes of `v`, most significant first.
pub fn encode_be(v: u64, n: usize) -> (r: Vec<u8>)
    requires
        n <= 8,
        v < pow256(n as nat),
    ensures
        r@.len() == n,
        be_value(r@) == v,
{
    let le = encode_le(v, n);
    let mut out: Vec<u8> = Vec::new();
    let mut i: usize = 0;
    while i < n
        invariant
            i <= n <= 8,
            le@.len() == n,
            out@.len() == i,
            forall|j: int| 0 <= j < i ==> out@[j] == le@[n - 1 - j],
        decreases n - i,
    {
        out.push(le[n - 1 - i]);
        i = i + 1;
    }
    proof {
        // le holds the digits of v, least significant first
        assert forall|j: int| 0 <= j < n implies le@[j] as int == digit(v as int, j as nat) by {
            lemma_le_is_digits(le@, v as int, j);
        }
        lemma_be_digits(out@, v as int);
        vstd::arithmetic::div_mod::lemma_small_mod(v as nat, pow256(n as nat));
    }
    out
}

/// Bytes that decode to `v` (least significant first) hold the digits of `v`.
proof fn lemma_le_is_digits(s: Seq<u8>, v: int, j: int)
    requires
        le_value(s) == v,
        0 <= j < s.len(),
    ensures
        s[j] as int == digit(v, j as nat),
    decreases s.len(),
{
    let n = s.len();
    let p = pow256((n - 1) as nat) as int;
    let t = s.drop_last();
    lemma_le_bound(t);
    lemma_pow256_pos((n - 1) as nat);
    lemma_pow256_pos(j as nat);
    if j == n - 1 {
        // v = le_value(t) + p * last, with 0 <= le_value(t) < p
        vstd::arithmetic::div_mod::lemma_fundamental_div_mod_converse(v, p, s.last() as int, le_value(t));
        assert(v / p == s.last() as int);
        vstd::arithmetic::div_mod::lemma_small_mod(s.last() as nat, 256);
    } else {
        lemma_le_is_digits(t, le_value(t), j);
        // the digit j of v equals that of le_value(t), since v = le_value(t) + p * last
        // and 256^(j+1) divides p
        lemma_digit_shift(le_value(t), s.last() as int, j as nat, (n - 1) as nat);
    }
}

/// Adding a multiple of `256^k` leaves the digits below `k` alone.
proof fn lemma_digit_shift(a: int, c: int, j: nat, k: nat)
    requires
        0 <= a,
        0 <= c,
        j < k,
    ensures
        digit(a + pow256(k) * c, j) == digit(a, j),
    decreases k,
{
    let q = pow256(j) as int;
    lemma_pow256_pos(j);
    lemma_pow256_split(j, k);
    let m = pow256((k - j - 1) as nat) as int;
    lemma_pow256_pos((k - j - 1) as nat);
    // pow256(k) == q * 256 * m
    assert(pow256(k) * c == q * (256 * m * c)) by (nonlinear_arith)
        requires pow256(k) == q * 256 * m;
    let big = 256 * m * c;
    assert(big * q == q * big) by (nonlinear_arith);
    assert(pow256(k) * c == big * q) by (nonlinear_arith)
        requires pow256(k) * c == q * (256 * m * c), big == 256 * m * c;
    vstd::arithmetic::div_mod::lemma_hoist_over_denominator(a, big, q as nat);
    assert((a + pow256(k) * c) / q == a / q + big);
    vstd::arithmetic::div_mod::lemma_mod_multiples_vanish(m * c, a / q, 256);
    assert(big == 256 * (m * c)) by (nonlinear_arith)
        requires big == 256 * m * c;
}

proof fn lemma_pow256_split(j: nat, k: nat)
    requires
        j < k,
    ensures
        pow256(k) == pow256(j) * 256 * pow256((k - j - 1) as nat),
    decreases k,
{
    let a = pow256(j) as int;
    if k == j + 1 {
        assert(pow256(0) == 1);
        assert(pow256(k) == 256 * pow256(j));
        assert(pow256((k - j - 1) as nat) == 1);
        assert(a * 256 * 1 == 256 * a);
    } else {
        lemma_pow256_split(j, (k - 1) as nat);
        let c = pow256((k - 1) as nat) as int;
        let b = pow256((k - j - 2) as nat) as int;
        let d = pow256((k - j - 1) as nat) as int;
        assert(pow256(k) == 256 * c);
        assert(d == 256 * b);
        assert(c == a * 256 * b);
        assert(256 * c == a * 256 * d) by (nonlinear_arith)
            requires c == a * 256 * b, d == 256 * b;
    }
}

/// The number that `bytes` stand for, least significant first.
pub fn decode_le(bytes: &[u8]) -> (r: u64)
    requires
        bytes@.len() <= 8,
    ensures
        r == le_value(bytes@),
        r < pow256(bytes@.len()),
{
    let n = bytes.len();
    let mut acc: u128 = 0;
    let mut p: u128 = 1;
    let mut i: usize = 0;
    while i < n
        invariant
            n == bytes@.len() <= 8,
            i <= n,
            i < n ==> p == pow256(i as nat),
            acc == le_value(bytes@.subrange(0, i as int)),
        decreases n - i,
    {
        proof {
            let t = bytes@.subrange(0, i as int + 1);
            assert(t.drop_last() =~= bytes@.subrange(0, i as int));
            lemma_le_bound(bytes@.subrange(0, i as int));
            lemma_pow256_le(i as nat, 7);
            crate::units::lemma_pow256_values();
            assert(p * bytes@[i as int] <= p * 255) by (nonlinear_arith)
                requires p >= 0, bytes@[i as int] <= 255;
        }
        acc = acc + p * (bytes[i] as u128);
        if i + 1 < n {
            proof {
                lemma_pow256_le((i + 1) as nat, 7);
            }
            p = p * 256;
        }
        i = i + 1;
    }
    proof {
        assert(bytes@.subrange(0, n as int) =~= bytes@);
        lemma_le_bound(bytes@);
        lemma_pow256_le(n as nat, 8);
        crate::units::lemma_pow256_values();
    }
    acc as u64
}

/// The number that `bytes` stand for, most significant first.
pub fn decode_be(bytes: &[u8]) -> (r: u64)
    requires
        bytes@.len() <= 8,
    ensures
        r == be_value(bytes@),
        r < pow256(bytes@.len()),
{
    let n = bytes.len();
    let mut acc: u64 = 0;
    let mut i: usize = 0;
    while i < n
        invariant
            n == bytes@.len() <= 8,
            i <= n,
            acc == be_value(bytes@.subrange(0, i as int)),
        decreases n - i,
    {
        proof {
            let t = bytes@.subrange(0, i as int + 1);
            assert(t.drop_last() =~= bytes@.subrange(0, i as int));
            lemma_be_bound(t);
            lemma_pow256_le((i + 1) as nat, 8);
            crate::units::lemma_pow256_values();
        }
        acc = acc * 256 + bytes[i] as u64;
        i = i + 1;
    }
    proof {
        assert(bytes@.subrange(0, n as int) =~= bytes@);
        lemma_be_bound(bytes@);
    }
    acc
}

proof fn lemma_pow256_le(i: nat, k: nat)
    requires
        i <= k,
    ensures
        pow256(i) <= pow256(k),
    decreases k,
{
    if i < k {
        lemma_pow256_le(i, (k - 1) as nat);
    }
}

} // verus!
