//! The unit capabilities of the machine integers.
use vstd::prelude::*;
use crate::bytes::{decode_be, decode_le, encode_be, encode_le};
use crate::roots::{iroot, isqrt};
use crate::cast::{CastPrimitive, FromPrimitive, ToPrimitive};
use crate::units::{
    lemma_pow256_values, Bitwise, Bounded, BoundedSigned, Exp, Integer, Inv, One, Ordered, PhysicalRepr,
    Signed, Unit, UnitOps, Zero,
};

verus! {

impl UnitOps for i8 {
    open spec fn val(self) -> int {
        self as int
    }

    open spec fn width() -> nat {
        1
    }

    open spec fn signed() -> bool {
        true
    }

    open spec fn from_val(v: int) -> i8 {
        v as i8
    }

    proof fn lemma_model(self) {
        lemma_pow256_values();
    }

    proof fn lemma_from_val(v: int) {
        lemma_pow256_values();
    }

    proof fn lemma_width() {
    }

    fn eq_val(&self, other: &Self) -> (r: bool) {
        *self == *other
    }

    fn checked_add(self, rhs: Self) -> (r: Option<Self>) {
        proof {
            lemma_pow256_values();
        }
        i8::checked_add(self, rhs)
    }

    fn checked_sub(self, rhs: Self) -> (r: Option<Self>) {
        proof {
            lemma_pow256_values();
        }
        i8::checked_sub(self, rhs)
    }

    fn checked_mul(self, rhs: Self) -> (r: Option<Self>) {
        proof {
            lemma_pow256_values();
        }
        i8::checked_mul(self, rhs)
    }

    fn checked_div(self, rhs: Self) -> (r: Option<Self>) {
        proof {
            lemma_pow256_values();
        }
        i8::checked_div(self, rhs)
    }

    fn to_wide(self) -> (r: i128) {
        self as i128
    }

    fn from_wide(v: i128) -> (r: Option<Self>) {
        proof {
            lemma_pow256_values();
        }
        if -128 <= v && v <= 127 {
            Some(v as i8)
        } else {
            None
        }
    }
}

impl Zero for i8 {
    const ZERO: i8 = 0;

    proof fn lemma_zero() {
        assert(<i8 as Zero>::ZERO == 0);
    }
}

impl One for i8 {
    const ONE: i8 = 1;

    proof fn lemma_one() {
        assert(<i8 as One>::ONE == 1);
    }
}

impl Inv for i8 {
    open spec fn inv_spec(x: i8) -> Option<i8> {
        if x == 1 || x == -1 {
            Some(x)
        } else {
            None
        }
    }

    fn inv(self) -> (r: Option<Self>) {
        if self == 1 || self == -1 {
            Some(self)
        } else {
            None
        }
    }

    proof fn lemma_inv_involutive(x: i8) {
    }
}

impl Ordered for i8 {
    fn min(self, other: Self) -> (r: Self) {
        if self <= other {
            self
        } else {
            other
        }
    }

    fn max(self, other: Self) -> (r: Self) {
        if self >= other {
            self
        } else {
            other
        }
    }

    fn clamp(self, lo: Self, hi: Self) -> (r: Self) {
        if self < lo {
            lo
        } else if self > hi {
            hi
        } else {
            self
        }
    }
}

impl Bounded for i8 {
    const MIN: i8 = -128;

    const MAX: i8 = 127;

    proof fn lemma_bounds() {
        lemma_pow256_values();
        assert(<i8 as Bounded>::MIN == -128);
        assert(<i8 as Bounded>::MAX == 127);
    }
}

impl PhysicalRepr for i8 {
    type BitsRepr = u8;

    proof fn lemma_bits_repr() {
    }

    const BITS: u32 = 8;

    const BYTES: usize = 1;

    proof fn lemma_sizes() {
        assert(<i8 as PhysicalRepr>::BITS == 8);
        assert(<i8 as PhysicalRepr>::BYTES == 1);
    }

    fn to_bits(self) -> (r: u8) {
        proof {
            lemma_pow256_values();
        }
        if self >= 0 {
            self as u8
        } else {
            ((self as i16) + 256) as u8
        }
    }

    fn from_bits(b: u8) -> (r: Self) {
        proof {
            lemma_pow256_values();
        }
        if b <= 127 {
            b as i8
        } else {
            ((b as i16) - 256) as i8
        }
    }

    fn to_be_bytes(self) -> (r: Vec<u8>) {
        proof {
            lemma_pow256_values();
        }
        encode_be(self.to_bits() as u64, 1)
    }

    fn to_le_bytes(self) -> (r: Vec<u8>) {
        proof {
            lemma_pow256_values();
        }
        encode_le(self.to_bits() as u64, 1)
    }

    fn from_be_bytes(bytes: &[u8]) -> (r: Self) {
        proof {
            lemma_pow256_values();
        }
        let v = decode_be(bytes);
        Self::from_bits(v as u8)
    }

    fn from_le_bytes(bytes: &[u8]) -> (r: Self) {
        proof {
            lemma_pow256_values();
        }
        let v = decode_le(bytes);
        Self::from_bits(v as u8)
    }
}

impl Exp for i8 {
    fn root(self, k: u32) -> (r: Option<Self>) {
        if k == 0 {
            None
        } else if self >= 0 {
            let s = iroot(self as u64, k);
            Some(s as i8)
        } else if k % 2 == 0 {
            None
        } else {
            let m = (-(self as i128)) as u64;
            let s = iroot(m, k);
            Some((-(s as i128)) as i8)
        }
    }

    fn sqrt(self) -> (r: Option<Self>) {
        if self < 0 {
            None
        } else {
            let s = isqrt(self as u64);
            Some(s as i8)
        }
    }
}

impl ToPrimitive for i8 {}

impl FromPrimitive for i8 {}

impl CastPrimitive for i8 {}

impl Unit for i8 {}

impl Integer for i8 {}

impl Bitwise for i8 {
    open spec fn not_spec(x: i8) -> i8 {
        !x
    }

    open spec fn and_spec(x: i8, y: i8) -> i8 {
        x & y
    }

    open spec fn or_spec(x: i8, y: i8) -> i8 {
        x | y
    }

    open spec fn xor_spec(x: i8, y: i8) -> i8 {
        x ^ y
    }

    open spec fn shl_spec(x: i8, k: u32) -> i8 {
        x << k
    }

    open spec fn shr_spec(x: i8, k: u32) -> i8 {
        x >> k
    }

    fn bit_not(self) -> (r: Self) {
        !self
    }

    fn bit_and(self, rhs: Self) -> (r: Self) {
        self & rhs
    }

    fn bit_or(self, rhs: Self) -> (r: Self) {
        self | rhs
    }

    fn bit_xor(self, rhs: Self) -> (r: Self) {
        self ^ rhs
    }

    fn checked_shl(self, k: u32) -> (r: Option<Self>) {
        if k < 8 {
            Some(self << k)
        } else {
            None
        }
    }

    fn checked_shr(self, k: u32) -> (r: Option<Self>) {
        if k < 8 {
            Some(self >> k)
        } else {
            None
        }
    }
}

impl Signed for i8 {
    proof fn lemma_signed() {
    }

    const NEG_ONE: i8 = -1;

    const SIGN_MASK: u8 = 128;

    proof fn lemma_signed_constants() {
        lemma_pow256_values();
        assert(<i8 as Signed>::NEG_ONE == -1);
        assert(<i8 as Signed>::SIGN_MASK == 128);
    }

    fn checked_neg(self) -> (r: Option<Self>) {
        proof {
            lemma_pow256_values();
        }
        if self == -128 {
            None
        } else {
            Some(-self)
        }
    }

    fn abs(self) -> (r: Option<Self>) {
        proof {
            lemma_pow256_values();
        }
        if self == -128 {
            None
        } else if self < 0 {
            Some(-self)
        } else {
            Some(self)
        }
    }

    fn signum(self) -> (r: Self) {
        if self > 0 {
            1
        } else if self < 0 {
            -1
        } else {
            0
        }
    }

    fn is_positive(self) -> (r: bool) {
        self > 0
    }

    fn is_negative(self) -> (r: bool) {
        self < 0
    }
}

impl BoundedSigned for i8 {}

impl UnitOps for i16 {
    open spec fn val(self) -> int {
        self as int
    }

    open spec fn width() -> nat {
        2
    }

    open spec fn signed() -> bool {
        true
    }

    open spec fn from_val(v: int) -> i16 {
        v as i16
    }

    proof fn lemma_model(self) {
        lemma_pow256_values();
    }

    proof fn lemma_from_val(v: int) {
        lemma_pow256_values();
    }

    proof fn lemma_width() {
    }

    fn eq_val(&self, other: &Self) -> (r: bool) {
        *self == *other
    }

    fn checked_add(self, rhs: Self) -> (r: Option<Self>) {
        proof {
            lemma_pow256_values();
        }
        i16::checked_add(self, rhs)
    }

    fn checked_sub(self, rhs: Self) -> (r: Option<Self>) {
        proof {
            lemma_pow256_values();
        }
        i16::checked_sub(self, rhs)
    }

    fn checked_mul(self, rhs: Self) -> (r: Option<Self>) {
        proof {
            lemma_pow256_values();
        }
        i16::checked_mul(self, rhs)
    }

    fn checked_div(self, rhs: Self) -> (r: Option<Self>) {
        proof {
            lemma_pow256_values();
        }
        i16::checked_div(self, rhs)
    }

    fn to_wide(self) -> (r: i128) {
        self as i128
    }

    fn from_wide(v: i128) -> (r: Option<Self>) {
        proof {
            lemma_pow256_values();
        }
        if -32768 <= v && v <= 32767 {
            Some(v as i16)
        } else {
            None
        }
    }
}

impl Zero for i16 {
    const ZERO: i16 = 0;

    proof fn lemma_zero() {
        assert(<i16 as Zero>::ZERO == 0);
    }
}

impl One for i16 {
    const ONE: i16 = 1;

    proof fn lemma_one() {
        assert(<i16 as One>::ONE == 1);
    }
}

impl Inv for i16 {
    open spec fn inv_spec(x: i16) -> Option<i16> {
        if x == 1 || x == -1 {
            Some(x)
        } else {
            None
        }
    }

    fn inv(self) -> (r: Option<Self>) {
        if self == 1 || self == -1 {
            Some(self)
        } else {
            None
        }
    }

    proof fn lemma_inv_involutive(x: i16) {
    }
}

impl Ordered for i16 {
    fn min(self, other: Self) -> (r: Self) {
        if self <= other {
            self
        } else {
            other
        }
    }

    fn max(self, other: Self) -> (r: Self) {
        if self >= other {
            self
        } else {
            other
        }
    }

    fn clamp(self, lo: Self, hi: Self) -> (r: Self) {
        if self < lo {
            lo
        } else if self > hi {
            hi
        } else {
            self
        }
    }
}

impl Bounded for i16 {
    const MIN: i16 = -32768;

    const MAX: i16 = 32767;

    proof fn lemma_bounds() {
        lemma_pow256_values();
        assert(<i16 as Bounded>::MIN == -32768);
        assert(<i16 as Bounded>::MAX == 32767);
    }
}

impl PhysicalRepr for i16 {
    type BitsRepr = u16;

    proof fn lemma_bits_repr() {
    }

    const BITS: u32 = 16;

    const BYTES: usize = 2;

    proof fn lemma_sizes() {
        assert(<i16 as PhysicalRepr>::BITS == 16);
        assert(<i16 as PhysicalRepr>::BYTES == 2);
    }

    fn to_bits(self) -> (r: u16) {
        proof {
            lemma_pow256_values();
        }
        if self >= 0 {
            self as u16
        } else {
            ((self as i32) + 65536) as u16
        }
    }

    fn from_bits(b: u16) -> (r: Self) {
        proof {
            lemma_pow256_values();
        }
        if b <= 32767 {
            b as i16
        } else {
            ((b as i32) - 65536) as i16
        }
    }

    fn to_be_bytes(self) -> (r: Vec<u8>) {
        proof {
            lemma_pow256_values();
        }
        encode_be(self.to_bits() as u64, 2)
    }

    fn to_le_bytes(self) -> (r: Vec<u8>) {
        proof {
            lemma_pow256_values();
        }
        encode_le(self.to_bits() as u64, 2)
    }

    fn from_be_bytes(bytes: &[u8]) -> (r: Self) {
        proof {
            lemma_pow256_values();
        }
        let v = decode_be(bytes);
        Self::from_bits(v as u16)
    }

    fn from_le_bytes(bytes: &[u8]) -> (r: Self) {
        proof {
            lemma_pow256_values();
        }
        let v = decode_le(bytes);
        Self::from_bits(v as u16)
    }
}

impl Exp for i16 {
    fn root(self, k: u32) -> (r: Option<Self>) {
        if k == 0 {
            None
        } else if self >= 0 {
            let s = iroot(self as u64, k);
            Some(s as i16)
        } else if k % 2 == 0 {
            None
        } else {
            let m = (-(self as i128)) as u64;
            let s = iroot(m, k);
            Some((-(s as i128)) as i16)
        }
    }

    fn sqrt(self) -> (r: Option<Self>) {
        if self < 0 {
            None
        } else {
            let s = isqrt(self as u64);
            Some(s as i16)
        }
    }
}

impl ToPrimitive for i16 {}

impl FromPrimitive for i16 {}

impl CastPrimitive for i16 {}

impl Unit for i16 {}

impl Integer for i16 {}

impl Bitwise for i16 {
    open spec fn not_spec(x: i16) -> i16 {
        !x
    }

    open spec fn and_spec(x: i16, y: i16) -> i16 {
        x & y
    }

    open spec fn or_spec(x: i16, y: i16) -> i16 {
        x | y
    }

    open spec fn xor_spec(x: i16, y: i16) -> i16 {
        x ^ y
    }

    open spec fn shl_spec(x: i16, k: u32) -> i16 {
        x << k
    }

    open spec fn shr_spec(x: i16, k: u32) -> i16 {
        x >> k
    }

    fn bit_not(self) -> (r: Self) {
        !self
    }

    fn bit_and(self, rhs: Self) -> (r: Self) {
        self & rhs
    }

    fn bit_or(self, rhs: Self) -> (r: Self) {
        self | rhs
    }

    fn bit_xor(self, rhs: Self) -> (r: Self) {
        self ^ rhs
    }

    fn checked_shl(self, k: u32) -> (r: Option<Self>) {
        if k < 16 {
            Some(self << k)
        } else {
            None
        }
    }

    fn checked_shr(self, k: u32) -> (r: Option<Self>) {
        if k < 16 {
            Some(self >> k)
        } else {
            None
        }
    }
}

impl Signed for i16 {
    proof fn lemma_signed() {
    }

    const NEG_ONE: i16 = -1;

    const SIGN_MASK: u16 = 32768;

    proof fn lemma_signed_constants() {
        lemma_pow256_values();
        assert(<i16 as Signed>::NEG_ONE == -1);
        assert(<i16 as Signed>::SIGN_MASK == 32768);
    }

    fn checked_neg(self) -> (r: Option<Self>) {
        proof {
            lemma_pow256_values();
        }
        if self == -32768 {
            None
        } else {
            Some(-self)
        }
    }

    fn abs(self) -> (r: Option<Self>) {
        proof {
            lemma_pow256_values();
        }
        if self == -32768 {
            None
        } else if self < 0 {
            Some(-self)
        } else {
            Some(self)
        }
    }

    fn signum(self) -> (r: Self) {
        if self > 0 {
            1
        } else if self < 0 {
            -1
        } else {
            0
        }
    }

    fn is_positive(self) -> (r: bool) {
        self > 0
    }

    fn is_negative(self) -> (r: bool) {
        self < 0
    }
}

impl BoundedSigned for i16 {}

impl UnitOps for i32 {
    open spec fn val(self) -> int {
        self as int
    }

    open spec fn width() -> nat {
        4
    }

    open spec fn signed() -> bool {
        true
    }

    open spec fn from_val(v: int) -> i32 {
        v as i32
    }

    proof fn lemma_model(self) {
        lemma_pow256_values();
    }

    proof fn lemma_from_val(v: int) {
        lemma_pow256_values();
    }

    proof fn lemma_width() {
    }

    fn eq_val(&self, other: &Self) -> (r: bool) {
        *self == *other
    }

    fn checked_add(self, rhs: Self) -> (r: Option<Self>) {
        proof {
            lemma_pow256_values();
        }
        i32::checked_add(self, rhs)
    }

    fn checked_sub(self, rhs: Self) -> (r: Option<Self>) {
        proof {
            lemma_pow256_values();
        }
        i32::checked_sub(self, rhs)
    }

    fn checked_mul(self, rhs: Self) -> (r: Option<Self>) {
        proof {
            lemma_pow256_values();
        }
        i32::checked_mul(self, rhs)
    }

    fn checked_div(self, rhs: Self) -> (r: Option<Self>) {
        proof {
            lemma_pow256_values();
        }
        i32::checked_div(self, rhs)
    }

    fn to_wide(self) -> (r: i128) {
        self as i128
    }

    fn from_wide(v: i128) -> (r: Option<Self>) {
        proof {
            lemma_pow256_values();
        }
        if -2147483648 <= v && v <= 2147483647 {
            Some(v as i32)
        } else {
            None
        }
    }
}

impl Zero for i32 {
    const ZERO: i32 = 0;

    proof fn lemma_zero() {
        assert(<i32 as Zero>::ZERO == 0);
    }
}

impl One for i32 {
    const ONE: i32 = 1;

    proof fn lemma_one() {
        assert(<i32 as One>::ONE == 1);
    }
}

impl Inv for i32 {
    open spec fn inv_spec(x: i32) -> Option<i32> {
        if x == 1 || x == -1 {
            Some(x)
        } else {
            None
        }
    }

    fn inv(self) -> (r: Option<Self>) {
        if self == 1 || self == -1 {
            Some(self)
        } else {
            None
        }
    }

    proof fn lemma_inv_involutive(x: i32) {
    }
}

impl Ordered for i32 {
    fn min(self, other: Self) -> (r: Self) {
        if self <= other {
            self
        } else {
            other
        }
    }

    fn max(self, other: Self) -> (r: Self) {
        if self >= other {
            self
        } else {
            other
        }
    }

    fn clamp(self, lo: Self, hi: Self) -> (r: Self) {
        if self < lo {
            lo
        } else if self > hi {
            hi
        } else {
            self
        }
    }
}

impl Bounded for i32 {
    const MIN: i32 = -2147483648;

    const MAX: i32 = 2147483647;

    proof fn lemma_bounds() {
        lemma_pow256_values();
        assert(<i32 as Bounded>::MIN == -2147483648);
        assert(<i32 as Bounded>::MAX == 2147483647);
    }
}

impl PhysicalRepr for i32 {
    type BitsRepr = u32;

    proof fn lemma_bits_repr() {
    }

    const BITS: u32 = 32;

    const BYTES: usize = 4;

    proof fn lemma_sizes() {
        assert(<i32 as PhysicalRepr>::BITS == 32);
        assert(<i32 as PhysicalRepr>::BYTES == 4);
    }

    fn to_bits(self) -> (r: u32) {
        proof {
            lemma_pow256_values();
        }
        if self >= 0 {
            self as u32
        } else {
            ((self as i64) + 4294967296) as u32
        }
    }

    fn from_bits(b: u32) -> (r: Self) {
        proof {
            lemma_pow256_values();
        }
        if b <= 2147483647 {
            b as i32
        } else {
            ((b as i64) - 4294967296) as i32
        }
    }

    fn to_be_bytes(self) -> (r: Vec<u8>) {
        proof {
            lemma_pow256_values();
        }
        encode_be(self.to_bits() as u64, 4)
    }

    fn to_le_bytes(self) -> (r: Vec<u8>) {
        proof {
            lemma_pow256_values();
        }
        encode_le(self.to_bits() as u64, 4)
    }

    fn from_be_bytes(bytes: &[u8]) -> (r: Self) {
        proof {
            lemma_pow256_values();
        }
        let v = decode_be(bytes);
        Self::from_bits(v as u32)
    }

    fn from_le_bytes(bytes: &[u8]) -> (r: Self) {
        proof {
            lemma_pow256_values();
        }
        let v = decode_le(bytes);
        Self::from_bits(v as u32)
    }
}

impl Exp for i32 {
    fn root(self, k: u32) -> (r: Option<Self>) {
        if k == 0 {
            None
        } else if self >= 0 {
            let s = iroot(self as u64, k);
            Some(s as i32)
        } else if k % 2 == 0 {
            None
        } else {
            let m = (-(self as i128)) as u64;
            let s = iroot(m, k);
            Some((-(s as i128)) as i32)
        }
    }

    fn sqrt(self) -> (r: Option<Self>) {
        if self < 0 {
            None
        } else {
            let s = isqrt(self as u64);
            Some(s as i32)
        }
    }
}

impl ToPrimitive for i32 {}

impl FromPrimitive for i32 {}

impl CastPrimitive for i32 {}

impl Unit for i32 {}

impl Integer for i32 {}

impl Bitwise for i32 {
    open spec fn not_spec(x: i32) -> i32 {
        !x
    }

    open spec fn and_spec(x: i32, y: i32) -> i32 {
        x & y
    }

    open spec fn or_spec(x: i32, y: i32) -> i32 {
        x | y
    }

    open spec fn xor_spec(x: i32, y: i32) -> i32 {
        x ^ y
    }

    open spec fn shl_spec(x: i32, k: u32) -> i32 {
        x << k
    }

    open spec fn shr_spec(x: i32, k: u32) -> i32 {
        x >> k
    }

    fn bit_not(self) -> (r: Self) {
        !self
    }

    fn bit_and(self, rhs: Self) -> (r: Self) {
        self & rhs
    }

    fn bit_or(self, rhs: Self) -> (r: Self) {
        self | rhs
    }

    fn bit_xor(self, rhs: Self) -> (r: Self) {
        self ^ rhs
    }

    fn checked_shl(self, k: u32) -> (r: Option<Self>) {
        if k < 32 {
            Some(self << k)
        } else {
            None
        }
    }

    fn checked_shr(self, k: u32) -> (r: Option<Self>) {
        if k < 32 {
            Some(self >> k)
        } else {
            None
        }
    }
}

impl Signed for i32 {
    proof fn lemma_signed() {
    }

    const NEG_ONE: i32 = -1;

    const SIGN_MASK: u32 = 2147483648;

    proof fn lemma_signed_constants() {
        lemma_pow256_values();
        assert(<i32 as Signed>::NEG_ONE == -1);
        assert(<i32 as Signed>::SIGN_MASK == 2147483648);
    }

    fn checked_neg(self) -> (r: Option<Self>) {
        proof {
            lemma_pow256_values();
        }
        if self == -2147483648 {
            None
        } else {
            Some(-self)
        }
    }

    fn abs(self) -> (r: Option<Self>) {
        proof {
            lemma_pow256_values();
        }
        if self == -2147483648 {
            None
        } else if self < 0 {
            Some(-self)
        } else {
            Some(self)
        }
    }

    fn signum(self) -> (r: Self) {
        if self > 0 {
            1
        } else if self < 0 {
            -1
        } else {
            0
        }
    }

    fn is_positive(self) -> (r: bool) {
        self > 0
    }

    fn is_negative(self) -> (r: bool) {
        self < 0
    }
}

impl BoundedSigned for i32 {}

impl UnitOps for i64 {
    open spec fn val(self) -> int {
        self as int
    }

    open spec fn width() -> nat {
        8
    }

    open spec fn signed() -> bool {
        true
    }

    open spec fn from_val(v: int) -> i64 {
        v as i64
    }

    proof fn lemma_model(self) {
        lemma_pow256_values();
    }

    proof fn lemma_from_val(v: int) {
        lemma_pow256_values();
    }

    proof fn lemma_width() {
    }

    fn eq_val(&self, other: &Self) -> (r: bool) {
        *self == *other
    }

    fn checked_add(self, rhs: Self) -> (r: Option<Self>) {
        proof {
            lemma_pow256_values();
        }
        i64::checked_add(self, rhs)
    }

    fn checked_sub(self, rhs: Self) -> (r: Option<Self>) {
        proof {
            lemma_pow256_values();
        }
        i64::checked_sub(self, rhs)
    }

    fn checked_mul(self, rhs: Self) -> (r: Option<Self>) {
        proof {
            lemma_pow256_values();
        }
        i64::checked_mul(self, rhs)
    }

    fn checked_div(self, rhs: Self) -> (r: Option<Self>) {
        proof {
            lemma_pow256_values();
        }
        i64::checked_div(self, rhs)
    }

    fn to_wide(self) -> (r: i128) {
        self as i128
    }

    fn from_wide(v: i128) -> (r: Option<Self>) {
        proof {
            lemma_pow256_values();
        }
        if -9223372036854775808 <= v && v <= 9223372036854775807 {
            Some(v as i64)
        } else {
            None
        }
    }
}

impl Zero for i64 {
    const ZERO: i64 = 0;

    proof fn lemma_zero() {
        assert(<i64 as Zero>::ZERO == 0);
    }
}

impl One for i64 {
    const ONE: i64 = 1;

    proof fn lemma_one() {
        assert(<i64 as One>::ONE == 1);
    }
}

impl Inv for i64 {
    open spec fn inv_spec(x: i64) -> Option<i64> {
        if x == 1 || x == -1 {
            Some(x)
        } else {
            None
        }
    }

    fn inv(self) -> (r: Option<Self>) {
        if self == 1 || self == -1 {
            Some(self)
        } else {
            None
        }
    }

    proof fn lemma_inv_involutive(x: i64) {
    }
}

impl Ordered for i64 {
    fn min(self, other: Self) -> (r: Self) {
        if self <= other {
            self
        } else {
            other
        }
    }

    fn max(self, other: Self) -> (r: Self) {
        if self >= other {
            self
        } else {
            other
        }
    }

    fn clamp(self, lo: Self, hi: Self) -> (r: Self) {
        if self < lo {
            lo
        } else if self > hi {
            hi
        } else {
            self
        }
    }
}

impl Bounded for i64 {
    const MIN: i64 = -9223372036854775808;

    const MAX: i64 = 9223372036854775807;

    proof fn lemma_bounds() {
        lemma_pow256_values();
        assert(<i64 as Bounded>::MIN == -9223372036854775808);
        assert(<i64 as Bounded>::MAX == 9223372036854775807);
    }
}

impl PhysicalRepr for i64 {
    type BitsRepr = u64;

    proof fn lemma_bits_repr() {
    }

    const BITS: u32 = 64;

    const BYTES: usize = 8;

    proof fn lemma_sizes() {
        assert(<i64 as PhysicalRepr>::BITS == 64);
        assert(<i64 as PhysicalRepr>::BYTES == 8);
    }

    fn to_bits(self) -> (r: u64) {
        proof {
            lemma_pow256_values();
        }
        if self >= 0 {
            self as u64
        } else {
            ((self as i128) + 18446744073709551616) as u64
        }
    }

    fn from_bits(b: u64) -> (r: Self) {
        proof {
            lemma_pow256_values();
        }
        if b <= 9223372036854775807 {
            b as i64
        } else {
            ((b as i128) - 18446744073709551616) as i64
        }
    }

    fn to_be_bytes(self) -> (r: Vec<u8>) {
        proof {
            lemma_pow256_values();
        }
        encode_be(self.to_bits() as u64, 8)
    }

    fn to_le_bytes(self) -> (r: Vec<u8>) {
        proof {
            lemma_pow256_values();
        }
        encode_le(self.to_bits() as u64, 8)
    }

    fn from_be_bytes(bytes: &[u8]) -> (r: Self) {
        proof {
            lemma_pow256_values();
        }
        let v = decode_be(bytes);
        Self::from_bits(v as u64)
    }

    fn from_le_bytes(bytes: &[u8]) -> (r: Self) {
        proof {
            lemma_pow256_values();
        }
        let v = decode_le(bytes);
        Self::from_bits(v as u64)
    }
}

impl Exp for i64 {
    fn root(self, k: u32) -> (r: Option<Self>) {
        if k == 0 {
            None
        } else if self >= 0 {
            let s = iroot(self as u64, k);
            Some(s as i64)
        } else if k % 2 == 0 {
            None
        } else {
            let m = (-(self as i128)) as u64;
            let s = iroot(m, k);
            Some((-(s as i128)) as i64)
        }
    }

    fn sqrt(self) -> (r: Option<Self>) {
        if self < 0 {
            None
        } else {
            let s = isqrt(self as u64);
            Some(s as i64)
        }
    }
}

impl ToPrimitive for i64 {}

impl FromPrimitive for i64 {}

impl CastPrimitive for i64 {}

impl Unit for i64 {}

impl Integer for i64 {}

impl Bitwise for i64 {
    open spec fn not_spec(x: i64) -> i64 {
        !x
    }

    open spec fn and_spec(x: i64, y: i64) -> i64 {
        x & y
    }

    open spec fn or_spec(x: i64, y: i64) -> i64 {
        x | y
    }

    open spec fn xor_spec(x: i64, y: i64) -> i64 {
        x ^ y
    }

    open spec fn shl_spec(x: i64, k: u32) -> i64 {
        x << k
    }

    open spec fn shr_spec(x: i64, k: u32) -> i64 {
        x >> k
    }

    fn bit_not(self) -> (r: Self) {
        !self
    }

    fn bit_and(self, rhs: Self) -> (r: Self) {
        self & rhs
    }

    fn bit_or(self, rhs: Self) -> (r: Self) {
        self | rhs
    }

    fn bit_xor(self, rhs: Self) -> (r: Self) {
        self ^ rhs
    }

    fn checked_shl(self, k: u32) -> (r: Option<Self>) {
        if k < 64 {
            Some(self << k)
        } else {
            None
        }
    }

    fn checked_shr(self, k: u32) -> (r: Option<Self>) {
        if k < 64 {
            Some(self >> k)
        } else {
            None
        }
    }
}

impl Signed for i64 {
    proof fn lemma_signed() {
    }

    const NEG_ONE: i64 = -1;

    const SIGN_MASK: u64 = 9223372036854775808;

    proof fn lemma_signed_constants() {
        lemma_pow256_values();
        assert(<i64 as Signed>::NEG_ONE == -1);
        assert(<i64 as Signed>::SIGN_MASK == 9223372036854775808);
    }

    fn checked_neg(self) -> (r: Option<Self>) {
        proof {
            lemma_pow256_values();
        }
        if self == -9223372036854775808 {
            None
        } else {
            Some(-self)
        }
    }

    fn abs(self) -> (r: Option<Self>) {
        proof {
            lemma_pow256_values();
        }
        if self == -9223372036854775808 {
            None
        } else if self < 0 {
            Some(-self)
        } else {
            Some(self)
        }
    }

    fn signum(self) -> (r: Self) {
        if self > 0 {
            1
        } else if self < 0 {
            -1
        } else {
            0
        }
    }

    fn is_positive(self) -> (r: bool) {
        self > 0
    }

    fn is_negative(self) -> (r: bool) {
        self < 0
    }
}

impl BoundedSigned for i64 {}

impl UnitOps for u8 {
    open spec fn val(self) -> int {
        self as int
    }

    open spec fn width() -> nat {
        1
    }

    open spec fn signed() -> bool {
        false
    }

    open spec fn from_val(v: int) -> u8 {
        v as u8
    }

    proof fn lemma_model(self) {
        lemma_pow256_values();
    }

    proof fn lemma_from_val(v: int) {
        lemma_pow256_values();
    }

    proof fn lemma_width() {
    }

    fn eq_val(&self, other: &Self) -> (r: bool) {
        *self == *other
    }

    fn checked_add(self, rhs: Self) -> (r: Option<Self>) {
        proof {
            lemma_pow256_values();
        }
        u8::checked_add(self, rhs)
    }

    fn checked_sub(self, rhs: Self) -> (r: Option<Self>) {
        proof {
            lemma_pow256_values();
        }
        u8::checked_sub(self, rhs)
    }

    fn checked_mul(self, rhs: Self) -> (r: Option<Self>) {
        proof {
            lemma_pow256_values();
        }
        u8::checked_mul(self, rhs)
    }

    fn checked_div(self, rhs: Self) -> (r: Option<Self>) {
        proof {
            lemma_pow256_values();
        }
        u8::checked_div(self, rhs)
    }

    fn to_wide(self) -> (r: i128) {
        self as i128
    }

    fn from_wide(v: i128) -> (r: Option<Self>) {
        proof {
            lemma_pow256_values();
        }
        if 0 <= v && v <= 255 {
            Some(v as u8)
        } else {
            None
        }
    }
}

impl Zero for u8 {
    const ZERO: u8 = 0;

    proof fn lemma_zero() {
        assert(<u8 as Zero>::ZERO == 0);
    }
}

impl One for u8 {
    const ONE: u8 = 1;

    proof fn lemma_one() {
        assert(<u8 as One>::ONE == 1);
    }
}

impl Inv for u8 {
    open spec fn inv_spec(x: u8) -> Option<u8> {
        if x == 1 {
            Some(x)
        } else {
            None
        }
    }

    fn inv(self) -> (r: Option<Self>) {
        if self == 1 {
            Some(self)
        } else {
            None
        }
    }

    proof fn lemma_inv_involutive(x: u8) {
    }
}

impl Ordered for u8 {
    fn min(self, other: Self) -> (r: Self) {
        if self <= other {
            self
        } else {
            other
        }
    }

    fn max(self, other: Self) -> (r: Self) {
        if self >= other {
            self
        } else {
            other
        }
    }

    fn clamp(self, lo: Self, hi: Self) -> (r: Self) {
        if self < lo {
            lo
        } else if self > hi {
            hi
        } else {
            self
        }
    }
}

impl Bounded for u8 {
    const MIN: u8 = 0;

    const MAX: u8 = 255;

    proof fn lemma_bounds() {
        lemma_pow256_values();
        assert(<u8 as Bounded>::MIN == 0);
        assert(<u8 as Bounded>::MAX == 255);
    }
}

impl PhysicalRepr for u8 {
    type BitsRepr = u8;

    proof fn lemma_bits_repr() {
    }

    const BITS: u32 = 8;

    const BYTES: usize = 1;

    proof fn lemma_sizes() {
        assert(<u8 as PhysicalRepr>::BITS == 8);
        assert(<u8 as PhysicalRepr>::BYTES == 1);
    }

    fn to_bits(self) -> (r: u8) {
        self
    }

    fn from_bits(b: u8) -> (r: Self) {
        b
    }

    fn to_be_bytes(self) -> (r: Vec<u8>) {
        proof {
            lemma_pow256_values();
        }
        encode_be(self.to_bits() as u64, 1)
    }

    fn to_le_bytes(self) -> (r: Vec<u8>) {
        proof {
            lemma_pow256_values();
        }
        encode_le(self.to_bits() as u64, 1)
    }

    fn from_be_bytes(bytes: &[u8]) -> (r: Self) {
        proof {
            lemma_pow256_values();
        }
        let v = decode_be(bytes);
        Self::from_bits(v as u8)
    }

    fn from_le_bytes(bytes: &[u8]) -> (r: Self) {
        proof {
            lemma_pow256_values();
        }
        let v = decode_le(bytes);
        Self::from_bits(v as u8)
    }
}

impl Exp for u8 {
    fn root(self, k: u32) -> (r: Option<Self>) {
        if k == 0 {
            None
        } else {
            let s = iroot(self as u64, k);
            Some(s as u8)
        }
    }

    fn sqrt(self) -> (r: Option<Self>) {
        let s = isqrt(self as u64);
        Some(s as u8)
    }
}

impl ToPrimitive for u8 {}

impl FromPrimitive for u8 {}

impl CastPrimitive for u8 {}

impl Unit for u8 {}

impl Integer for u8 {}

impl Bitwise for u8 {
    open spec fn not_spec(x: u8) -> u8 {
        !x
    }

    open spec fn and_spec(x: u8, y: u8) -> u8 {
        x & y
    }

    open spec fn or_spec(x: u8, y: u8) -> u8 {
        x | y
    }

    open spec fn xor_spec(x: u8, y: u8) -> u8 {
        x ^ y
    }

    open spec fn shl_spec(x: u8, k: u32) -> u8 {
        x << k
    }

    open spec fn shr_spec(x: u8, k: u32) -> u8 {
        x >> k
    }

    fn bit_not(self) -> (r: Self) {
        !self
    }

    fn bit_and(self, rhs: Self) -> (r: Self) {
        self & rhs
    }

    fn bit_or(self, rhs: Self) -> (r: Self) {
        self | rhs
    }

    fn bit_xor(self, rhs: Self) -> (r: Self) {
        self ^ rhs
    }

    fn checked_shl(self, k: u32) -> (r: Option<Self>) {
        if k < 8 {
            Some(self << k)
        } else {
            None
        }
    }

    fn checked_shr(self, k: u32) -> (r: Option<Self>) {
        if k < 8 {
            Some(self >> k)
        } else {
            None
        }
    }
}

impl UnitOps for u16 {
    open spec fn val(self) -> int {
        self as int
    }

    open spec fn width() -> nat {
        2
    }

    open spec fn signed() -> bool {
        false
    }

    open spec fn from_val(v: int) -> u16 {
        v as u16
    }

    proof fn lemma_model(self) {
        lemma_pow256_values();
    }

    proof fn lemma_from_val(v: int) {
        lemma_pow256_values();
    }

    proof fn lemma_width() {
    }

    fn eq_val(&self, other: &Self) -> (r: bool) {
        *self == *other
    }

    fn checked_add(self, rhs: Self) -> (r: Option<Self>) {
        proof {
            lemma_pow256_values();
        }
        u16::checked_add(self, rhs)
    }

    fn checked_sub(self, rhs: Self) -> (r: Option<Self>) {
        proof {
            lemma_pow256_values();
        }
        u16::checked_sub(self, rhs)
    }

    fn checked_mul(self, rhs: Self) -> (r: Option<Self>) {
        proof {
            lemma_pow256_values();
        }
        u16::checked_mul(self, rhs)
    }

    fn checked_div(self, rhs: Self) -> (r: Option<Self>) {
        proof {
            lemma_pow256_values();
        }
        u16::checked_div(self, rhs)
    }

    fn to_wide(self) -> (r: i128) {
        self as i128
    }

    fn from_wide(v: i128) -> (r: Option<Self>) {
        proof {
            lemma_pow256_values();
        }
        if 0 <= v && v <= 65535 {
            Some(v as u16)
        } else {
            None
        }
    }
}

impl Zero for u16 {
    const ZERO: u16 = 0;

    proof fn lemma_zero() {
        assert(<u16 as Zero>::ZERO == 0);
    }
}

impl One for u16 {
    const ONE: u16 = 1;

    proof fn lemma_one() {
        assert(<u16 as One>::ONE == 1);
    }
}

impl Inv for u16 {
    open spec fn inv_spec(x: u16) -> Option<u16> {
        if x == 1 {
            Some(x)
        } else {
            None
        }
    }

    fn inv(self) -> (r: Option<Self>) {
        if self == 1 {
            Some(self)
        } else {
            None
        }
    }

    proof fn lemma_inv_involutive(x: u16) {
    }
}

impl Ordered for u16 {
    fn min(self, other: Self) -> (r: Self) {
        if self <= other {
            self
        } else {
            other
        }
    }

    fn max(self, other: Self) -> (r: Self) {
        if self >= other {
            self
        } else {
            other
        }
    }

    fn clamp(self, lo: Self, hi: Self) -> (r: Self) {
        if self < lo {
            lo
        } else if self > hi {
            hi
        } else {
            self
        }
    }
}

impl Bounded for u16 {
    const MIN: u16 = 0;

    const MAX: u16 = 65535;

    proof fn lemma_bounds() {
        lemma_pow256_values();
        assert(<u16 as Bounded>::MIN == 0);
        assert(<u16 as Bounded>::MAX == 65535);
    }
}

impl PhysicalRepr for u16 {
    type BitsRepr = u16;

    proof fn lemma_bits_repr() {
    }

    const BITS: u32 = 16;

    const BYTES: usize = 2;

    proof fn lemma_sizes() {
        assert(<u16 as PhysicalRepr>::BITS == 16);
        assert(<u16 as PhysicalRepr>::BYTES == 2);
    }

    fn to_bits(self) -> (r: u16) {
        self
    }

    fn from_bits(b: u16) -> (r: Self) {
        b
    }

    fn to_be_bytes(self) -> (r: Vec<u8>) {
        proof {
            lemma_pow256_values();
        }
        encode_be(self.to_bits() as u64, 2)
    }

    fn to_le_bytes(self) -> (r: Vec<u8>) {
        proof {
            lemma_pow256_values();
        }
        encode_le(self.to_bits() as u64, 2)
    }

    fn from_be_bytes(bytes: &[u8]) -> (r: Self) {
        proof {
            lemma_pow256_values();
        }
        let v = decode_be(bytes);
        Self::from_bits(v as u16)
    }

    fn from_le_bytes(bytes: &[u8]) -> (r: Self) {
        proof {
            lemma_pow256_values();
        }
        let v = decode_le(bytes);
        Self::from_bits(v as u16)
    }
}

impl Exp for u16 {
    fn root(self, k: u32) -> (r: Option<Self>) {
        if k == 0 {
            None
        } else {
            let s = iroot(self as u64, k);
            Some(s as u16)
        }
    }

    fn sqrt(self) -> (r: Option<Self>) {
        let s = isqrt(self as u64);
        Some(s as u16)
    }
}

impl ToPrimitive for u16 {}

impl FromPrimitive for u16 {}

impl CastPrimitive for u16 {}

impl Unit for u16 {}

impl Integer for u16 {}

impl Bitwise for u16 {
    open spec fn not_spec(x: u16) -> u16 {
        !x
    }

    open spec fn and_spec(x: u16, y: u16) -> u16 {
        x & y
    }

    open spec fn or_spec(x: u16, y: u16) -> u16 {
        x | y
    }

    open spec fn xor_spec(x: u16, y: u16) -> u16 {
        x ^ y
    }

    open spec fn shl_spec(x: u16, k: u32) -> u16 {
        x << k
    }

    open spec fn shr_spec(x: u16, k: u32) -> u16 {
        x >> k
    }

    fn bit_not(self) -> (r: Self) {
        !self
    }

    fn bit_and(self, rhs: Self) -> (r: Self) {
        self & rhs
    }

    fn bit_or(self, rhs: Self) -> (r: Self) {
        self | rhs
    }

    fn bit_xor(self, rhs: Self) -> (r: Self) {
        self ^ rhs
    }

    fn checked_shl(self, k: u32) -> (r: Option<Self>) {
        if k < 16 {
            Some(self << k)
        } else {
            None
        }
    }

    fn checked_shr(self, k: u32) -> (r: Option<Self>) {
        if k < 16 {
            Some(self >> k)
        } else {
            None
        }
    }
}

impl UnitOps for u32 {
    open spec fn val(self) -> int {
        self as int
    }

    open spec fn width() -> nat {
        4
    }

    open spec fn signed() -> bool {
        false
    }

    open spec fn from_val(v: int) -> u32 {
        v as u32
    }

    proof fn lemma_model(self) {
        lemma_pow256_values();
    }

    proof fn lemma_from_val(v: int) {
        lemma_pow256_values();
    }

    proof fn lemma_width() {
    }

    fn eq_val(&self, other: &Self) -> (r: bool) {
        *self == *other
    }

    fn checked_add(self, rhs: Self) -> (r: Option<Self>) {
        proof {
            lemma_pow256_values();
        }
        u32::checked_add(self, rhs)
    }

    fn checked_sub(self, rhs: Self) -> (r: Option<Self>) {
        proof {
            lemma_pow256_values();
        }
        u32::checked_sub(self, rhs)
    }

    fn checked_mul(self, rhs: Self) -> (r: Option<Self>) {
        proof {
            lemma_pow256_values();
        }
        u32::checked_mul(self, rhs)
    }

    fn checked_div(self, rhs: Self) -> (r: Option<Self>) {
        proof {
            lemma_pow256_values();
        }
        u32::checked_div(self, rhs)
    }

    fn to_wide(self) -> (r: i128) {
        self as i128
    }

    fn from_wide(v: i128) -> (r: Option<Self>) {
        proof {
            lemma_pow256_values();
        }
        if 0 <= v && v <= 4294967295 {
            Some(v as u32)
        } else {
            None
        }
    }
}

impl Zero for u32 {
    const ZERO: u32 = 0;

    proof fn lemma_zero() {
        assert(<u32 as Zero>::ZERO == 0);
    }
}

impl One for u32 {
    const ONE: u32 = 1;

    proof fn lemma_one() {
        assert(<u32 as One>::ONE == 1);
    }
}

impl Inv for u32 {
    open spec fn inv_spec(x: u32) -> Option<u32> {
        if x == 1 {
            Some(x)
        } else {
            None
        }
    }

    fn inv(self) -> (r: Option<Self>) {
        if self == 1 {
            Some(self)
        } else {
            None
        }
    }

    proof fn lemma_inv_involutive(x: u32) {
    }
}

impl Ordered for u32 {
    fn min(self, other: Self) -> (r: Self) {
        if self <= other {
            self
        } else {
            other
        }
    }

    fn max(self, other: Self) -> (r: Self) {
        if self >= other {
            self
        } else {
            other
        }
    }

    fn clamp(self, lo: Self, hi: Self) -> (r: Self) {
        if self < lo {
            lo
        } else if self > hi {
            hi
        } else {
            self
        }
    }
}

impl Bounded for u32 {
    const MIN: u32 = 0;

    const MAX: u32 = 4294967295;

    proof fn lemma_bounds() {
        lemma_pow256_values();
        assert(<u32 as Bounded>::MIN == 0);
        assert(<u32 as Bounded>::MAX == 4294967295);
    }
}

impl PhysicalRepr for u32 {
    type BitsRepr = u32;

    proof fn lemma_bits_repr() {
    }

    const BITS: u32 = 32;

    const BYTES: usize = 4;

    proof fn lemma_sizes() {
        assert(<u32 as PhysicalRepr>::BITS == 32);
        assert(<u32 as PhysicalRepr>::BYTES == 4);
    }

    fn to_bits(self) -> (r: u32) {
        self
    }

    fn from_bits(b: u32) -> (r: Self) {
        b
    }

    fn to_be_bytes(self) -> (r: Vec<u8>) {
        proof {
            lemma_pow256_values();
        }
        encode_be(self.to_bits() as u64, 4)
    }

    fn to_le_bytes(self) -> (r: Vec<u8>) {
        proof {
            lemma_pow256_values();
        }
        encode_le(self.to_bits() as u64, 4)
    }

    fn from_be_bytes(bytes: &[u8]) -> (r: Self) {
        proof {
            lemma_pow256_values();
        }
        let v = decode_be(bytes);
        Self::from_bits(v as u32)
    }

    fn from_le_bytes(bytes: &[u8]) -> (r: Self) {
        proof {
            lemma_pow256_values();
        }
        let v = decode_le(bytes);
        Self::from_bits(v as u32)
    }
}

impl Exp for u32 {
    fn root(self, k: u32) -> (r: Option<Self>) {
        if k == 0 {
            None
        } else {
            let s = iroot(self as u64, k);
            Some(s as u32)
        }
    }

    fn sqrt(self) -> (r: Option<Self>) {
        let s = isqrt(self as u64);
        Some(s as u32)
    }
}

impl ToPrimitive for u32 {}

impl FromPrimitive for u32 {}

impl CastPrimitive for u32 {}

impl Unit for u32 {}

impl Integer for u32 {}

impl Bitwise for u32 {
    open spec fn not_spec(x: u32) -> u32 {
        !x
    }

    open spec fn and_spec(x: u32, y: u32) -> u32 {
        x & y
    }

    open spec fn or_spec(x: u32, y: u32) -> u32 {
        x | y
    }

    open spec fn xor_spec(x: u32, y: u32) -> u32 {
        x ^ y
    }

    open spec fn shl_spec(x: u32, k: u32) -> u32 {
        x << k
    }

    open spec fn shr_spec(x: u32, k: u32) -> u32 {
        x >> k
    }

    fn bit_not(self) -> (r: Self) {
        !self
    }

    fn bit_and(self, rhs: Self) -> (r: Self) {
        self & rhs
    }

    fn bit_or(self, rhs: Self) -> (r: Self) {
        self | rhs
    }

    fn bit_xor(self, rhs: Self) -> (r: Self) {
        self ^ rhs
    }

    fn checked_shl(self, k: u32) -> (r: Option<Self>) {
        if k < 32 {
            Some(self << k)
        } else {
            None
        }
    }

    fn checked_shr(self, k: u32) -> (r: Option<Self>) {
        if k < 32 {
            Some(self >> k)
        } else {
            None
        }
    }
}

impl UnitOps for u64 {
    open spec fn val(self) -> int {
        self as int
    }

    open spec fn width() -> nat {
        8
    }

    open spec fn signed() -> bool {
        false
    }

    open spec fn from_val(v: int) -> u64 {
        v as u64
    }

    proof fn lemma_model(self) {
        lemma_pow256_values();
    }

    proof fn lemma_from_val(v: int) {
        lemma_pow256_values();
    }

    proof fn lemma_width() {
    }

    fn eq_val(&self, other: &Self) -> (r: bool) {
        *self == *other
    }

    fn checked_add(self, rhs: Self) -> (r: Option<Self>) {
        proof {
            lemma_pow256_values();
        }
        u64::checked_add(self, rhs)
    }

    fn checked_sub(self, rhs: Self) -> (r: Option<Self>) {
        proof {
            lemma_pow256_values();
        }
        u64::checked_sub(self, rhs)
    }

    fn checked_mul(self, rhs: Self) -> (r: Option<Self>) {
        proof {
            lemma_pow256_values();
        }
        u64::checked_mul(self, rhs)
    }

    fn checked_div(self, rhs: Self) -> (r: Option<Self>) {
        proof {
            lemma_pow256_values();
        }
        u64::checked_div(self, rhs)
    }

    fn to_wide(self) -> (r: i128) {
        self as i128
    }

    fn from_wide(v: i128) -> (r: Option<Self>) {
        proof {
            lemma_pow256_values();
        }
        if 0 <= v && v <= 18446744073709551615 {
            Some(v as u64)
        } else {
            None
        }
    }
}

impl Zero for u64 {
    const ZERO: u64 = 0;

    proof fn lemma_zero() {
        assert(<u64 as Zero>::ZERO == 0);
    }
}

impl One for u64 {
    const ONE: u64 = 1;

    proof fn lemma_one() {
        assert(<u64 as One>::ONE == 1);
    }
}

impl Inv for u64 {
    open spec fn inv_spec(x: u64) -> Option<u64> {
        if x == 1 {
            Some(x)
        } else {
            None
        }
    }

    fn inv(self) -> (r: Option<Self>) {
        if self == 1 {
            Some(self)
        } else {
            None
        }
    }

    proof fn lemma_inv_involutive(x: u64) {
    }
}

impl Ordered for u64 {
    fn min(self, other: Self) -> (r: Self) {
        if self <= other {
            self
        } else {
            other
        }
    }

    fn max(self, other: Self) -> (r: Self) {
        if self >= other {
            self
        } else {
            other
        }
    }

    fn clamp(self, lo: Self, hi: Self) -> (r: Self) {
        if self < lo {
            lo
        } else if self > hi {
            hi
        } else {
            self
        }
    }
}

impl Bounded for u64 {
    const MIN: u64 = 0;

    const MAX: u64 = 18446744073709551615;

    proof fn lemma_bounds() {
        lemma_pow256_values();
        assert(<u64 as Bounded>::MIN == 0);
        assert(<u64 as Bounded>::MAX == 18446744073709551615);
    }
}

impl PhysicalRepr for u64 {
    type BitsRepr = u64;

    proof fn lemma_bits_repr() {
    }

    const BITS: u32 = 64;

    const BYTES: usize = 8;

    proof fn lemma_sizes() {
        assert(<u64 as PhysicalRepr>::BITS == 64);
        assert(<u64 as PhysicalRepr>::BYTES == 8);
    }

    fn to_bits(self) -> (r: u64) {
        self
    }

    fn from_bits(b: u64) -> (r: Self) {
        b
    }

    fn to_be_bytes(self) -> (r: Vec<u8>) {
        proof {
            lemma_pow256_values();
        }
        encode_be(self.to_bits() as u64, 8)
    }

    fn to_le_bytes(self) -> (r: Vec<u8>) {
        proof {
            lemma_pow256_values();
        }
        encode_le(self.to_bits() as u64, 8)
    }

    fn from_be_bytes(bytes: &[u8]) -> (r: Self) {
        proof {
            lemma_pow256_values();
        }
        let v = decode_be(bytes);
        Self::from_bits(v as u64)
    }

    fn from_le_bytes(bytes: &[u8]) -> (r: Self) {
        proof {
            lemma_pow256_values();
        }
        let v = decode_le(bytes);
        Self::from_bits(v as u64)
    }
}

impl Exp for u64 {
    fn root(self, k: u32) -> (r: Option<Self>) {
        if k == 0 {
            None
        } else {
            let s = iroot(self as u64, k);
            Some(s as u64)
        }
    }

    fn sqrt(self) -> (r: Option<Self>) {
        let s = isqrt(self as u64);
        Some(s as u64)
    }
}

impl ToPrimitive for u64 {}

impl FromPrimitive for u64 {}

impl CastPrimitive for u64 {}

impl Unit for u64 {}

impl Integer for u64 {}

impl Bitwise for u64 {
    open spec fn not_spec(x: u64) -> u64 {
        !x
    }

    open spec fn and_spec(x: u64, y: u64) -> u64 {
        x & y
    }

    open spec fn or_spec(x: u64, y: u64) -> u64 {
        x | y
    }

    open spec fn xor_spec(x: u64, y: u64) -> u64 {
        x ^ y
    }

    open spec fn shl_spec(x: u64, k: u32) -> u64 {
        x << k
    }

    open spec fn shr_spec(x: u64, k: u32) -> u64 {
        x >> k
    }

    fn bit_not(self) -> (r: Self) {
        !self
    }

    fn bit_and(self, rhs: Self) -> (r: Self) {
        self & rhs
    }

    fn bit_or(self, rhs: Self) -> (r: Self) {
        self | rhs
    }

    fn bit_xor(self, rhs: Self) -> (r: Self) {
        self ^ rhs
    }

    fn checked_shl(self, k: u32) -> (r: Option<Self>) {
        if k < 64 {
            Some(self << k)
        } else {
            None
        }
    }

    fn checked_shr(self, k: u32) -> (r: Option<Self>) {
        if k < 64 {
            Some(self >> k)
        } else {
            None
        }
    }
}

} // verus!
