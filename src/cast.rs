//! Conversions between the machine integers that fail, rather than wrap, when the value
//! does not fit the destination.
use vstd::prelude::*;
use crate::units::{fit, lemma_fit, UnitOps};

verus! {

/// Conversion of a unit into each machine integer.
pub trait ToPrimitive: UnitOps {
    /// The same value as a `i8`; `None` when it is out of the `i8` range.
    fn to_i8(&self) -> (r: Option<i8>)
        ensures
            r == fit::<i8>(self.val()),
    {
        let r = i8::from_wide(self.to_wide());
        proof {
            lemma_fit::<i8>(r, self.val());
        }
        r
    }

    /// The same value as a `i16`; `None` when it is out of the `i16` range.
    fn to_i16(&self) -> (r: Option<i16>)
        ensures
            r == fit::<i16>(self.val()),
    {
        let r = i16::from_wide(self.to_wide());
        proof {
            lemma_fit::<i16>(r, self.val());
        }
        r
    }

    /// The same value as a `i32`; `None` when it is out of the `i32` range.
    fn to_i32(&self) -> (r: Option<i32>)
        ensures
            r == fit::<i32>(self.val()),
    {
        let r = i32::from_wide(self.to_wide());
        proof {
            lemma_fit::<i32>(r, self.val());
        }
        r
    }

    /// The same value as a `i64`; `None` when it is out of the `i64` range.
    fn to_i64(&self) -> (r: Option<i64>)
        ensures
            r == fit::<i64>(self.val()),
    {
        let r = i64::from_wide(self.to_wide());
        proof {
            lemma_fit::<i64>(r, self.val());
        }
        r
    }

    /// The same value as a `u8`; `None` when it is out of the `u8` range.
    fn to_u8(&self) -> (r: Option<u8>)
        ensures
            r == fit::<u8>(self.val()),
    {
        let r = u8::from_wide(self.to_wide());
        proof {
            lemma_fit::<u8>(r, self.val());
        }
        r
    }

    /// The same value as a `u16`; `None` when it is out of the `u16` range.
    fn to_u16(&self) -> (r: Option<u16>)
        ensures
            r == fit::<u16>(self.val()),
    {
        let r = u16::from_wide(self.to_wide());
        proof {
            lemma_fit::<u16>(r, self.val());
        }
        r
    }

    /// The same value as a `u32`; `None` when it is out of the `u32` range.
    fn to_u32(&self) -> (r: Option<u32>)
        ensures
            r == fit::<u32>(self.val()),
    {
        let r = u32::from_wide(self.to_wide());
        proof {
            lemma_fit::<u32>(r, self.val());
        }
        r
    }

    /// The same value as a `u64`; `None` when it is out of the `u64` range.
    fn to_u64(&self) -> (r: Option<u64>)
        ensures
            r == fit::<u64>(self.val()),
    {
        let r = u64::from_wide(self.to_wide());
        proof {
            lemma_fit::<u64>(r, self.val());
        }
        r
    }
}

/// Conversion of each machine integer into a unit.
pub trait FromPrimitive: UnitOps {
    /// The value of `n`; `None` when it is out of this type's range.
    fn from_i8(n: i8) -> (r: Option<Self>)
        ensures
            r == fit::<Self>(n as int),
    {
        let r = Self::from_wide(n as i128);
        proof {
            lemma_fit::<Self>(r, n as int);
        }
        r
    }

    /// The value of `n`; `None` when it is out of this type's range.
    fn from_i16(n: i16) -> (r: Option<Self>)
        ensures
            r == fit::<Self>(n as int),
    {
        let r = Self::from_wide(n as i128);
        proof {
            lemma_fit::<Self>(r, n as int);
        }
        r
    }

    /// The value of `n`; `None` when it is out of this type's range.
    fn from_i32(n: i32) -> (r: Option<Self>)
        ensures
            r == fit::<Self>(n as int),
    {
        let r = Self::from_wide(n as i128);
        proof {
            lemma_fit::<Self>(r, n as int);
        }
        r
    }

    /// The value of `n`; `None` when it is out of this type's range.
    fn from_i64(n: i64) -> (r: Option<Self>)
        ensures
            r == fit::<Self>(n as int),
    {
        let r = Self::from_wide(n as i128);
        proof {
            lemma_fit::<Self>(r, n as int);
        }
        r
    }

    /// The value of `n`; `None` when it is out of this type's range.
    fn from_u8(n: u8) -> (r: Option<Self>)
        ensures
            r == fit::<Self>(n as int),
    {
        let r = Self::from_wide(n as i128);
        proof {
            lemma_fit::<Self>(r, n as int);
        }
        r
    }

    /// The value of `n`; `None` when it is out of this type's range.
    fn from_u16(n: u16) -> (r: Option<Self>)
        ensures
            r == fit::<Self>(n as int),
    {
        let r = Self::from_wide(n as i128);
        proof {
            lemma_fit::<Self>(r, n as int);
        }
        r
    }

    /// The value of `n`; `None` when it is out of this type's range.
    fn from_u32(n: u32) -> (r: Option<Self>)
        ensures
            r == fit::<Self>(n as int),
    {
        let r = Self::from_wide(n as i128);
        proof {
            lemma_fit::<Self>(r, n as int);
        }
        r
    }

    /// The value of `n`; `None` when it is out of this type's range.
    fn from_u64(n: u64) -> (r: Option<Self>)
        ensures
            r == fit::<Self>(n as int),
    {
        let r = Self::from_wide(n as i128);
        proof {
            lemma_fit::<Self>(r, n as int);
        }
        r
    }
}

/// Units that convert both ways.
pub trait CastPrimitive: FromPrimitive + ToPrimitive {}

} // verus!
