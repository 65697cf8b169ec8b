//! Wrapping (modular) arithmetic: traits for addition, subtraction and
//! multiplication that wrap around at the boundary of the type, implemented
//! for the primitive integers and lifted to `core::num::Wrapping`.

use vstd::prelude::*;
use core::num::Wrapping;
use crate::numeric::{Zero, One, Num, NumAssignOps};

verus! {

#[verifier::external_type_specification]
#[verifier::external_body]
#[verifier::reject_recursive_types(T)]
pub struct ExWrapping<T>(Wrapping<T>);

/// Relies on the tuple constructor of `core::num::Wrapping`: wraps a value.
#[verifier::external_body]
fn wrap_new<T>(t: T) -> Wrapping<T> {
    Wrapping(t)
}

/// Relies on the public field of `core::num::Wrapping`: the wrapped value.
#[verifier::external_body]
fn wrap_get<T>(w: &Wrapping<T>) -> &T {
    &w.0
}

/// Performs addition that wraps around on overflow.
pub trait WrappingAdd: Sized {
    /// Wrapping (modular) addition: `self + other`, wrapping around at the
    /// boundary of the type.
    fn wrapping_add(&self, v: &Self) -> Self;
}

/// Performs subtraction that wraps around on overflow.
pub trait WrappingSub: Sized {
    /// Wrapping (modular) subtraction: `self - other`, wrapping around at
    /// the boundary of the type.
    fn wrapping_sub(&self, v: &Self) -> Self;
}

/// Performs multiplication that wraps around on overflow.
pub trait WrappingMul: Sized {
    /// Wrapping (modular) multiplication: `self * other`, wrapping around at
    /// the boundary of the type.
    fn wrapping_mul(&self, v: &Self) -> Self;
}

impl<T: WrappingAdd> WrappingAdd for Wrapping<T> {
    fn wrapping_add(&self, v: &Self) -> Self {
        wrap_new(wrap_get(self).wrapping_add(wrap_get(v)))
    }
}

impl<T: WrappingSub> WrappingSub for Wrapping<T> {
    fn wrapping_sub(&self, v: &Self) -> Self {
        wrap_new(wrap_get(self).wrapping_sub(wrap_get(v)))
    }
}

impl<T: WrappingMul> WrappingMul for Wrapping<T> {
    fn wrapping_mul(&self, v: &Self) -> Self {
        wrap_new(wrap_get(self).wrapping_mul(wrap_get(v)))
    }
}

impl<T: Zero> Zero for Wrapping<T> {
    fn zero() -> Self {
        wrap_new(T::zero())
    }

    fn is_zero(&self) -> bool {
        wrap_get(self).is_zero()
    }
}

impl<T: One> One for Wrapping<T> {
    fn one() -> Self {
        wrap_new(T::one())
    }
}

impl<T: Num> Num for Wrapping<T> where Wrapping<T>: PartialEq + crate::numeric::NumOps {
    type FromStrRadixErr = T::FromStrRadixErr;

    fn from_str_radix(s: &str, radix: u32) -> Result<Self, Self::FromStrRadixErr> {
        match T::from_str_radix(s, radix) {
            Ok(v) => Ok(wrap_new(v)),
            Err(e) => Err(e),
        }
    }
}

impl<T> NumAssignOps for Wrapping<T> where Wrapping<T>: core::ops::Add<Output = Wrapping<T>> {

}

impl WrappingAdd for u8 {
    fn wrapping_add(&self, v: &Self) -> Self {
        u8::wrapping_add(*self, *v)
    }
}

impl WrappingSub for u8 {
    fn wrapping_sub(&self, v: &Self) -> Self {
        u8::wrapping_sub(*self, *v)
    }
}

impl WrappingMul for u8 {
    fn wrapping_mul(&self, v: &Self) -> Self {
        u8::wrapping_mul(*self, *v)
    }
}

impl WrappingAdd for u16 {
    fn wrapping_add(&self, v: &Self) -> Self {
        u16::wrapping_add(*self, *v)
    }
}

impl WrappingSub for u16 {
    fn wrapping_sub(&self, v: &Self) -> Self {
        u16::wrapping_sub(*self, *v)
    }
}

impl WrappingMul for u16 {
    fn wrapping_mul(&self, v: &Self) -> Self {
        u16::wrapping_mul(*self, *v)
    }
}

impl WrappingAdd for u32 {
    fn wrapping_add(&self, v: &Self) -> Self {
        u32::wrapping_add(*self, *v)
    }
}

impl WrappingSub for u32 {
    fn wrapping_sub(&self, v: &Self) -> Self {
        u32::wrapping_sub(*self, *v)
    }
}

impl WrappingMul for u32 {
    fn wrapping_mul(&self, v: &Self) -> Self {
        u32::wrapping_mul(*self, *v)
    }
}

impl WrappingAdd for u64 {
    fn wrapping_add(&self, v: &Self) -> Self {
        u64::wrapping_add(*self, *v)
    }
}

impl WrappingSub for u64 {
    fn wrapping_sub(&self, v: &Self) -> Self {
        u64::wrapping_sub(*self, *v)
    }
}

impl WrappingMul for u64 {
    fn wrapping_mul(&self, v: &Self) -> Self {
        u64::wrapping_mul(*self, *v)
    }
}

impl WrappingAdd for usize {
    fn wrapping_add(&self, v: &Self) -> Self {
        usize::wrapping_add(*self, *v)
    }
}

impl WrappingSub for usize {
    fn wrapping_sub(&self, v: &Self) -> Self {
        usize::wrapping_sub(*self, *v)
    }
}

impl WrappingMul for usize {
    fn wrapping_mul(&self, v: &Self) -> Self {
        usize::wrapping_mul(*self, *v)
    }
}

impl WrappingAdd for i8 {
    fn wrapping_add(&self, v: &Self) -> Self {
        i8::wrapping_add(*self, *v)
    }
}

impl WrappingSub for i8 {
    fn wrapping_sub(&self, v: &Self) -> Self {
        i8::wrapping_sub(*self, *v)
    }
}

impl WrappingMul for i8 {
    fn wrapping_mul(&self, v: &Self) -> Self {
        i8::wrapping_mul(*self, *v)
    }
}

impl WrappingAdd for i16 {
    fn wrapping_add(&self, v: &Self) -> Self {
        i16::wrapping_add(*self, *v)
    }
}

impl WrappingSub for i16 {
    fn wrapping_sub(&self, v: &Self) -> Self {
        i16::wrapping_sub(*self, *v)
    }
}

impl WrappingMul for i16 {
    fn wrapping_mul(&self, v: &Self) -> Self {
        i16::wrapping_mul(*self, *v)
    }
}

impl WrappingAdd for i32 {
    fn wrapping_add(&self, v: &Self) -> Self {
        i32::wrapping_add(*self, *v)
    }
}

impl WrappingSub for i32 {
    fn wrapping_sub(&self, v: &Self) -> Self {
        i32::wrapping_sub(*self, *v)
    }
}

impl WrappingMul for i32 {
    fn wrapping_mul(&self, v: &Self) -> Self {
        i32::wrapping_mul(*self, *v)
    }
}

impl WrappingAdd for i64 {
    fn wrapping_add(&self, v: &Self) -> Self {
        i64::wrapping_add(*self, *v)
    }
}

impl WrappingSub for i64 {
    fn wrapping_sub(&self, v: &Self) -> Self {
        i64::wrapping_sub(*self, *v)
    }
}

impl WrappingMul for i64 {
    fn wrapping_mul(&self, v: &Self) -> Self {
        i64::wrapping_mul(*self, *v)
    }
}

impl WrappingAdd for isize {
    fn wrapping_add(&self, v: &Self) -> Self {
        isize::wrapping_add(*self, *v)
    }
}

impl WrappingSub for isize {
    fn wrapping_sub(&self, v: &Self) -> Self {
        isize::wrapping_sub(*self, *v)
    }
}

impl WrappingMul for isize {
    fn wrapping_mul(&self, v: &Self) -> Self {
        isize::wrapping_mul(*self, *v)
    }
}

} // verus!
