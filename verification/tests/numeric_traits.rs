use std::num::Wrapping;
use bigdecimal::{zero, one, clamp, Zero, One, Num, NumRef, RefNum};
use bigdecimal::{WrappingAdd, WrappingSub, WrappingMul};

#[test]
fn it_works() {
    assert_eq!(2 + 2, 4);
}

#[test]
fn clamp_test() {
    // Int test
    assert_eq!(1, clamp(1, -1, 2));
    assert_eq!(-1, clamp(-2, -1, 2));
    assert_eq!(2, clamp(3, -1, 2));

    // Float test
    assert_eq!(1.0, clamp(1.0, -1.0, 2.0));
    assert_eq!(-1.0, clamp(-2.0, -1.0, 2.0));
    assert_eq!(2.0, clamp(3.0, -1.0, 2.0));
}

#[test]
fn wrapping_identities() {
    assert_eq!(zero::<isize>(), zero::<Wrapping<isize>>().0);
    assert_eq!(one::<isize>(), one::<Wrapping<isize>>().0);
    assert_eq!((0 as isize).is_zero(), Wrapping(0 as isize).is_zero());
    assert_eq!((1 as isize).is_zero(), Wrapping(1 as isize).is_zero());
    assert_eq!(zero::<i8>(), zero::<Wrapping<i8>>().0);
    assert_eq!(one::<i8>(), one::<Wrapping<i8>>().0);
    assert_eq!((0 as i8).is_zero(), Wrapping(0 as i8).is_zero());
    assert_eq!((1 as i8).is_zero(), Wrapping(1 as i8).is_zero());
    assert_eq!(zero::<i16>(), zero::<Wrapping<i16>>().0);
    assert_eq!(one::<i16>(), one::<Wrapping<i16>>().0);
    assert_eq!((0 as i16).is_zero(), Wrapping(0 as i16).is_zero());
    assert_eq!((1 as i16).is_zero(), Wrapping(1 as i16).is_zero());
    assert_eq!(zero::<i32>(), zero::<Wrapping<i32>>().0);
    assert_eq!(one::<i32>(), one::<Wrapping<i32>>().0);
    assert_eq!((0 as i32).is_zero(), Wrapping(0 as i32).is_zero());
    assert_eq!((1 as i32).is_zero(), Wrapping(1 as i32).is_zero());
    assert_eq!(zero::<i64>(), zero::<Wrapping<i64>>().0);
    assert_eq!(one::<i64>(), one::<Wrapping<i64>>().0);
    assert_eq!((0 as i64).is_zero(), Wrapping(0 as i64).is_zero());
    assert_eq!((1 as i64).is_zero(), Wrapping(1 as i64).is_zero());
    assert_eq!(zero::<usize>(), zero::<Wrapping<usize>>().0);
    assert_eq!(one::<usize>(), one::<Wrapping<usize>>().0);
    assert_eq!((0 as usize).is_zero(), Wrapping(0 as usize).is_zero());
    assert_eq!((1 as usize).is_zero(), Wrapping(1 as usize).is_zero());
    assert_eq!(zero::<u8>(), zero::<Wrapping<u8>>().0);
    assert_eq!(one::<u8>(), one::<Wrapping<u8>>().0);
    assert_eq!((0 as u8).is_zero(), Wrapping(0 as u8).is_zero());
    assert_eq!((1 as u8).is_zero(), Wrapping(1 as u8).is_zero());
    assert_eq!(zero::<u16>(), zero::<Wrapping<u16>>().0);
    assert_eq!(one::<u16>(), one::<Wrapping<u16>>().0);
    assert_eq!((0 as u16).is_zero(), Wrapping(0 as u16).is_zero());
    assert_eq!((1 as u16).is_zero(), Wrapping(1 as u16).is_zero());
    assert_eq!(zero::<u32>(), zero::<Wrapping<u32>>().0);
    assert_eq!(one::<u32>(), one::<Wrapping<u32>>().0);
    assert_eq!((0 as u32).is_zero(), Wrapping(0 as u32).is_zero());
    assert_eq!((1 as u32).is_zero(), Wrapping(1 as u32).is_zero());
    assert_eq!(zero::<u64>(), zero::<Wrapping<u64>>().0);
    assert_eq!(one::<u64>(), one::<Wrapping<u64>>().0);
    assert_eq!((0 as u64).is_zero(), Wrapping(0 as u64).is_zero());
    assert_eq!((1 as u64).is_zero(), Wrapping(1 as u64).is_zero());
}

#[test]
fn wrapping_is_zero() {
    fn require_zero<T: Zero>(_: &T) {}
    require_zero(&Wrapping(42));
}

#[test]
fn wrapping_is_one() {
    fn require_one<T: One>(_: &T) {}
    require_one(&Wrapping(42));
}

#[test]
fn wrapping_is_num() {
    fn require_num<T: Num>(_: &T) {}
    require_num(&Wrapping(42_u32));
    require_num(&Wrapping(-42));
}

#[test]
fn wrapping_from_str_radix() {
    for &(s, r) in &[("42", 10), ("42", 2), ("-13.0", 10), ("foo", 10)] {
        let w = Wrapping::<usize>::from_str_radix(s, r).map(|w| w.0);
        assert_eq!(w, <usize as Num>::from_str_radix(s, r));
        let w = Wrapping::<u8>::from_str_radix(s, r).map(|w| w.0);
        assert_eq!(w, <u8 as Num>::from_str_radix(s, r));
        let w = Wrapping::<u16>::from_str_radix(s, r).map(|w| w.0);
        assert_eq!(w, <u16 as Num>::from_str_radix(s, r));
        let w = Wrapping::<u32>::from_str_radix(s, r).map(|w| w.0);
        assert_eq!(w, <u32 as Num>::from_str_radix(s, r));
        let w = Wrapping::<u64>::from_str_radix(s, r).map(|w| w.0);
        assert_eq!(w, <u64 as Num>::from_str_radix(s, r));
        let w = Wrapping::<isize>::from_str_radix(s, r).map(|w| w.0);
        assert_eq!(w, <isize as Num>::from_str_radix(s, r));
        let w = Wrapping::<i8>::from_str_radix(s, r).map(|w| w.0);
        assert_eq!(w, <i8 as Num>::from_str_radix(s, r));
        let w = Wrapping::<i16>::from_str_radix(s, r).map(|w| w.0);
        assert_eq!(w, <i16 as Num>::from_str_radix(s, r));
        let w = Wrapping::<i32>::from_str_radix(s, r).map(|w| w.0);
        assert_eq!(w, <i32 as Num>::from_str_radix(s, r));
        let w = Wrapping::<i64>::from_str_radix(s, r).map(|w| w.0);
        assert_eq!(w, <i64 as Num>::from_str_radix(s, r));
    }
}

#[test]
fn int_from_str_radix() {
    let result = <i32 as Num>::from_str_radix("27", 10);
    assert_eq!(result, Ok(27));
    let result = <i32 as Num>::from_str_radix("foo", 10);
    assert!(result.is_err());
    let result = <u8 as Num>::from_str_radix("300", 10);
    assert!(result.is_err());
    let result = <i8 as Num>::from_str_radix("-128", 10);
    assert_eq!(result, Ok(-128));
    let result = <u32 as Num>::from_str_radix("ff", 16);
    assert_eq!(result, Ok(255));
}

#[test]
fn check_num_ops() {
    fn compute<T: Num + Copy>(x: T, y: T) -> T {
        x * y / y % y + y - y
    }
    assert_eq!(compute(1, 2), 1)
}

#[test]
fn check_numref_ops() {
    fn compute<T: NumRef>(x: T, y: &T) -> T {
        x * y / y % y + y - y
    }
    assert_eq!(compute(1, &2), 1)
}

#[test]
fn check_refnum_ops() {
    fn compute<T: Copy>(x: &T, y: T) -> T
    where
        for<'a> &'a T: RefNum<T>,
    {
        &(&(&(&(x * y) / y) % y) + y) - y
    }
    assert_eq!(compute(&1, 2), 1)
}

#[test]
fn check_refref_ops() {
    fn compute<T>(x: &T, y: &T) -> T
    where
        for<'a> &'a T: RefNum<T>,
    {
        &(&(&(&(x * y) / y) % y) + y) - y
    }
    assert_eq!(compute(&1, &2), 1)
}

#[test]
fn test_wrapping_traits() {
    fn wrapping_add<T: WrappingAdd>(a: T, b: T) -> T {
        a.wrapping_add(&b)
    }
    fn wrapping_sub<T: WrappingSub>(a: T, b: T) -> T {
        a.wrapping_sub(&b)
    }
    fn wrapping_mul<T: WrappingMul>(a: T, b: T) -> T {
        a.wrapping_mul(&b)
    }
    assert_eq!(wrapping_add(255, 1), 0u8);
    assert_eq!(wrapping_sub(0, 1), 255u8);
    assert_eq!(wrapping_mul(255, 2), 254u8);
    assert_eq!(wrapping_add(255, 1), (Wrapping(255u8) + Wrapping(1u8)).0);
    assert_eq!(wrapping_sub(0, 1), (Wrapping(0u8) - Wrapping(1u8)).0);
    assert_eq!(wrapping_mul(255, 2), (Wrapping(255u8) * Wrapping(2u8)).0);
}

#[test]
fn wrapping_is_wrappingadd() {
    fn require_wrappingadd<T: WrappingAdd>(_: &T) {}
    require_wrappingadd(&Wrapping(42));
}

#[test]
fn wrapping_is_wrappingsub() {
    fn require_wrappingsub<T: WrappingSub>(_: &T) {}
    require_wrappingsub(&Wrapping(42));
}

#[test]
fn wrapping_is_wrappingmul() {
    fn require_wrappingmul<T: WrappingMul>(_: &T) {}
    require_wrappingmul(&Wrapping(42));
}
