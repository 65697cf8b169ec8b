//! An arbitrary-precision decimal number library.
//!
//! A value is a pair of an arbitrary-precision signed integer magnitude and a
//! signed 64-bit scale: the pair `(m, s)` denotes the number `m * 10^(-s)`.
//! Addition, subtraction and multiplication are exact; division is carried out
//! to a caller-controlled number of significant digits with the last digit
//! rounded half away from zero.  Square root, cube root, reciprocal and the
//! natural exponential are computed by fixed-point iteration on top of the
//! division engine.
//!
//! The magnitude is held in a `num_bigint::BigInt`; every statement about a
//! magnitude is phrased through the uninterpreted value map `int_of`, which the
//! trusted wrappers in [`bigint`] relate to the integers.

pub mod arith;
pub mod bigint;
pub mod boundary;
pub mod decimal;
pub mod divide;
pub mod format;
pub mod hex;
pub mod laws;
pub mod newton;
pub mod numeric;
pub mod oracle;
pub mod parse;
pub mod util;
pub mod wrapping;

pub use decimal::BigDecimal;
pub use decimal::Sign;
pub use parse::ParseBigDecimalError;
pub use parse::IntErrorKind;
pub use parse::BigIntErrorKind;
pub use divide::ArithmeticError;
pub use numeric::{Zero, One, Num, NumOps, NumRef, RefNum, NumAssignOps, NumAssign, NumAssignRef};
pub use numeric::{FloatErrorKind, ParseFloatError, zero, one, clamp};
pub use wrapping::{WrappingAdd, WrappingSub, WrappingMul};
pub use oracle::{MultiplyError, format_decimal, multiply_values};
pub use util::OutputCStrError;
pub use boundary::{SgxWasmAction, BoundaryValue};
