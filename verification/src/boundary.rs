//! The message types crossing the WebAssembly driver's boundary: the action
//! a host asks of the interpreter, and the values that travel with it.
//! Floating-point operands cross the boundary as their raw bit patterns, so
//! the messages themselves are plain data.

use vstd::prelude::*;

verus! {

/// One request to the WebAssembly driver.
#[derive(Debug)]
pub enum SgxWasmAction {
    Invoke { module: Option<String>, field: String, args: Vec<BoundaryValue> },
    Get { module: Option<String>, field: String },
    LoadModule { name: Option<String>, module: Vec<u8> },
    TryLoad { module: Vec<u8> },
    Register { name: Option<String>, as_name: String },
}

/// A WebAssembly value in transit: integers as themselves, floating-point
/// values as their bit patterns.
#[derive(Debug, Clone, Copy, PartialEq, Eq, Structural)]
pub enum BoundaryValue {
    I32(i32),
    I64(i64),
    F32(u32),
    F64(u64),
}

} // verus!
