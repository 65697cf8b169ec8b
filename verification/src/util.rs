//! Validation for handing a string out through a fixed-capacity byte
//! buffer: the string must carry no interior NUL and must fit the capacity.
//! The raw copy itself belongs to the caller that owns the buffer; this
//! module makes the decision.

use vstd::prelude::*;
use vstd::string::StringSliceAdditionalSpecFns;

verus! {

/// Why a string cannot be handed out through a byte buffer: it holds an
/// interior NUL, or it is larger than the buffer's capacity.
#[derive(Debug, Clone, Copy, PartialEq, Eq, Structural)]
pub enum OutputCStrError {
    NulError,
    CapacityError,
}

pub open spec fn has_nul(s: Seq<char>) -> bool {
    exists|i: int| 0 <= i < s.len() && s[i] == '\0'
}

/// Decides whether `input` can be copied out as a C string through a buffer
/// of `output_capacity` bytes, returning the byte count to copy.  A NUL
/// character is rejected first, then an insufficient capacity.
pub fn prepare_output(input: &str, output_capacity: usize) -> (r: Result<
    usize,
    OutputCStrError,
>)
    ensures
        has_nul(input@) ==> r == Err::<usize, OutputCStrError>(OutputCStrError::NulError),
        !has_nul(input@) && input.spec_bytes().len() as usize > output_capacity ==> r == Err::<
            usize,
            OutputCStrError,
        >(OutputCStrError::CapacityError),
        !has_nul(input@) && input.spec_bytes().len() as usize <= output_capacity ==> r == Ok::<
            usize,
            OutputCStrError,
        >(input.spec_bytes().len() as usize),
{
    let n = input.unicode_len();
    let mut i: usize = 0;
    while i < n
        invariant
            i <= n,
            n == input@.len(),
            forall|j: int| 0 <= j < i ==> input@[j] != '\0',
        decreases n - i,
    {
        if input.get_char(i) == '\0' {
            proof {
                assert(input@[i as int] == '\0');
            }
            return Err(OutputCStrError::NulError);
        }
        i = i + 1;
    }
    let size = input.len();
    if output_capacity < size {
        return Err(OutputCStrError::CapacityError);
    }
    Ok(size)
}

} // verus!
