//! The operating system's source of random bytes.

use vstd::prelude::*;

verus! {

/// `getrandom::Error`, the error that `getrandom::getrandom` reports.
/// Nothing is claimed of what it holds.
#[verifier::external_type_specification]
#[verifier::external_body]
pub struct ExEntropyFailure(getrandom::Error);

/// Calls `getrandom::getrandom` on the whole of `buffer`. That function
/// asks the operating system to overwrite the bytes it is given and
/// reports either success or an error; on an error the bytes may hold
/// anything. All that is claimed here is that `buffer` keeps its length.
#[verifier::external_body]
pub(crate) fn fill_random(buffer: &mut Vec<u8>) -> (outcome: Result<(), getrandom::Error>)
    ensures
        final(buffer)@.len() == old(buffer)@.len(),
{
    getrandom::getrandom(buffer.as_mut_slice())
}

/// Reads the code of an error with `getrandom::Error::code`, which hands
/// it out as a `NonZeroU32`: the claim is that the code is not zero.
#[verifier::external_body]
pub(crate) fn error_code(error: getrandom::Error) -> (code: u32)
    ensures
        code != 0,
{
    error.code().get()
}

} // verus!
