//! The chain parameters that the validation context reads.

use crate::ibc::error::StorageError;
use crate::ibc::types::DurationSecs;
use vstd::pervasive::unreached;
use vstd::prelude::*;

verus! {

/// The number that bytes stand for, the least significant byte first.
pub open spec fn little_endian(bytes: Seq<u8>) -> nat
    decreases bytes.len(),
{
    if bytes.len() == 0 {
        0
    } else {
        bytes[0] as nat + 256 * little_endian(bytes.drop_first())
    }
}

/// Reads a number of 64 bits with `borsh::from_slice`: the number that
/// exactly eight bytes stand for, the least significant byte first, and
/// nothing where there are more or fewer bytes.
#[verifier::external_body]
fn read_u64(bytes: &[u8]) -> (value: Option<u64>)
    ensures
        value is Some <==> bytes@.len() == 8,
        value matches Some(number) ==> number == little_endian(bytes@),
{
    borsh::from_slice::<u64>(bytes).ok()
}

/// Decodes a time span in whole seconds: a number of 64 bits.
pub fn decode_duration_secs(bytes: &[u8]) -> (duration: Option<DurationSecs>)
    ensures
        duration is Some <==> bytes@.len() == 8,
        duration matches Some(duration) ==> duration.0 == little_endian(bytes@),
{
    match read_u64(bytes) {
        Some(seconds) => Some(DurationSecs(seconds)),
        None => None,
    }
}

/// The parameter has been set: a value is stored for it, and decodes.
pub open spec fn parameter_is_set(stored: Result<Option<Vec<u8>>, StorageError>) -> bool {
    stored matches Ok(Some(value)) && value@.len() == 8
}

/// Whether the parameter has been set.
pub fn is_parameter_set(stored: &Result<Option<Vec<u8>>, StorageError>) -> (set: bool)
    ensures
        set == parameter_is_set(*stored),
{
    match stored {
        Ok(Some(value)) => value.len() == 8,
        _ => false,
    }
}

/// The longest time that is expected to pass between two blocks, from what
/// is stored for that chain parameter. The parameter is set when the chain
/// begins, so it must be there.
pub fn max_expected_time_per_block(stored: &Result<Option<Vec<u8>>, StorageError>) -> (duration:
    DurationSecs)
    requires
        parameter_is_set(*stored),
    ensures
        duration.0 == little_endian(stored->Ok_0->Some_0@),
{
    match stored {
        Ok(Some(value)) => match decode_duration_secs(value.as_slice()) {
            Some(duration) => duration,
            None => {
                assert(false);
                unreached()
            },
        },
        _ => {
            assert(false);
            unreached()
        },
    }
}

} // verus!
