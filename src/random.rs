//! Randomness drawn from the operating system.

use rand_core::TryRngCore;
use vstd::prelude::*;

verus! {

/// Relies on `rand_core::OsRng::try_fill_bytes`: sixteen bytes from the operating system's
/// generator, read big-endian, or `None` where the generator failed. Nothing is known of
/// the value.
#[verifier::external_body]
pub(crate) fn random_bits() -> (r: Option<u128>) {
    let mut bytes = [0u8; 16];
    match rand_core::OsRng.try_fill_bytes(&mut bytes) {
        Ok(()) => Some(u128::from_be_bytes(bytes)),
        Err(_) => None,
    }
}

} // verus!
