//! The identity of this machine: sixteen random bytes kept on disk, shown in hexadecimal.

use crate::overlay::hex_digit;
use vstd::prelude::*;

verus! {

/// The number of bytes of a machine's identity.
pub const MACHINE_ID_LEN: usize = 16;

/// Two lower-case hexadecimal digits for each byte, in order.
pub open spec fn hex_lower(b: Seq<u8>) -> Seq<char> {
    Seq::new(
        2 * b.len(),
        |i: int|
            if i % 2 == 0 {
                hex_digit((b[i / 2] / 16) as nat)
            } else {
                hex_digit((b[i / 2] % 16) as nat)
            },
    )
}

/// Relies on `hex::encode`: two lower-case hexadecimal digits for each byte, in order.
#[verifier::external_body]
fn hex_encode(b: &[u8]) -> (r: String)
    ensures
        r@ == hex_lower(b@),
{
    hex::encode(b)
}

/// The text of a machine identity: its bytes in lower-case hexadecimal.
pub fn machine_id_of(bytes: &Vec<u8>) -> (r: String)
    ensures
        r@ == hex_lower(bytes@),
{
    hex_encode(bytes.as_slice())
}

/// Whether stored identity bytes of `len` bytes must be drawn anew.
pub fn machine_id_invalid(len: usize) -> (r: bool)
    ensures
        r == (len != MACHINE_ID_LEN),
{
    len != MACHINE_ID_LEN
}

} // verus!
