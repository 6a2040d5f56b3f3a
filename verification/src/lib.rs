pub mod bls381_fieldelem;
pub mod bytes;
pub mod decimal;
pub mod encoding;
pub mod hash;
pub mod logger;
pub mod rfc3339;
pub mod rsa_native;

use vstd::prelude::*;

verus! {

/// Number of bits used to shift 1 left to obtain the zero-centering origin.
pub const BITS_IN_ZERO: u64 = 254;

} // verus!
