use vstd::prelude::*;

verus! {

/// The SHA-256 digest of the UTF-8 bytes of a string.
pub uninterp spec fn sha256_of(s: Seq<char>) -> Seq<u8>;

/// Relies on sha2's `Sha256` (through the `Digest` interface): the digest is a
/// function of the input alone and is always exactly 32 bytes long.
#[verifier::external_body]
pub(crate) fn sha256_utf8(s: &str) -> (r: Vec<u8>)
    ensures
        r@ == sha256_of(s@),
        r@.len() == 32,
{
    <sha2::Sha256 as sha2::Digest>::digest(s.as_bytes()).to_vec()
}

} // verus!
