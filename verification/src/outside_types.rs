use vstd::prelude::*;

verus! {

/// `std::io::Error`, carried through the library's error types as an opaque value.
#[verifier::external_type_specification]
#[verifier::external_body]
pub struct ExIoError(std::io::Error);

} // verus!

verus! {

/// `serde_bencode::Error`, carried through the torrent error type as an opaque value.
#[verifier::external_type_specification]
#[verifier::external_body]
pub struct ExBencodeError(serde_bencode::Error);

} // verus!
