//! Signing of org control requests.
//!
//! A control RPC carries the organization, a millisecond timestamp, the
//! service's public key, and a signature computed over the encoding of the
//! unsigned request with the service's keypair.  The keypair and the
//! signature scheme belong to the signer; the library holds the keypair
//! opaquely and keeps the request fields it was given.

use vstd::prelude::*;

verus! {

/// helium_crypto's keypair, held opaquely: the library hands it to the
/// signer and reads nothing inside it.
#[verifier::external_type_specification]
#[verifier::external_body]
pub struct ExKeypair(helium_crypto::Keypair);

/// The signer failed to produce a signature.
#[derive(Clone, Copy, PartialEq, Eq, Structural, Debug)]
pub struct SignError;

/// Relies on helium_crypto's `Sign::sign` for `Keypair`: a signature over
/// the message, in the encoding of the keypair's scheme.  Nothing is
/// assumed of the signature bytes.
#[verifier::external_body]
fn sign_bytes(keypair: &helium_crypto::Keypair, msg: &Vec<u8>) -> (r: Result<Vec<u8>, SignError>) {
    match helium_crypto::Sign::sign(keypair, msg.as_slice()) {
        Ok(signature) => Ok(signature),
        Err(_) => Err(SignError),
    }
}

/// Relies on `Keypair::public_key` and `Vec::<u8>::from(&PublicKey)`: the
/// binary form of the keypair's public key.
#[verifier::external_body]
fn public_key_bytes(keypair: &helium_crypto::Keypair) -> (r: Vec<u8>) {
    Vec::from(keypair.public_key())
}

/// A control request ready to send: the fields of the unsigned request,
/// the signer's public key, and the signature the shell attaches.
pub struct SignedOrgRequest {
    pub oui: u64,
    pub timestamp_ms: u64,
    pub signer: Vec<u8>,
    pub signature: Vec<u8>,
}

/// Sign one org control request.  The shell encodes the unsigned request
/// (organization, timestamp, signer) and hands the encoding in; the request
/// fields are kept as given, and the signature is whatever the signer
/// returned over that encoding.
pub fn signed_org_request(
    keypair: &helium_crypto::Keypair,
    oui: u64,
    timestamp_ms: u64,
    unsigned_encoding: &Vec<u8>,
) -> (r: Result<SignedOrgRequest, SignError>)
    ensures
        (match r {
            Ok(req) => req.oui == oui && req.timestamp_ms == timestamp_ms,
            Err(e) => e == SignError,
        }),
{
    let signer = public_key_bytes(keypair);
    match sign_bytes(keypair, unsigned_encoding) {
        Ok(signature) => Ok(SignedOrgRequest { oui, timestamp_ms, signer, signature }),
        Err(e) => Err(e),
    }
}

} // verus!
