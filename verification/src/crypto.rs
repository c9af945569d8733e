//! Cryptographic primitives the contract logic relies on.
use p256::ecdsa::signature::Verifier;
use vstd::prelude::*;

verus! {

/// Whether `signature` (64 bytes, `r || s`) is a valid ECDSA secp256r1 signature, over the
/// SHA-256 digest of `message`, by the SEC-1 encoded public key `public_key`.
pub uninterp spec fn secp256r1_signature_valid(
    public_key: Seq<u8>,
    message: Seq<u8>,
    signature: Seq<u8>,
) -> bool;

/// Verifies a passkey signature with the `p256` crate: `VerifyingKey::from_sec1_bytes` parses
/// the key (compressed or uncompressed SEC-1), `Signature::from_slice` parses the 64-byte
/// signature, and `Verifier::verify` hashes the message with SHA-256 and checks the signature.
/// A key or signature that does not parse counts as an invalid signature. `p256` accepts
/// both the low-S and the high-S form of a signature (the Soroban host's own verifier
/// refuses high-S ones); the passkey logic does not rely on signatures being unique, since
/// each accepted assertion uses up its challenge. The contract claims only that the answer
/// is a fixed function of the three byte strings; none of these calls panics on any input.
#[verifier::external_body]
pub(crate) fn secp256r1_verify(public_key: &Vec<u8>, message: &Vec<u8>, signature: &Vec<u8>) -> (valid: bool)
    ensures
        valid == secp256r1_signature_valid(public_key@, message@, signature@),
{
    let key = match p256::ecdsa::VerifyingKey::from_sec1_bytes(public_key.as_slice()) {
        Ok(key) => key,
        Err(_) => return false,
    };
    let sig = match p256::ecdsa::Signature::from_slice(signature.as_slice()) {
        Ok(sig) => sig,
        Err(_) => return false,
    };
    key.verify(message.as_slice(), &sig).is_ok()
}

/// The Soroban host environment of a contract invocation.
#[verifier::external_type_specification]
#[verifier::external_body]
pub struct ExEnv(soroban_sdk::Env);

/// The SHA-256 digest of `data`.
pub uninterp spec fn sha256_hash(data: Seq<u8>) -> Seq<u8>;

/// Hashes `data` with the host's SHA-256 (`soroban_sdk::crypto::Crypto::sha256`), after copying
/// it into host bytes with `soroban_sdk::Bytes::from_slice`. The contract claims that the
/// digest is a fixed function of `data` and is 32 bytes long (the SDK returns a `Hash<32>`).
/// Like every host call, it charges the invocation's resource budget; running out of budget
/// aborts the invocation, which is not stated here.
#[verifier::external_body]
pub(crate) fn sha256(env: &soroban_sdk::Env, data: &Vec<u8>) -> (digest: Vec<u8>)
    ensures
        digest@ == sha256_hash(data@),
        digest@.len() == 32,
{
    let bytes = soroban_sdk::Bytes::from_slice(env, data.as_slice());
    env.crypto().sha256(&bytes).to_array().to_vec()
}

} // verus!
