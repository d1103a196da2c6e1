//! Signatures from `p256`, hashes from `sha256`, and hexadecimal digits from `hex`.

use p256::ecdsa::signature::Signer;
use p256::ecdsa::signature::Verifier;
use p256::pkcs8::DecodePrivateKey;
use p256::pkcs8::DecodePublicKey;

use vstd::prelude::*;

verus! {

/// Whether `p256` reads `der` as a public key.
pub uninterp spec fn is_public_key(der: Seq<u8>) -> bool;

/// Whether `p256` reads `bytes` as a signature.
pub uninterp spec fn is_signature(bytes: Seq<u8>) -> bool;

/// Whether `p256` finds that `signature` was made for `message` with the private key that goes with
/// the public key `der`.
pub uninterp spec fn verifies(der: Seq<u8>, message: Seq<u8>, signature: Seq<u8>) -> bool;

/// Whether `p256` reads `der` as a private key.
pub uninterp spec fn is_private_key(der: Seq<u8>) -> bool;

/// The signature that `p256` makes for `message` with the private key `der`, if it can.
pub uninterp spec fn signature_of(der: Seq<u8>, message: Seq<u8>) -> Option<Seq<u8>>;

/// The hash that `sha256` makes of `data`, in hexadecimal digits.
pub uninterp spec fn sha256_text(data: Seq<u8>) -> Seq<char>;

/// `p256::ecdsa::VerifyingKey::from_public_key_der` reads a key or refuses, which depends on the
/// bytes alone.
#[verifier::external_body]
pub(crate) fn public_key_parses(der: &[u8]) -> (r: bool)
    ensures
        r == is_public_key(der@),
{
    p256::ecdsa::VerifyingKey::from_public_key_der(der).is_ok()
}

/// `p256::ecdsa::Signature::from_slice` reads a signature or refuses, which depends on the bytes
/// alone. It refuses what is not 64 bytes long.
#[verifier::external_body]
pub(crate) fn signature_parses(bytes: &[u8]) -> (r: bool)
    ensures
        r == is_signature(bytes@),
        r ==> bytes@.len() == 64,
{
    p256::ecdsa::Signature::from_slice(bytes).is_ok()
}

/// `verify` of a `p256::ecdsa::VerifyingKey` accepts a signature or refuses it, which depends on the
/// key, the message and the signature alone. There is nothing to accept where the key or the
/// signature cannot be read.
#[verifier::external_body]
pub(crate) fn verify(der: &[u8], message: &[u8], signature: &[u8]) -> (r: bool)
    ensures
        r == verifies(der@, message@, signature@),
        r ==> is_public_key(der@) && is_signature(signature@),
{
    match (
        p256::ecdsa::VerifyingKey::from_public_key_der(der),
        p256::ecdsa::Signature::from_slice(signature),
    ) {
        (Ok(key), Ok(signature)) => key.verify(message, &signature).is_ok(),
        _ => false,
    }
}

/// `p256::ecdsa::SigningKey::from_pkcs8_der` reads a key or refuses, which depends on the bytes
/// alone.
#[verifier::external_body]
pub(crate) fn private_key_parses(der: &[u8]) -> (r: bool)
    ensures
        r == is_private_key(der@),
{
    p256::ecdsa::SigningKey::from_pkcs8_der(der).is_ok()
}

/// `try_sign` of a `p256::ecdsa::SigningKey` draws no random numbers: the signature depends on the
/// key and the message alone. It has 64 bytes, and there is none where the key cannot be read.
#[verifier::external_body]
pub(crate) fn sign(der: &[u8], message: &[u8]) -> (r: Option<Vec<u8>>)
    ensures
        match r {
            Some(s) => signature_of(der@, message@) == Some(s@),
            None => signature_of(der@, message@) is None,
        },
        r matches Some(s) ==> s@.len() == 64 && is_private_key(der@),
{
    let key = p256::ecdsa::SigningKey::from_pkcs8_der(der).ok()?;
    let signature: Option<p256::ecdsa::Signature> = key.try_sign(message).ok();
    signature.map(|s| s.to_bytes().to_vec())
}

/// Whether a character is a hexadecimal digit.
pub open spec fn is_hex_digit(c: char) -> bool {
    '0' <= c <= '9' || 'a' <= c <= 'f' || 'A' <= c <= 'F'
}

/// The number that a hexadecimal digit stands for.
pub open spec fn hex_value(c: char) -> int {
    if '0' <= c <= '9' {
        c as int - '0' as int
    } else if 'a' <= c <= 'f' {
        c as int - 'a' as int + 10
    } else {
        c as int - 'A' as int + 10
    }
}

/// Whether a text is made of pairs of hexadecimal digits.
pub open spec fn is_hex_text(s: Seq<char>) -> bool {
    s.len() % 2 == 0 && forall|i: int| 0 <= i < s.len() ==> is_hex_digit(#[trigger] s[i])
}

/// The bytes that pairs of hexadecimal digits stand for.
pub open spec fn hex_bytes(s: Seq<char>) -> Seq<u8> {
    Seq::new(s.len() / 2, |i: int| (hex_value(s[2 * i]) * 16 + hex_value(s[2 * i + 1])) as u8)
}

/// `hex::decode` makes a byte of every two hexadecimal digits, in upper or lower case, and refuses
/// other characters and an odd number of them.
#[verifier::external_body]
pub(crate) fn hex_decode(s: &str) -> (r: Option<Vec<u8>>)
    ensures
        r is Some <==> is_hex_text(s@),
        r matches Some(bytes) ==> bytes@ == hex_bytes(s@),
{
    hex::decode(s).ok()
}

/// `sha256::digest` hashes bytes and gives the hash as 64 hexadecimal digits, which depend on the
/// bytes alone.
#[verifier::external_body]
pub(crate) fn sha256_digest(data: &[u8]) -> (s: String)
    ensures
        s@ == sha256_text(data@),
        s@.len() == 64,
        is_hex_text(s@),
{
    sha256::digest(data)
}

} // verus!
