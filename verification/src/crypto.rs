//! The cryptographic primitives the chain rests on: SHA-256 (`sha2`), ECDSA
//! over secp256k1 (`secp256k1`) and unbounded unsigned integers
//! (`num-bigint`). Each is reached through a small trusted item whose
//! contract says what the outside function gives back.
use vstd::prelude::*;
use vstd::arithmetic::power::pow;
use crate::codec::be_value;
use num_bigint::BigUint;
use sha2::Digest;

verus! {

/// The SHA-256 digest of a byte string, as `sha2::Sha256` computes it.
pub uninterp spec fn sha256(data: Seq<u8>) -> Seq<u8>;

/// `sha2::Sha256::digest`: the SHA-256 digest of `data`, 32 bytes long
/// (the output size of `Sha256` is `U32`).
#[verifier::external_body]
pub(crate) fn sha256_digest(data: &[u8]) -> (digest: Vec<u8>)
    ensures
        digest@ == sha256(data@),
        digest@.len() == 32,
{
    sha2::Sha256::digest(data).to_vec()
}

/// The order of the group of points of secp256k1.
pub open spec fn secp256k1_order() -> nat {
    0xFFFFFFFFFFFFFFFFFFFFFFFFFFFFFFFEBAAEDCE6AF48A03BBFD25E8CD0364141nat
}

/// A secret key that libsecp256k1 accepts: 32 bytes whose big-endian value
/// is neither 0 nor below the group order.
pub open spec fn secret_key_valid(secret_key: Seq<u8>) -> bool {
    &&& secret_key.len() == 32
    &&& 0 < be_value(secret_key) < secp256k1_order()
}

/// The DER encoding of the ECDSA signature (RFC 6979 nonce) that libsecp256k1
/// makes of a 32-byte digest under a secret key.
pub uninterp spec fn ecdsa_signature_der(secret_key: Seq<u8>, digest: Seq<u8>) -> Seq<u8>;

/// The public key of a secret key, serialized in compressed form (33 bytes).
pub uninterp spec fn public_key_of(secret_key: Seq<u8>) -> Seq<u8>;

/// Whether libsecp256k1 parses `public_key` as a serialized public key and
/// `signature_der` as a DER signature, and accepts the signature of `digest`.
pub uninterp spec fn ecdsa_verifies(public_key: Seq<u8>, digest: Seq<u8>, signature_der: Seq<u8>) -> bool;

/// `Secp256k1::sign_ecdsa` followed by `Signature::serialize_der`: the DER
/// signature of the 32-byte `digest` under `secret_key`. The nonce comes from
/// RFC 6979, so the signature is a function of the key and the digest. The
/// key is parsed by `SecretKey::from_slice`, which the `requires` makes
/// succeed. As the crate documents for `verify_ecdsa`, the signature verifies
/// for the digest under the key's public key.
#[verifier::external_body]
#[allow(deprecated)]
pub(crate) fn ecdsa_sign_der(secret_key: &[u8], digest: &[u8]) -> (signature: Vec<u8>)
    requires
        secret_key_valid(secret_key@),
        digest@.len() == 32,
    ensures
        signature@ == ecdsa_signature_der(secret_key@, digest@),
        ecdsa_verifies(public_key_of(secret_key@), digest@, signature@),
{
    let secp = secp256k1::Secp256k1::signing_only();
    let key = secp256k1::SecretKey::from_slice(secret_key).unwrap();
    let message = secp256k1::Message::from_digest(digest.try_into().unwrap());
    secp.sign_ecdsa(message, &key).serialize_der().to_vec()
}

/// `PublicKey::from_secret_key` followed by `PublicKey::serialize`: the
/// compressed public key of `secret_key`, which the `requires` makes a key
/// that `SecretKey::from_slice` accepts.
#[verifier::external_body]
#[allow(deprecated)]
pub(crate) fn secp_public_key(secret_key: &[u8]) -> (public_key: Vec<u8>)
    requires
        secret_key_valid(secret_key@),
    ensures
        public_key@ == public_key_of(secret_key@),
{
    let secp = secp256k1::Secp256k1::signing_only();
    let key = secp256k1::SecretKey::from_slice(secret_key).unwrap();
    secp256k1::PublicKey::from_secret_key(&secp, &key).serialize().to_vec()
}

/// `PublicKey::from_slice`, `ecdsa::Signature::from_der` and
/// `Secp256k1::verify_ecdsa`: true exactly when both parse and libsecp256k1
/// accepts the signature of the 32-byte `digest`; a parse error gives false.
/// `PublicKey::from_slice` takes only 33 or 65 bytes and `from_der` refuses
/// an empty slice, so other keys and an empty signature never verify.
#[verifier::external_body]
pub(crate) fn ecdsa_verify_der(public_key: &[u8], digest: &[u8], signature_der: &[u8]) -> (ok: bool)
    requires
        digest@.len() == 32,
    ensures
        ok == ecdsa_verifies(public_key@, digest@, signature_der@),
        public_key@.len() != 33 && public_key@.len() != 65 ==> !ok,
        signature_der@.len() == 0 ==> !ok,
{
    let secp = secp256k1::Secp256k1::verification_only();
    let message = secp256k1::Message::from_digest(digest.try_into().unwrap());
    let key = match secp256k1::PublicKey::from_slice(public_key) {
        Ok(key) => key,
        Err(_) => return false,
    };
    let signature = match secp256k1::ecdsa::Signature::from_der(signature_der) {
        Ok(signature) => signature,
        Err(_) => return false,
    };
    secp.verify_ecdsa(message, &signature, &key).is_ok()
}

#[verifier::external_type_specification]
#[verifier::external_body]
pub struct ExBigUint(BigUint);

/// The number that a `BigUint` holds.
pub uninterp spec fn biguint_value(n: BigUint) -> nat;

/// `BigUint::from(u64)`: the big integer of value `x`.
#[verifier::external_body]
pub(crate) fn biguint_from_u64(x: u64) -> (n: BigUint)
    ensures
        biguint_value(n) == x,
{
    BigUint::from(x)
}

/// `BigUint::from_bytes_be`: the big integer that `bytes` denotes, most
/// significant byte first (0 for no bytes).
#[verifier::external_body]
pub(crate) fn biguint_from_bytes_be(bytes: &[u8]) -> (n: BigUint)
    ensures
        biguint_value(n) == be_value(bytes@),
{
    BigUint::from_bytes_be(bytes)
}

/// `BigUint::pow`: `base` raised to `exponent`.
#[verifier::external_body]
pub(crate) fn biguint_pow(base: &BigUint, exponent: u32) -> (n: BigUint)
    ensures
        biguint_value(n) == pow(biguint_value(*base) as int, exponent as nat),
{
    base.pow(exponent)
}

/// `BigUint * BigUint`: the product.
#[verifier::external_body]
pub(crate) fn biguint_mul(a: BigUint, b: BigUint) -> (n: BigUint)
    ensures
        biguint_value(n) == biguint_value(a) * biguint_value(b),
{
    a * b
}

/// `BigUint / BigUint`: the quotient rounded down; the divisor must not be
/// zero (the crate panics on it).
#[verifier::external_body]
pub(crate) fn biguint_div(a: BigUint, b: BigUint) -> (n: BigUint)
    requires
        biguint_value(b) != 0,
    ensures
        biguint_value(n) == biguint_value(a) / biguint_value(b),
{
    a / b
}

/// `BigUint <= BigUint`: the order of the numbers.
#[verifier::external_body]
pub(crate) fn biguint_le(a: &BigUint, b: &BigUint) -> (r: bool)
    ensures
        r == (biguint_value(*a) <= biguint_value(*b)),
{
    a <= b
}

} // verus!
