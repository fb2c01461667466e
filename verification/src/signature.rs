//! Digital signatures of transactions, in four schemes.
//!
//! - Ed25519, for native transactions;
//! - Secp256k1 with key recovery, for transactions that Ethereum wallets sign;
//! - ML-DSA-65 (FIPS 204), a post-quantum scheme;
//! - Falcon-512, a post-quantum scheme.
//!
//! An address is the BLAKE3 hash of a public key; for Secp256k1, of the 64 bytes of the
//! uncompressed point without its prefix.

use vstd::prelude::*;

use crate::encoding;
use crate::encoding::{bytes_eq, copy_bytes, decimal_text, push_bytes};
use crate::hash;
use crate::hash::{blake3_derive, hash_bytes, Hash256};
use crate::parallel::par_map;

verus! {

/// ML-DSA-65 public key length in bytes.
pub const ML_DSA_PK_LEN: usize = 1952;

/// ML-DSA-65 secret key length in bytes.
pub const ML_DSA_SK_LEN: usize = 4032;

/// ML-DSA-65 signature length in bytes.
pub const ML_DSA_SIG_LEN: usize = 3309;

/// Falcon-512 public key length in bytes.
pub const FALCON_PK_LEN: usize = 897;

/// Falcon-512 secret key length in bytes.
pub const FALCON_SK_LEN: usize = 1281;

/// Falcon-512 maximum signature length in bytes; signatures are of variable length.
pub const FALCON_SIG_MAX_LEN: usize = 752;

// ---------------------------------------------------------------------------
// Errors
// ---------------------------------------------------------------------------

/// Why a signature is not made or not accepted.
#[derive(Debug, Clone, PartialEq, Eq)]
pub enum SignatureError {
    /// The signature does not verify.
    InvalidSignature,
    /// The public key is none.
    InvalidPublicKey,
    /// No key was generated.
    KeyGeneration,
    /// No signature was made.
    SigningFailed(String),
    /// A signature of a batch does not verify.
    BatchVerifyFailed,
    /// The public key belongs to another address.
    AddressMismatch { expected: String, got: String },
    /// The transaction data does not match its hash.
    HashMismatch,
    /// The signature has the wrong length.
    InvalidLength { expected: usize, got: usize },
}

/// What a signature error says.
pub enum SignatureErrorView {
    InvalidSignature,
    InvalidPublicKey,
    KeyGeneration,
    SigningFailed(Seq<char>),
    BatchVerifyFailed,
    AddressMismatch { expected: Seq<char>, got: Seq<char> },
    HashMismatch,
    InvalidLength { expected: usize, got: usize },
}

impl View for SignatureError {
    type V = SignatureErrorView;

    open spec fn view(&self) -> SignatureErrorView {
        match self {
            SignatureError::InvalidSignature => SignatureErrorView::InvalidSignature,
            SignatureError::InvalidPublicKey => SignatureErrorView::InvalidPublicKey,
            SignatureError::KeyGeneration => SignatureErrorView::KeyGeneration,
            SignatureError::SigningFailed(text) => SignatureErrorView::SigningFailed(text@),
            SignatureError::BatchVerifyFailed => SignatureErrorView::BatchVerifyFailed,
            SignatureError::AddressMismatch { expected, got } => {
                SignatureErrorView::AddressMismatch { expected: expected@, got: got@ }
            },
            SignatureError::HashMismatch => SignatureErrorView::HashMismatch,
            SignatureError::InvalidLength { expected, got } => {
                SignatureErrorView::InvalidLength { expected: *expected, got: *got }
            },
        }
    }
}

impl SignatureError {
    /// The error as a sentence.
    pub fn message(&self) -> (s: String)
        ensures
            s@ == match self@ {
                SignatureErrorView::InvalidSignature => "invalid signature"@,
                SignatureErrorView::InvalidPublicKey => "invalid public key"@,
                SignatureErrorView::KeyGeneration => "key generation failed"@,
                SignatureErrorView::SigningFailed(text) => "signing failed: "@ + text,
                SignatureErrorView::BatchVerifyFailed => "batch verification failed"@,
                SignatureErrorView::AddressMismatch { expected, got } => {
                    "address mismatch: expected "@ + expected + ", got "@ + got
                },
                SignatureErrorView::HashMismatch => {
                    "hash mismatch: transaction data does not match hash"@
                },
                SignatureErrorView::InvalidLength { expected, got } => {
                    "invalid signature length: expected "@ + encoding::decimal(expected as nat)
                        + ", got "@ + encoding::decimal(got as nat)
                },
            },
    {
        match self {
            SignatureError::InvalidSignature => "invalid signature".to_owned(),
            SignatureError::InvalidPublicKey => "invalid public key".to_owned(),
            SignatureError::KeyGeneration => "key generation failed".to_owned(),
            SignatureError::SigningFailed(text) => "signing failed: ".to_owned().concat(
                text.as_str(),
            ),
            SignatureError::BatchVerifyFailed => "batch verification failed".to_owned(),
            SignatureError::AddressMismatch { expected, got } => {
                "address mismatch: expected ".to_owned().concat(expected.as_str()).concat(
                    ", got ",
                ).concat(got.as_str())
            },
            SignatureError::HashMismatch => {
                "hash mismatch: transaction data does not match hash".to_owned()
            },
            SignatureError::InvalidLength { expected, got } => {
                let a: String = decimal_text(*expected as u64);
                let b: String = decimal_text(*got as u64);
                "invalid signature length: expected ".to_owned().concat(a.as_str()).concat(
                    ", got ",
                ).concat(b.as_str())
            },
        }
    }
}

// ---------------------------------------------------------------------------
// ed25519_dalek
// ---------------------------------------------------------------------------

/// The public key of an Ed25519 secret key.
pub uninterp spec fn ed25519_public(secret: Seq<u8>) -> Seq<u8>;

/// The signature of an Ed25519 secret key on a message.
pub uninterp spec fn ed25519_signature(secret: Seq<u8>, message: Seq<u8>) -> Seq<u8>;

/// Whether 32 bytes are an Ed25519 public key.
pub uninterp spec fn ed25519_key_decodes(key: Seq<u8>) -> bool;

/// Whether an Ed25519 signature on a message verifies under a public key.
pub uninterp spec fn ed25519_verifies(key: Seq<u8>, message: Seq<u8>, signature: Seq<u8>) -> bool;

/// Whether Ed25519 signatures on messages verify together under their public keys.
pub uninterp spec fn ed25519_batch_verifies(
    messages: Seq<Seq<u8>>,
    signatures: Seq<Seq<u8>>,
    keys: Seq<Seq<u8>>,
) -> bool;

/// `ed25519_dalek::SigningKey::generate` with the operating system's generator: 32 random bytes,
/// of which nothing is promised.
#[verifier::external_body]
fn ed25519_generate() -> (secret: [u8; 32]) {
    ed25519_dalek::SigningKey::generate(&mut rand::rngs::OsRng).to_bytes()
}

/// `ed25519_dalek::SigningKey::verifying_key`: it depends on the secret key alone, and its bytes
/// decode.
#[verifier::external_body]
fn ed25519_public_key(secret: &[u8; 32]) -> (key: [u8; 32])
    ensures
        key@ == ed25519_public(secret@),
        ed25519_key_decodes(key@),
{
    ed25519_dalek::SigningKey::from_bytes(secret).verifying_key().to_bytes()
}

/// `ed25519_dalek::SigningKey::sign`: it depends on the secret key and the message alone, and the
/// signature verifies under the public key of the secret key.
#[verifier::external_body]
fn ed25519_sign(secret: &[u8; 32], message: &[u8]) -> (signature: [u8; 64])
    ensures
        signature@ == ed25519_signature(secret@, message@),
        ed25519_verifies(ed25519_public(secret@), message@, signature@),
{
    let key = ed25519_dalek::SigningKey::from_bytes(secret);
    ed25519_dalek::Signer::sign(&key, message).to_bytes()
}

/// `ed25519_dalek::VerifyingKey::from_bytes`: whether it accepts the bytes, which depends on the
/// bytes alone; it accepts the public key of every secret key.
#[verifier::external_body]
fn ed25519_key_check(key: &[u8; 32]) -> (r: bool)
    ensures
        r == ed25519_key_decodes(key@),
        forall|secret: Seq<u8>|
            secret.len() == 32 && key@ == #[trigger] ed25519_public(secret) ==> r,
{
    ed25519_dalek::VerifyingKey::from_bytes(key).is_ok()
}

/// `ed25519_dalek::VerifyingKey::verify`: it depends on its arguments alone; nothing verifies
/// under bytes that are no key.
#[verifier::external_body]
fn ed25519_verify(key: &[u8; 32], message: &[u8], signature: &[u8; 64]) -> (r: bool)
    ensures
        r == ed25519_verifies(key@, message@, signature@),
{
    match ed25519_dalek::VerifyingKey::from_bytes(key) {
        Ok(vk) => {
            let sig = ed25519_dalek::Signature::from_bytes(signature);
            ed25519_dalek::Verifier::verify(&vk, message, &sig).is_ok()
        },
        Err(_) => false,
    }
}

/// Whether a signature was made by the secret key of a public key.
pub open spec fn ed25519_made(key: Seq<u8>, message: Seq<u8>, signature: Seq<u8>) -> bool {
    exists|secret: Seq<u8>|
        secret.len() == 32 && key == ed25519_public(secret)
            && signature == #[trigger] ed25519_signature(secret, message)
}

/// The byte strings of a list of slices.
pub open spec fn slices(items: Seq<&[u8]>) -> Seq<Seq<u8>> {
    items.map_values(|s: &[u8]| s@)
}

/// The byte strings of 64-byte arrays.
pub open spec fn arrays_64(items: Seq<[u8; 64]>) -> Seq<Seq<u8>> {
    items.map_values(|s: [u8; 64]| s@)
}

/// The byte strings of 32-byte arrays.
pub open spec fn arrays_32(items: Seq<[u8; 32]>) -> Seq<Seq<u8>> {
    items.map_values(|s: [u8; 32]| s@)
}

/// `ed25519_dalek::verify_batch`: it depends on its arguments alone, as its coefficients are
/// derived from them. Lists of different lengths do not verify; lists of signatures that were
/// made by the secret keys of their public keys do.
#[verifier::external_body]
fn ed25519_verify_batch(
    messages: &[&[u8]],
    signatures: &[[u8; 64]],
    keys: &[[u8; 32]],
) -> (r: bool)
    requires
        forall|i: int| 0 <= i < keys@.len() ==> ed25519_key_decodes((#[trigger] keys@[i])@),
    ensures
        r == ed25519_batch_verifies(
            slices(messages@),
            arrays_64(signatures@),
            arrays_32(keys@),
        ),
        r ==> messages@.len() == signatures@.len() && messages@.len() == keys@.len(),
        messages@.len() == signatures@.len() && messages@.len() == keys@.len() && (forall|i: int|
            0 <= i < keys@.len() ==> ed25519_made(
                (#[trigger] keys@[i])@,
                messages@[i]@,
                signatures@[i]@,
            )) ==> r,
{
    let sigs: Vec<ed25519_dalek::Signature> = signatures.iter().map(
        |s| ed25519_dalek::Signature::from_bytes(s),
    ).collect();
    let vks: Vec<ed25519_dalek::VerifyingKey> = keys.iter().map(
        |k| ed25519_dalek::VerifyingKey::from_bytes(k).unwrap(),
    ).collect();
    ed25519_dalek::verify_batch(messages, &sigs, &vks).is_ok()
}

// ---------------------------------------------------------------------------
// k256
// ---------------------------------------------------------------------------

/// The order of the group of Secp256k1.
pub open spec fn secp256k1_group_order() -> nat {
    0xfffffffffffffffffffffffffffffffebaaedce6af48a03bbfd25e8cd0364141nat
}

/// Whether 32 bytes are a Secp256k1 secret key: a big-endian number that is neither zero nor as
/// large as the group order.
pub open spec fn secp256k1_secret_valid(secret: Seq<u8>) -> bool {
    0 < encoding::be_value(secret) < secp256k1_group_order()
}

/// The public key of a Secp256k1 secret key, as a compressed or uncompressed point.
pub uninterp spec fn secp256k1_public(secret: Seq<u8>, compress: bool) -> Seq<u8>;

/// The signature of a Secp256k1 secret key on a hash with its recovery identifier, or the reason
/// for which there is none.
pub uninterp spec fn secp256k1_signature(secret: Seq<u8>, digest: Seq<u8>) -> Result<
    (Seq<u8>, u8),
    Seq<char>,
>;

/// The public key that a Secp256k1 signature on a hash and a recovery identifier yield, as an
/// uncompressed point.
pub uninterp spec fn secp256k1_recovered(digest: Seq<u8>, signature: Seq<u8>, v: u8) -> Option<
    Seq<u8>,
>;

/// `k256::ecdsa::SigningKey::random` with the operating system's generator: a random secret key.
#[verifier::external_body]
fn secp256k1_generate() -> (secret: [u8; 32])
    ensures
        secp256k1_secret_valid(secret@),
{
    k256::ecdsa::SigningKey::random(&mut rand::rngs::OsRng).to_bytes().into()
}

/// `k256::ecdsa::SigningKey::from_slice`: whether it accepts the bytes, which it does where the
/// big-endian number is neither zero nor as large as the group order.
#[verifier::external_body]
fn secp256k1_secret_check(secret: &[u8; 32]) -> (r: bool)
    ensures
        r == secp256k1_secret_valid(secret@),
{
    k256::ecdsa::SigningKey::from_slice(secret).is_ok()
}

/// `k256::ecdsa::VerifyingKey::to_encoded_point` of the key of a secret key: 33 bytes if
/// compressed, else 65; it depends on its arguments alone.
#[verifier::external_body]
fn secp256k1_public_key(secret: &[u8; 32], compress: bool) -> (key: Vec<u8>)
    requires
        secp256k1_secret_valid(secret@),
    ensures
        key@ == secp256k1_public(secret@, compress),
        key@.len() == if compress {
            33int
        } else {
            65
        },
{
    let key = k256::ecdsa::SigningKey::from_slice(secret).unwrap();
    key.verifying_key().to_encoded_point(compress).as_bytes().to_vec()
}

/// `k256::ecdsa::SigningKey::sign_prehash_recoverable`: it depends on the secret key and the hash
/// alone, and recovery from the signature yields the public key of the secret key.
#[verifier::external_body]
fn secp256k1_sign(secret: &[u8; 32], digest: &[u8; 32]) -> (r: Result<([u8; 64], u8), String>)
    requires
        secp256k1_secret_valid(secret@),
    ensures
        match (r, secp256k1_signature(secret@, digest@)) {
            (Ok(s), Ok(named)) => {
                &&& s.0@ == named.0
                &&& s.1 == named.1
                &&& secp256k1_recovered(digest@, s.0@, s.1) == Some(
                    secp256k1_public(secret@, false),
                )
            },
            (Err(text), Err(named)) => text@ == named,
            _ => false,
        },
{
    let key = k256::ecdsa::SigningKey::from_slice(secret).unwrap();
    match key.sign_prehash_recoverable(digest) {
        Ok((sig, id)) => Ok((sig.to_bytes().into(), id.to_byte())),
        Err(e) => Err(e.to_string()),
    }
}

/// `k256::ecdsa::VerifyingKey::recover_from_prehash`, as an uncompressed point of 65 bytes: it
/// depends on its arguments alone. There is no key where the recovery identifier or the signature
/// is none.
#[verifier::external_body]
fn secp256k1_recover(digest: &[u8; 32], signature: &[u8], v: u8) -> (r: Option<Vec<u8>>)
    ensures
        match (r, secp256k1_recovered(digest@, signature@, v)) {
            (Some(key), Some(named)) => key@ == named && key@.len() == 65,
            (None, None) => true,
            _ => false,
        },
{
    let id = k256::ecdsa::RecoveryId::try_from(v).ok()?;
    let sig = k256::ecdsa::Signature::from_slice(signature).ok()?;
    let key = k256::ecdsa::VerifyingKey::recover_from_prehash(digest, &sig, id).ok()?;
    Some(key.to_encoded_point(false).as_bytes().to_vec())
}

// ---------------------------------------------------------------------------
// fips204
// ---------------------------------------------------------------------------

/// Whether key generation can return these ML-DSA-65 keys together.
pub uninterp spec fn ml_dsa_pair(key: Seq<u8>, secret: Seq<u8>) -> bool;

/// Why bytes are no ML-DSA-65 secret key.
pub uninterp spec fn ml_dsa_secret_fault(secret: Seq<u8>) -> Option<Seq<char>>;

/// Whether bytes are an ML-DSA-65 public key.
pub uninterp spec fn ml_dsa_key_decodes(key: Seq<u8>) -> bool;

/// Whether an ML-DSA-65 signature on a message verifies under a public key.
pub uninterp spec fn ml_dsa_verifies(key: Seq<u8>, message: Seq<u8>, signature: Seq<u8>) -> bool;

/// `fips204::ml_dsa_65::try_keygen` with the operating system's generator: random keys that
/// belong together, public key first; `None` where the generator fails.
#[verifier::external_body]
fn ml_dsa_generate() -> (r: Option<(Vec<u8>, Vec<u8>)>)
    ensures
        r matches Some(keys) ==> {
            &&& ml_dsa_pair(keys.0@, keys.1@)
            &&& keys.0@.len() == 1952
            &&& keys.1@.len() == 4032
        },
{
    let (pk, sk) = fips204::ml_dsa_65::try_keygen().ok()?;
    let key = fips204::traits::SerDes::into_bytes(pk);
    let secret = fips204::traits::SerDes::into_bytes(sk);
    Some((key.to_vec(), secret.to_vec()))
}

/// `fips204::ml_dsa_65::PrivateKey::try_from_bytes`: why it refuses the bytes, which depends on
/// the bytes alone; it accepts what key generation returns.
#[verifier::external_body]
fn ml_dsa_secret_check(secret: &[u8]) -> (r: Option<String>)
    requires
        secret@.len() == 4032,
    ensures
        match (r, ml_dsa_secret_fault(secret@)) {
            (Some(text), Some(named)) => text@ == named,
            (None, None) => true,
            _ => false,
        },
        forall|key: Seq<u8>| #[trigger] ml_dsa_pair(key, secret@) ==> r is None,
{
    let bytes: [u8; 4032] = secret.try_into().unwrap();
    let key: Result<fips204::ml_dsa_65::PrivateKey, &'static str> =
        fips204::traits::SerDes::try_from_bytes(bytes);
    key.err().map(|e| e.to_string())
}

/// `fips204::ml_dsa_65::PrivateKey::try_sign` with no context and the operating system's
/// generator: a random signature, which verifies under the public key that was generated with the
/// secret key; or the reason for which there is none.
#[verifier::external_body]
fn ml_dsa_sign(secret: &[u8], message: &[u8]) -> (r: Result<Vec<u8>, String>)
    requires
        secret@.len() == 4032,
        ml_dsa_secret_fault(secret@) is None,
    ensures
        r matches Ok(signature) ==> {
            &&& signature@.len() == 3309
            &&& forall|key: Seq<u8>| #[trigger]
                ml_dsa_pair(key, secret@) ==> ml_dsa_key_decodes(key) && ml_dsa_verifies(
                    key,
                    message@,
                    signature@,
                )
        },
{
    let bytes: [u8; 4032] = secret.try_into().unwrap();
    let key: fips204::ml_dsa_65::PrivateKey = fips204::traits::SerDes::try_from_bytes(
        bytes,
    ).unwrap();
    match fips204::traits::Signer::try_sign(&key, message, &[]) {
        Ok(signature) => Ok(signature.to_vec()),
        Err(e) => Err(e.to_string()),
    }
}

/// `fips204::ml_dsa_65::PublicKey::try_from_bytes`: whether it accepts the bytes, which depends on
/// the bytes alone.
#[verifier::external_body]
fn ml_dsa_key_check(key: &[u8]) -> (r: bool)
    requires
        key@.len() == 1952,
    ensures
        r == ml_dsa_key_decodes(key@),
{
    let bytes: [u8; 1952] = key.try_into().unwrap();
    let key: Result<fips204::ml_dsa_65::PublicKey, &'static str> =
        fips204::traits::SerDes::try_from_bytes(bytes);
    key.is_ok()
}

/// `fips204::ml_dsa_65::PublicKey::verify` with no context: it depends on its arguments alone.
#[verifier::external_body]
fn ml_dsa_verify(key: &[u8], message: &[u8], signature: &[u8]) -> (r: bool)
    requires
        key@.len() == 1952,
        signature@.len() == 3309,
        ml_dsa_key_decodes(key@),
    ensures
        r == ml_dsa_verifies(key@, message@, signature@),
{
    let bytes: [u8; 1952] = key.try_into().unwrap();
    let key: fips204::ml_dsa_65::PublicKey = fips204::traits::SerDes::try_from_bytes(
        bytes,
    ).unwrap();
    let signature: [u8; 3309] = signature.try_into().unwrap();
    fips204::traits::Verifier::verify(&key, message, &signature, &[])
}

// ---------------------------------------------------------------------------
// pqcrypto_falcon
// ---------------------------------------------------------------------------

/// Whether key generation can return these Falcon-512 keys together.
pub uninterp spec fn falcon_pair(key: Seq<u8>, secret: Seq<u8>) -> bool;

/// Whether key generation can return this Falcon-512 secret key.
pub open spec fn falcon_generated(secret: Seq<u8>) -> bool {
    exists|key: Seq<u8>| falcon_pair(key, secret)
}

/// Whether a Falcon-512 signature on a message verifies under a public key.
pub uninterp spec fn falcon_verifies(key: Seq<u8>, message: Seq<u8>, signature: Seq<u8>) -> bool;

/// `pqcrypto_falcon::falcon512::keypair`: random keys that belong together, public key first.
#[verifier::external_body]
fn falcon_generate() -> (keys: (Vec<u8>, Vec<u8>))
    ensures
        falcon_pair(keys.0@, keys.1@),
        keys.0@.len() == 897,
        keys.1@.len() == 1281,
{
    let (pk, sk) = pqcrypto_falcon::falcon512::keypair();
    let key = pqcrypto_traits::sign::PublicKey::as_bytes(&pk);
    let secret = pqcrypto_traits::sign::SecretKey::as_bytes(&sk);
    (key.to_vec(), secret.to_vec())
}

/// `pqcrypto_falcon::falcon512::detached_sign`: a random signature of at most 752 bytes, which
/// verifies under the public key that was generated with the secret key. It samples until the
/// signature is short enough, which with bytes that were not generated may never be.
#[verifier::external_body]
fn falcon_detached_sign(secret: &[u8], message: &[u8]) -> (signature: Vec<u8>)
    requires
        secret@.len() == 1281,
        falcon_generated(secret@),
    ensures
        signature@.len() <= 752,
        forall|key: Seq<u8>| #[trigger]
            falcon_pair(key, secret@) ==> falcon_verifies(key, message@, signature@),
{
    let key: pqcrypto_falcon::falcon512::SecretKey =
        pqcrypto_traits::sign::SecretKey::from_bytes(secret).unwrap();
    let signature = pqcrypto_falcon::falcon512::detached_sign(message, &key);
    pqcrypto_traits::sign::DetachedSignature::as_bytes(&signature).to_vec()
}

/// `pqcrypto_falcon::falcon512::verify_detached_signature`: it depends on its arguments alone.
#[verifier::external_body]
fn falcon_detached_verify(key: &[u8], message: &[u8], signature: &[u8]) -> (r: bool)
    requires
        key@.len() == 897,
        signature@.len() <= 752,
    ensures
        r == falcon_verifies(key@, message@, signature@),
{
    let key: pqcrypto_falcon::falcon512::PublicKey =
        pqcrypto_traits::sign::PublicKey::from_bytes(key).unwrap();
    let signature: pqcrypto_falcon::falcon512::DetachedSignature =
        pqcrypto_traits::sign::DetachedSignature::from_bytes(signature).unwrap();
    pqcrypto_falcon::falcon512::verify_detached_signature(&signature, message, &key).is_ok()
}

// ---------------------------------------------------------------------------
// Addresses
// ---------------------------------------------------------------------------

/// The address of a public key: its hash.
pub open spec fn key_address(key: Seq<u8>) -> Seq<u8> {
    hash::blake3_digest(key)
}

/// Derives an address from an Ed25519 public key.
pub fn address_from_ed25519_pubkey(public_key: &[u8; 32]) -> (h: Hash256)
    ensures
        h@ == key_address(public_key@),
{
    hash_bytes(public_key)
}

/// Derives an address from a Secp256k1 public key: an uncompressed point without prefix.
pub fn address_from_secp256k1_pubkey(raw_pubkey_64: &[u8]) -> (h: Hash256)
    requires
        raw_pubkey_64@.len() == 64,
    ensures
        h@ == key_address(raw_pubkey_64@),
{
    hash_bytes(raw_pubkey_64)
}

/// Derives an address from an ML-DSA-65 public key.
pub fn address_from_ml_dsa_pubkey(public_key: &[u8]) -> (h: Hash256)
    requires
        public_key@.len() == ML_DSA_PK_LEN,
    ensures
        h@ == key_address(public_key@),
{
    hash_bytes(public_key)
}

/// Derives an address from a Falcon-512 public key.
pub fn address_from_falcon_pubkey(public_key: &[u8]) -> (h: Hash256)
    requires
        public_key@.len() == FALCON_PK_LEN,
    ensures
        h@ == key_address(public_key@),
{
    hash_bytes(public_key)
}

// ---------------------------------------------------------------------------
// Signatures
// ---------------------------------------------------------------------------

/// Cryptographic signature proving transaction authorization. All but Secp256k1 signatures carry
/// the public key.
#[derive(Clone, Debug, PartialEq, Eq)]
pub enum Signature {
    /// Ed25519 signature (fast, for native/agent transactions).
    Ed25519 {
        /// 32-byte compressed public key.
        public_key: [u8; 32],
        /// 64-byte Ed25519 signature.
        signature: Vec<u8>,
    },
    /// Secp256k1 recoverable signature (ETH-compatible).
    Secp256k1 {
        /// 65-byte recoverable signature: r[32], s[32], v[1].
        signature: Vec<u8>,
    },
    /// ML-DSA-65 post-quantum signature (NIST FIPS 204).
    MlDsa65 {
        /// 1952-byte ML-DSA-65 public key.
        public_key: Vec<u8>,
        /// 3309-byte ML-DSA-65 signature.
        signature: Vec<u8>,
    },
    /// Falcon-512 post-quantum signature (NTRU lattice-based).
    Falcon512 {
        /// 897-byte Falcon-512 public key.
        public_key: Vec<u8>,
        /// Variable-length Falcon-512 signature (up to 752 bytes).
        signature: Vec<u8>,
    },
}

/// What a signature holds.
pub enum SignatureView {
    Ed25519 { public_key: Seq<u8>, signature: Seq<u8> },
    Secp256k1 { signature: Seq<u8> },
    MlDsa65 { public_key: Seq<u8>, signature: Seq<u8> },
    Falcon512 { public_key: Seq<u8>, signature: Seq<u8> },
}

/// The null signature, for unsigned transactions: an Ed25519 signature of zeros.
pub open spec fn null_signature() -> SignatureView {
    SignatureView::Ed25519 {
        public_key: Seq::new(32, |i: int| 0u8),
        signature: Seq::new(64, |i: int| 0u8),
    }
}

impl View for Signature {
    type V = SignatureView;

    open spec fn view(&self) -> SignatureView {
        match self {
            Signature::Ed25519 { public_key, signature } => SignatureView::Ed25519 {
                public_key: public_key@,
                signature: signature@,
            },
            Signature::Secp256k1 { signature } => SignatureView::Secp256k1 {
                signature: signature@,
            },
            Signature::MlDsa65 { public_key, signature } => SignatureView::MlDsa65 {
                public_key: public_key@,
                signature: signature@,
            },
            Signature::Falcon512 { public_key, signature } => SignatureView::Falcon512 {
                public_key: public_key@,
                signature: signature@,
            },
        }
    }
}

/// The fault of a public key that does not belong to the expected address.
pub open spec fn address_fault(public_key: Seq<u8>, expected: Seq<u8>) -> Option<
    SignatureErrorView,
> {
    let derived = hash::blake3_digest(public_key);
    if derived != expected {
        Some(
            SignatureErrorView::AddressMismatch {
                expected: hash::hex_text(expected),
                got: hash::hex_text(derived),
            },
        )
    } else {
        None
    }
}

/// Why a signature on a message hash does not authorize an address, if it does not. The length
/// is checked first, then the address of the public key, then the signature; for Secp256k1 the
/// public key is recovered from the signature before its address is checked.
pub open spec fn signature_fault(s: SignatureView, message: Seq<u8>, address: Seq<u8>) -> Option<
    SignatureErrorView,
> {
    match s {
        SignatureView::Ed25519 { public_key, signature } => {
            if signature.len() != 64 {
                Some(
                    SignatureErrorView::InvalidLength {
                        expected: 64,
                        got: signature.len() as usize,
                    },
                )
            } else if address_fault(public_key, address) is Some {
                address_fault(public_key, address)
            } else if !ed25519_key_decodes(public_key) {
                Some(SignatureErrorView::InvalidPublicKey)
            } else if !ed25519_verifies(public_key, message, signature) {
                Some(SignatureErrorView::InvalidSignature)
            } else {
                None
            }
        },
        SignatureView::Secp256k1 { signature } => {
            if signature.len() != 65 {
                Some(
                    SignatureErrorView::InvalidLength {
                        expected: 65,
                        got: signature.len() as usize,
                    },
                )
            } else {
                match secp256k1_recovered(message, signature.subrange(0, 64), signature[64]) {
                    None => Some(SignatureErrorView::InvalidSignature),
                    Some(key) => address_fault(key.subrange(1, 65), address),
                }
            }
        },
        SignatureView::MlDsa65 { public_key, signature } => {
            if signature.len() != 3309 {
                Some(
                    SignatureErrorView::InvalidLength {
                        expected: 3309,
                        got: signature.len() as usize,
                    },
                )
            } else if public_key.len() != 1952 {
                Some(SignatureErrorView::InvalidPublicKey)
            } else if address_fault(public_key, address) is Some {
                address_fault(public_key, address)
            } else if !ml_dsa_key_decodes(public_key) {
                Some(SignatureErrorView::InvalidPublicKey)
            } else if !ml_dsa_verifies(public_key, message, signature) {
                Some(SignatureErrorView::InvalidSignature)
            } else {
                None
            }
        },
        SignatureView::Falcon512 { public_key, signature } => {
            if signature.len() > 752 {
                Some(
                    SignatureErrorView::InvalidLength {
                        expected: 752,
                        got: signature.len() as usize,
                    },
                )
            } else if public_key.len() != 897 {
                Some(SignatureErrorView::InvalidPublicKey)
            } else if address_fault(public_key, address) is Some {
                address_fault(public_key, address)
            } else if !falcon_verifies(public_key, message, signature) {
                Some(SignatureErrorView::InvalidSignature)
            } else {
                None
            }
        },
    }
}

/// Whether a result accepts where there is no fault, and else reports the fault.
pub open spec fn reports(r: Result<(), SignatureError>, fault: Option<SignatureErrorView>) -> bool {
    match r {
        Ok(()) => fault is None,
        Err(e) => fault == Some(e@),
    }
}

/// Compares the address of a public key with the expected one.
fn check_address(derived: &Hash256, expected: &Hash256) -> (r: Result<(), SignatureError>)
    ensures
        match r {
            Ok(()) => derived@ == expected@,
            Err(e) => derived@ != expected@ && e@ == (SignatureErrorView::AddressMismatch {
                expected: hash::hex_text(expected@),
                got: hash::hex_text(derived@),
            }),
        },
{
    if bytes_eq(&derived.0, &expected.0) {
        Ok(())
    } else {
        Err(
            SignatureError::AddressMismatch { expected: expected.to_hex(), got: derived.to_hex() },
        )
    }
}

/// The first 64 bytes as an array.
fn first_64(data: &[u8]) -> (out: [u8; 64])
    requires
        data@.len() >= 64,
    ensures
        out@ == data@.subrange(0, 64),
{
    let mut out: [u8; 64] = [0u8;64];
    let mut i: usize = 0;
    while i < 64
        invariant
            i <= 64,
            data@.len() >= 64,
            forall|j: int| 0 <= j < i ==> out@[j] == data@[j],
        decreases 64 - i,
    {
        out[i] = data[i];
        i = i + 1;
    }
    assert(out@ =~= data@.subrange(0, 64));
    out
}

/// Whether all bytes are zero.
pub open spec fn zeroed(data: Seq<u8>) -> bool {
    forall|i: int| 0 <= i < data.len() ==> #[trigger] data[i] == 0
}

/// Whether all bytes are zero.
fn all_zero(data: &[u8]) -> (r: bool)
    ensures
        r == zeroed(data@),
{
    let mut i: usize = 0;
    while i < data.len()
        invariant
            i <= data.len(),
            forall|j: int| 0 <= j < i ==> #[trigger] data@[j] == 0,
        decreases data.len() - i,
    {
        if data[i] != 0 {
            return false;
        }
        i = i + 1;
    }
    true
}

impl Signature {
    /// Verifies this signature against a message hash and the address of the expected sender.
    pub fn verify(&self, message_hash: &Hash256, expected_address: &Hash256) -> (r: Result<
        (),
        SignatureError,
    >)
        ensures
            reports(r, signature_fault(self@, message_hash@, expected_address@)),
    {
        match self {
            Signature::Ed25519 { public_key, signature } => {
                if signature.len() != 64 {
                    return Err(
                        SignatureError::InvalidLength { expected: 64, got: signature.len() },
                    );
                }
                let derived: Hash256 = address_from_ed25519_pubkey(public_key);
                if let Err(e) = check_address(&derived, expected_address) {
                    return Err(e);
                }
                if !ed25519_key_check(public_key) {
                    return Err(SignatureError::InvalidPublicKey);
                }
                let sig_bytes: [u8; 64] = first_64(signature.as_slice());
                assert(sig_bytes@ =~= signature@);
                if ed25519_verify(public_key, &message_hash.0, &sig_bytes) {
                    Ok(())
                } else {
                    Err(SignatureError::InvalidSignature)
                }
            },
            Signature::Secp256k1 { signature } => {
                if signature.len() != 65 {
                    return Err(
                        SignatureError::InvalidLength { expected: 65, got: signature.len() },
                    );
                }
                let rs: &[u8] = vstd::slice::slice_subrange(signature.as_slice(), 0, 64);
                match secp256k1_recover(&message_hash.0, rs, signature[64]) {
                    None => Err(SignatureError::InvalidSignature),
                    Some(key) => {
                        let point: &[u8] = vstd::slice::slice_subrange(key.as_slice(), 1, 65);
                        let derived: Hash256 = address_from_secp256k1_pubkey(point);
                        check_address(&derived, expected_address)
                    },
                }
            },
            Signature::MlDsa65 { public_key, signature } => {
                if signature.len() != ML_DSA_SIG_LEN {
                    return Err(
                        SignatureError::InvalidLength {
                            expected: ML_DSA_SIG_LEN,
                            got: signature.len(),
                        },
                    );
                }
                if public_key.len() != ML_DSA_PK_LEN {
                    return Err(SignatureError::InvalidPublicKey);
                }
                let derived: Hash256 = address_from_ml_dsa_pubkey(public_key.as_slice());
                if let Err(e) = check_address(&derived, expected_address) {
                    return Err(e);
                }
                if !ml_dsa_key_check(public_key.as_slice()) {
                    return Err(SignatureError::InvalidPublicKey);
                }
                if ml_dsa_verify(public_key.as_slice(), &message_hash.0, signature.as_slice()) {
                    Ok(())
                } else {
                    Err(SignatureError::InvalidSignature)
                }
            },
            Signature::Falcon512 { public_key, signature } => {
                if signature.len() > FALCON_SIG_MAX_LEN {
                    return Err(
                        SignatureError::InvalidLength {
                            expected: FALCON_SIG_MAX_LEN,
                            got: signature.len(),
                        },
                    );
                }
                if public_key.len() != FALCON_PK_LEN {
                    return Err(SignatureError::InvalidPublicKey);
                }
                let derived: Hash256 = address_from_falcon_pubkey(public_key.as_slice());
                if let Err(e) = check_address(&derived, expected_address) {
                    return Err(e);
                }
                if falcon_detached_verify(
                    public_key.as_slice(),
                    &message_hash.0,
                    signature.as_slice(),
                ) {
                    Ok(())
                } else {
                    Err(SignatureError::InvalidSignature)
                }
            },
        }
    }

    /// The null signature.
    pub fn null() -> (r: Self)
        ensures
            r@ == null_signature(),
    {
        let zero_key: [u8; 32] = [0u8;32];
        let zeros: [u8; 64] = [0u8;64];
        let signature: Vec<u8> = copy_bytes(&zeros);
        assert(zero_key@ =~= Seq::new(32, |i: int| 0u8));
        assert(signature@ =~= Seq::new(64, |i: int| 0u8));
        Signature::Ed25519 { public_key: zero_key, signature }
    }

    /// Whether this is the null signature.
    pub fn is_null(&self) -> (r: bool)
        ensures
            r == (self@ == null_signature()),
    {
        match self {
            Signature::Ed25519 { public_key, signature } => {
                let r: bool = signature.len() == 64 && all_zero(public_key) && all_zero(
                    signature.as_slice(),
                );
                proof {
                    let zeros = null_signature();
                    if r {
                        assert(public_key@ =~= zeros->Ed25519_public_key);
                        assert(signature@ =~= zeros->Ed25519_signature);
                    }
                }
                r
            },
            _ => false,
        }
    }
}

impl Default for Signature {
    fn default() -> (r: Self)
        ensures
            r@ == null_signature(),
    {
        Self::null()
    }
}

// ---------------------------------------------------------------------------
// Key pairs
// ---------------------------------------------------------------------------

/// A Secp256k1 secret key: a scalar that is neither zero nor too large.
pub struct Secp256k1Key {
    bytes: [u8; 32],
}

impl Secp256k1Key {
    #[verifier::type_invariant]
    spec fn valid(&self) -> bool {
        secp256k1_secret_valid(self.bytes@)
    }

    /// The bytes of the scalar.
    pub closed spec fn secret(&self) -> Seq<u8> {
        self.bytes@
    }

    /// The secret key with the given scalar, if the bytes are one.
    pub fn from_bytes(bytes: &[u8; 32]) -> (r: Option<Self>)
        ensures
            r is Some == secp256k1_secret_valid(bytes@),
            r matches Some(key) ==> key.secret() == bytes@,
    {
        if secp256k1_secret_check(bytes) {
            Some(Secp256k1Key { bytes: *bytes })
        } else {
            None
        }
    }

    /// The bytes of the scalar.
    pub fn to_bytes(&self) -> (r: [u8; 32])
        ensures
            r@ == self.secret(),
    {
        self.bytes
    }

    /// A random scalar.
    fn random() -> (key: Self)
        ensures
            secp256k1_secret_valid(key.secret()),
    {
        let bytes: [u8; 32] = secp256k1_generate();
        Secp256k1Key { bytes }
    }

    fn public_key(&self, compress: bool) -> (key: Vec<u8>)
        ensures
            key@ == secp256k1_public(self.secret(), compress),
            key@.len() == if compress {
                33int
            } else {
                65
            },
    {
        proof {
            use_type_invariant(self);
        }
        secp256k1_public_key(&self.bytes, compress)
    }

    fn sign(&self, digest: &[u8; 32]) -> (r: Result<([u8; 64], u8), String>)
        ensures
            match (r, secp256k1_signature(self.secret(), digest@)) {
                (Ok(s), Ok(named)) => {
                    &&& s.0@ == named.0
                    &&& s.1 == named.1
                    &&& secp256k1_recovered(digest@, s.0@, s.1) == Some(
                        secp256k1_public(self.secret(), false),
                    )
                },
                (Err(text), Err(named)) => text@ == named,
                _ => false,
            },
    {
        proof {
            use_type_invariant(self);
        }
        secp256k1_sign(&self.bytes, digest)
    }
}

/// Key pair for signing transactions.
pub enum KeyPair {
    /// Ed25519 key pair, by its 32-byte secret key.
    Ed25519([u8; 32]),
    /// Secp256k1 key pair, by its secret key.
    Secp256k1(Secp256k1Key),
    /// ML-DSA-65 key pair.
    MlDsa65 {
        /// 4032-byte serialized private key.
        sk_bytes: Vec<u8>,
        /// 1952-byte serialized public key.
        pk_bytes: Vec<u8>,
    },
    /// Falcon-512 key pair.
    Falcon512 {
        /// 1281-byte serialized secret key.
        sk_bytes: Vec<u8>,
        /// 897-byte serialized public key.
        pk_bytes: Vec<u8>,
    },
}

/// What a key pair holds.
pub enum KeyPairView {
    Ed25519(Seq<u8>),
    Secp256k1(Seq<u8>),
    MlDsa65 { secret: Seq<u8>, key: Seq<u8> },
    Falcon512 { secret: Seq<u8>, key: Seq<u8> },
}

impl View for KeyPair {
    type V = KeyPairView;

    open spec fn view(&self) -> KeyPairView {
        match self {
            KeyPair::Ed25519(secret) => KeyPairView::Ed25519(secret@),
            KeyPair::Secp256k1(key) => KeyPairView::Secp256k1(key.secret()),
            KeyPair::MlDsa65 { sk_bytes, pk_bytes } => KeyPairView::MlDsa65 {
                secret: sk_bytes@,
                key: pk_bytes@,
            },
            KeyPair::Falcon512 { sk_bytes, pk_bytes } => KeyPairView::Falcon512 {
                secret: sk_bytes@,
                key: pk_bytes@,
            },
        }
    }
}

/// Whether a key pair has a public key of the right length.
pub open spec fn has_address(k: KeyPairView) -> bool {
    match k {
        KeyPairView::MlDsa65 { key, .. } => key.len() == 1952,
        KeyPairView::Falcon512 { key, .. } => key.len() == 897,
        _ => true,
    }
}

/// Whether the two keys of a key pair were generated together; in the first two schemes the
/// public key is computed from the secret key.
pub open spec fn belongs_together(k: KeyPairView) -> bool {
    match k {
        KeyPairView::MlDsa65 { secret, key } => key.len() == 1952 && ml_dsa_pair(key, secret),
        KeyPairView::Falcon512 { secret, key } => key.len() == 897 && falcon_pair(key, secret),
        _ => true,
    }
}

/// The address of a key pair.
pub open spec fn address_of(k: KeyPairView) -> Seq<u8> {
    match k {
        KeyPairView::Ed25519(secret) => hash::blake3_digest(ed25519_public(secret)),
        KeyPairView::Secp256k1(secret) => hash::blake3_digest(
            secp256k1_public(secret, false).subrange(1, 65),
        ),
        KeyPairView::MlDsa65 { key, .. } => hash::blake3_digest(key),
        KeyPairView::Falcon512 { key, .. } => hash::blake3_digest(key),
    }
}

/// The public key of a key pair; for Secp256k1 as a compressed point.
pub open spec fn public_key_of(k: KeyPairView) -> Seq<u8> {
    match k {
        KeyPairView::Ed25519(secret) => ed25519_public(secret),
        KeyPairView::Secp256k1(secret) => secp256k1_public(secret, true),
        KeyPairView::MlDsa65 { key, .. } => key,
        KeyPairView::Falcon512 { key, .. } => key,
    }
}

/// The report of a Falcon-512 secret key of the wrong length.
pub open spec fn falcon_length_report(len: nat) -> Seq<char> {
    "error: SecretKey expected 1281 bytes, got "@ + encoding::decimal(len)
}

/// Whether a key pair can sign: a Falcon-512 secret key of the right length was generated.
pub open spec fn can_sign(k: KeyPairView) -> bool {
    match k {
        KeyPairView::Falcon512 { secret, .. } => secret.len() == 1281 ==> falcon_generated(secret),
        _ => true,
    }
}

/// Whether a result is a possible outcome of signing a message hash with a key pair. Ed25519 and
/// Secp256k1 leave nothing open; ML-DSA-65 and Falcon-512 signatures are random, and the random
/// generator of ML-DSA-65 may fail.
pub open spec fn is_signing_outcome(
    k: KeyPairView,
    message: Seq<u8>,
    r: Result<Signature, SignatureError>,
) -> bool {
    match k {
        KeyPairView::Ed25519(secret) => r matches Ok(s) && s@ == (SignatureView::Ed25519 {
            public_key: ed25519_public(secret),
            signature: ed25519_signature(secret, message),
        }),
        KeyPairView::Secp256k1(secret) => match secp256k1_signature(secret, message) {
            Ok((rs, v)) => r matches Ok(s) && s@ == (SignatureView::Secp256k1 {
                signature: rs.push(v),
            }),
            Err(text) => r matches Err(e) && e@ == SignatureErrorView::SigningFailed(text),
        },
        KeyPairView::MlDsa65 { secret, key } => if secret.len() != 4032 {
            r matches Err(e) && e@ == SignatureErrorView::SigningFailed(
                "invalid ML-DSA secret key length"@,
            )
        } else {
            match ml_dsa_secret_fault(secret) {
                Some(text) => r matches Err(e) && e@ == SignatureErrorView::SigningFailed(text),
                None => match r {
                    Ok(s) => s@ matches SignatureView::MlDsa65 { public_key, signature }
                        && public_key == key && signature.len() == 3309,
                    Err(e) => e@ is SigningFailed,
                },
            }
        },
        KeyPairView::Falcon512 { secret, key } => if secret.len() != 1281 {
            r matches Err(e) && e@ == SignatureErrorView::SigningFailed(
                "invalid Falcon-512 secret key: "@ + falcon_length_report(secret.len()),
            )
        } else {
            r matches Ok(s) && s@ matches SignatureView::Falcon512 { public_key, signature }
                && public_key == key && signature.len() <= 752
        },
    }
}

/// The text of `falcon_length_report`.
fn falcon_length_text(len: usize) -> (s: String)
    ensures
        s@ == falcon_length_report(len as nat),
{
    let n: String = decimal_text(len as u64);
    "error: SecretKey expected 1281 bytes, got ".to_owned().concat(n.as_str())
}

impl Clone for KeyPair {
    fn clone(&self) -> (r: Self)
        ensures
            r@ == self@,
    {
        match self {
            KeyPair::Ed25519(secret) => KeyPair::Ed25519(*secret),
            KeyPair::Secp256k1(key) => {
                proof {
                    use_type_invariant(key);
                }
                KeyPair::Secp256k1(Secp256k1Key { bytes: key.bytes })
            },
            KeyPair::MlDsa65 { sk_bytes, pk_bytes } => KeyPair::MlDsa65 {
                sk_bytes: copy_bytes(sk_bytes.as_slice()),
                pk_bytes: copy_bytes(pk_bytes.as_slice()),
            },
            KeyPair::Falcon512 { sk_bytes, pk_bytes } => KeyPair::Falcon512 {
                sk_bytes: copy_bytes(sk_bytes.as_slice()),
                pk_bytes: copy_bytes(pk_bytes.as_slice()),
            },
        }
    }
}

impl KeyPair {
    /// Generates a new random Ed25519 key pair.
    pub fn generate_ed25519() -> (k: Self)
        ensures
            k@ is Ed25519,
            belongs_together(k@),
    {
        KeyPair::Ed25519(ed25519_generate())
    }

    /// Generates a new random Secp256k1 key pair.
    pub fn generate_secp256k1() -> (k: Self)
        ensures
            k@ is Secp256k1,
            secp256k1_secret_valid(k@->Secp256k1_0),
            belongs_together(k@),
    {
        KeyPair::Secp256k1(Secp256k1Key::random())
    }

    /// Generates a new random ML-DSA-65 key pair; `None` where the random generator fails.
    pub fn generate_ml_dsa() -> (r: Option<Self>)
        ensures
            r matches Some(k) ==> {
                &&& k@ is MlDsa65
                &&& k@->MlDsa65_secret.len() == ML_DSA_SK_LEN
                &&& belongs_together(k@)
            },
    {
        Self::from_ml_dsa_keys(ml_dsa_generate())
    }

    /// The ML-DSA-65 key pair of generated keys, public key first, where there are any.
    pub fn from_ml_dsa_keys(keys: Option<(Vec<u8>, Vec<u8>)>) -> (r: Option<Self>)
        ensures
            match keys {
                Some((key, secret)) => r matches Some(k) && k@ == (KeyPairView::MlDsa65 {
                    secret: secret@,
                    key: key@,
                }),
                None => r is None,
            },
    {
        match keys {
            Some((pk_bytes, sk_bytes)) => Some(KeyPair::MlDsa65 { sk_bytes, pk_bytes }),
            None => None,
        }
    }

    /// Generates a new random Falcon-512 key pair.
    pub fn generate_falcon512() -> (k: Self)
        ensures
            k@ is Falcon512,
            belongs_together(k@),
    {
        let (pk_bytes, sk_bytes) = falcon_generate();
        KeyPair::Falcon512 { sk_bytes, pk_bytes }
    }

    /// Derives the address from this key pair.
    pub fn address(&self) -> (h: Hash256)
        requires
            has_address(self@),
        ensures
            h@ == address_of(self@),
    {
        match self {
            KeyPair::Ed25519(secret) => {
                let key: [u8; 32] = ed25519_public_key(secret);
                address_from_ed25519_pubkey(&key)
            },
            KeyPair::Secp256k1(secret) => {
                let key: Vec<u8> = secret.public_key(false);
                address_from_secp256k1_pubkey(vstd::slice::slice_subrange(key.as_slice(), 1, 65))
            },
            KeyPair::MlDsa65 { pk_bytes, .. } => address_from_ml_dsa_pubkey(pk_bytes.as_slice()),
            KeyPair::Falcon512 { pk_bytes, .. } => address_from_falcon_pubkey(
                pk_bytes.as_slice(),
            ),
        }
    }

    /// Signs a message hash. A signature by keys that belong together verifies for their address.
    pub fn sign(&self, message_hash: &Hash256) -> (r: Result<Signature, SignatureError>)
        requires
            can_sign(self@),
        ensures
            is_signing_outcome(self@, message_hash@, r),
            belongs_together(self@) ==> (r matches Ok(s) ==> signature_fault(
                s@,
                message_hash@,
                address_of(self@),
            ) is None),
    {
        match self {
            KeyPair::Ed25519(secret) => {
                let signature: [u8; 64] = ed25519_sign(secret, &message_hash.0);
                let public_key: [u8; 32] = ed25519_public_key(secret);
                let bytes: Vec<u8> = copy_bytes(&signature);
                Ok(Signature::Ed25519 { public_key, signature: bytes })
            },
            KeyPair::Secp256k1(secret) => {
                match secret.sign(&message_hash.0) {
                    Ok((rs, v)) => {
                        let mut signature: Vec<u8> = copy_bytes(&rs);
                        signature.push(v);
                        assert(signature@ =~= rs@.push(v));
                        assert(signature@.subrange(0, 64) =~= rs@);
                        Ok(Signature::Secp256k1 { signature })
                    },
                    Err(e) => Err(SignatureError::SigningFailed(e)),
                }
            },
            KeyPair::MlDsa65 { sk_bytes, pk_bytes } => {
                if sk_bytes.len() != ML_DSA_SK_LEN {
                    return Err(
                        SignatureError::SigningFailed("invalid ML-DSA secret key length".to_owned()),
                    );
                }
                if let Some(e) = ml_dsa_secret_check(sk_bytes.as_slice()) {
                    return Err(SignatureError::SigningFailed(e));
                }
                match ml_dsa_sign(sk_bytes.as_slice(), &message_hash.0) {
                    Ok(signature) => Ok(
                        Signature::MlDsa65 {
                            public_key: copy_bytes(pk_bytes.as_slice()),
                            signature,
                        },
                    ),
                    Err(e) => Err(SignatureError::SigningFailed(e)),
                }
            },
            KeyPair::Falcon512 { sk_bytes, pk_bytes } => {
                if sk_bytes.len() != FALCON_SK_LEN {
                    let e: String = falcon_length_text(sk_bytes.len());
                    return Err(
                        SignatureError::SigningFailed(
                            "invalid Falcon-512 secret key: ".to_owned().concat(e.as_str()),
                        ),
                    );
                }
                match falcon_sign(sk_bytes.as_slice(), &message_hash.0) {
                    Ok(signature) => Ok(
                        Signature::Falcon512 {
                            public_key: copy_bytes(pk_bytes.as_slice()),
                            signature,
                        },
                    ),
                    Err(e) => Err(e),
                }
            },
        }
    }

    /// Signs a message hash with keys of which nothing is known. `None` stands for a Falcon-512
    /// secret key of the right length: whether it was generated cannot be told from its bytes.
    pub fn try_sign(&self, message_hash: &Hash256) -> (r: Option<
        Result<Signature, SignatureError>,
    >)
        ensures
            r is None == (self@ matches KeyPairView::Falcon512 { secret, .. } && secret.len()
                == FALCON_SK_LEN),
            r matches Some(outcome) ==> {
                &&& is_signing_outcome(self@, message_hash@, outcome)
                &&& belongs_together(self@) ==> (outcome matches Ok(s) ==> signature_fault(
                    s@,
                    message_hash@,
                    address_of(self@),
                ) is None)
            },
    {
        if let KeyPair::Falcon512 { sk_bytes, .. } = self {
            if sk_bytes.len() == FALCON_SK_LEN {
                return None;
            }
        }
        Some(self.sign(message_hash))
    }

    /// The raw public key bytes.
    pub fn public_key_bytes(&self) -> (key: Vec<u8>)
        ensures
            key@ == public_key_of(self@),
    {
        match self {
            KeyPair::Ed25519(secret) => {
                let key: [u8; 32] = ed25519_public_key(secret);
                copy_bytes(&key)
            },
            KeyPair::Secp256k1(secret) => secret.public_key(true),
            KeyPair::MlDsa65 { pk_bytes, .. } => copy_bytes(pk_bytes.as_slice()),
            KeyPair::Falcon512 { pk_bytes, .. } => copy_bytes(pk_bytes.as_slice()),
        }
    }

    /// The scheme of the key pair, without its secret.
    pub fn redacted(&self) -> (s: String)
        ensures
            s@ == match self@ {
                KeyPairView::Ed25519(_) => "KeyPair::Ed25519(<redacted>)"@,
                KeyPairView::Secp256k1(_) => "KeyPair::Secp256k1(<redacted>)"@,
                KeyPairView::MlDsa65 { .. } => "KeyPair::MlDsa65(<redacted>)"@,
                KeyPairView::Falcon512 { .. } => "KeyPair::Falcon512(<redacted>)"@,
            },
    {
        match self {
            KeyPair::Ed25519(_) => "KeyPair::Ed25519(<redacted>)".to_owned(),
            KeyPair::Secp256k1(_) => "KeyPair::Secp256k1(<redacted>)".to_owned(),
            KeyPair::MlDsa65 { .. } => "KeyPair::MlDsa65(<redacted>)".to_owned(),
            KeyPair::Falcon512 { .. } => "KeyPair::Falcon512(<redacted>)".to_owned(),
        }
    }
}

// ---------------------------------------------------------------------------
// Batch verification
// ---------------------------------------------------------------------------

/// Verifies Ed25519 signatures together. Signatures that were made by the secret keys of their
/// public keys verify; lists of different lengths do not.
pub fn batch_verify_ed25519(
    messages: &[&[u8]],
    signatures: &[[u8; 64]],
    verifying_keys: &[[u8; 32]],
) -> (r: Result<(), SignatureError>)
    ensures
        match r {
            Ok(()) => {
                &&& forall|i: int|
                    0 <= i < verifying_keys@.len() ==> ed25519_key_decodes(
                        (#[trigger] verifying_keys@[i])@,
                    )
                &&& ed25519_batch_verifies(
                    slices(messages@),
                    arrays_64(signatures@),
                    arrays_32(verifying_keys@),
                )
                &&& messages@.len() == signatures@.len()
                &&& messages@.len() == verifying_keys@.len()
            },
            Err(e) => {
                &&& e@ == SignatureErrorView::BatchVerifyFailed
                &&& !ed25519_batch_verifies(
                    slices(messages@),
                    arrays_64(signatures@),
                    arrays_32(verifying_keys@),
                ) || exists|i: int|
                    0 <= i < verifying_keys@.len() && !ed25519_key_decodes(
                        (#[trigger] verifying_keys@[i])@,
                    )
            },
        },
        messages@.len() == signatures@.len() && messages@.len() == verifying_keys@.len() && (forall|
            i: int,
        |
            0 <= i < verifying_keys@.len() ==> ed25519_made(
                (#[trigger] verifying_keys@[i])@,
                messages@[i]@,
                signatures@[i]@,
            )) ==> r is Ok,
{
    let mut i: usize = 0;
    while i < verifying_keys.len()
        invariant
            i <= verifying_keys.len(),
            forall|k: int|
                0 <= k < i ==> ed25519_key_decodes((#[trigger] verifying_keys@[k])@),
        decreases verifying_keys.len() - i,
    {
        if !ed25519_key_check(&verifying_keys[i]) {
            assert(!ed25519_made(
                verifying_keys@[i as int]@,
                messages@[i as int]@,
                signatures@[i as int]@,
            ));
            return Err(SignatureError::BatchVerifyFailed);
        }
        i = i + 1;
    }
    if ed25519_verify_batch(messages, signatures, verifying_keys) {
        Ok(())
    } else {
        Err(SignatureError::BatchVerifyFailed)
    }
}

/// Whether all ML-DSA-65 signatures verify, as many as the shortest list holds.
pub open spec fn all_ml_dsa_accepted(
    keys: Seq<[u8; 1952]>,
    messages: Seq<&[u8]>,
    signatures: Seq<[u8; 3309]>,
) -> bool {
    forall|i: int|
        0 <= i < shortest(messages.len(), signatures.len(), keys.len()) ==> ml_dsa_accepts(
            (#[trigger] keys[i])@,
            messages[i]@,
            signatures[i]@,
        )
}

/// Whether all Falcon-512 signatures verify, as many as the shortest list holds.
pub open spec fn all_falcon_accepted(
    keys: Seq<&[u8]>,
    messages: Seq<&[u8]>,
    signatures: Seq<&[u8]>,
) -> bool {
    forall|i: int|
        0 <= i < shortest(keys.len(), messages.len(), signatures.len()) ==> falcon_accepts(
            (#[trigger] keys[i])@,
            messages[i]@,
            signatures[i]@,
        )
}

/// The length of the shortest of three lists.
pub open spec fn shortest(a: nat, b: nat, c: nat) -> nat {
    let ab = if a <= b {
        a
    } else {
        b
    };
    if ab <= c {
        ab
    } else {
        c
    }
}

/// The numbers below the length of the shortest of three lists.
fn places(a: usize, b: usize, c: usize) -> (v: Vec<usize>)
    ensures
        v@.len() == shortest(a as nat, b as nat, c as nat),
        forall|i: int| 0 <= i < v@.len() ==> #[trigger] v@[i] == i,
{
    let mut n: usize = a;
    if b < n {
        n = b;
    }
    if c < n {
        n = c;
    }
    let mut v: Vec<usize> = Vec::new();
    let mut i: usize = 0;
    while i < n
        invariant
            i <= n,
            v@.len() == i,
            forall|k: int| 0 <= k < i ==> #[trigger] v@[k] == k,
        decreases n - i,
    {
        v.push(i);
        i = i + 1;
    }
    v
}

/// Whether all verdicts are positive.
fn all_true(v: &Vec<bool>) -> (r: bool)
    ensures
        r == (forall|i: int| 0 <= i < v@.len() ==> #[trigger] v@[i]),
{
    let mut i: usize = 0;
    while i < v.len()
        invariant
            i <= v@.len(),
            forall|k: int| 0 <= k < i ==> #[trigger] v@[k],
        decreases v@.len() - i,
    {
        if !v[i] {
            return false;
        }
        i = i + 1;
    }
    true
}

/// Whether an ML-DSA-65 signature is accepted.
pub open spec fn ml_dsa_accepts(key: Seq<u8>, message: Seq<u8>, signature: Seq<u8>) -> bool {
    ml_dsa_key_decodes(key) && ml_dsa_verifies(key, message, signature)
}

/// Verifies ML-DSA-65 signatures in parallel, as many as the shortest list holds.
pub fn batch_verify_ml_dsa(
    messages: &[&[u8]],
    signatures: &[[u8; 3309]],
    public_keys: &[[u8; 1952]],
) -> (r: Result<(), SignatureError>)
    ensures
        r is Ok == all_ml_dsa_accepted(public_keys@, messages@, signatures@),
        r matches Err(e) ==> e@ == SignatureErrorView::BatchVerifyFailed,
{
    let idx: Vec<usize> = places(messages.len(), signatures.len(), public_keys.len());
    let f = |i: &usize| -> (b: bool)
        requires
            *i < messages@.len(),
            *i < signatures@.len(),
            *i < public_keys@.len(),
        ensures
            b == ml_dsa_accepts(
                public_keys@[*i as int]@,
                messages@[*i as int]@,
                signatures@[*i as int]@,
            ),
        {
            ml_dsa_key_check(&public_keys[*i]) && ml_dsa_verify(
                &public_keys[*i],
                messages[*i],
                &signatures[*i],
            )
        };
    let verdicts: Vec<bool> = par_map(idx.as_slice(), f);
    assert forall|i: int| 0 <= i < verdicts@.len() implies #[trigger] verdicts@[i]
        == ml_dsa_accepts(public_keys@[i]@, messages@[i]@, signatures@[i]@) by {
        assert(idx@[i] == i);
    }
    if all_true(&verdicts) {
        assert forall|i: int|
            0 <= i < shortest(
                messages@.len(),
                signatures@.len(),
                public_keys@.len(),
            ) implies ml_dsa_accepts(
            (#[trigger] public_keys@[i])@,
            messages@[i]@,
            signatures@[i]@,
        ) by {
            assert(verdicts@[i]);
        }
        Ok(())
    } else {
        proof {
            let i = choose|i: int| 0 <= i < verdicts@.len() && !(#[trigger] verdicts@[i]);
            assert(!ml_dsa_accepts(public_keys@[i]@, messages@[i]@, signatures@[i]@));
        }
        Err(SignatureError::BatchVerifyFailed)
    }
}

/// Whether a Falcon-512 signature is accepted: key and signature must have their lengths.
pub open spec fn falcon_accepts(key: Seq<u8>, message: Seq<u8>, signature: Seq<u8>) -> bool {
    key.len() == 897 && signature.len() <= 752 && falcon_verifies(key, message, signature)
}

/// Verifies Falcon-512 signatures in parallel, as many as the shortest list holds.
pub fn batch_verify_falcon512(
    messages: &[&[u8]],
    signatures: &[&[u8]],
    public_keys: &[&[u8]],
) -> (r: Result<(), SignatureError>)
    ensures
        r is Ok == all_falcon_accepted(public_keys@, messages@, signatures@),
        r matches Err(e) ==> e@ == SignatureErrorView::BatchVerifyFailed,
{
    let verdicts: Vec<bool> = falcon_batch_verify(public_keys, messages, signatures);
    if all_true(&verdicts) {
        assert forall|i: int|
            0 <= i < shortest(
                public_keys@.len(),
                messages@.len(),
                signatures@.len(),
            ) implies falcon_accepts(
            (#[trigger] public_keys@[i])@,
            messages@[i]@,
            signatures@[i]@,
        ) by {
            assert(verdicts@[i]);
        }
        Ok(())
    } else {
        proof {
            let i = choose|i: int| 0 <= i < verdicts@.len() && !(#[trigger] verdicts@[i]);
            assert(!falcon_accepts(public_keys@[i]@, messages@[i]@, signatures@[i]@));
        }
        Err(SignatureError::BatchVerifyFailed)
    }
}

// ---------------------------------------------------------------------------
// Benchmark keys
// ---------------------------------------------------------------------------

/// The secret key of a benchmark index.
pub open spec fn benchmark_secret(index: u8) -> Seq<u8> {
    hash::blake3_derived("ARC-chain-benchmark-keypair-v1"@, seq![index])
}

/// Derives the Ed25519 key pair of a benchmark index.
pub fn benchmark_keypair(index: u8) -> (k: KeyPair)
    ensures
        k@ == KeyPairView::Ed25519(benchmark_secret(index)),
{
    let material: [u8; 1] = [index];
    assert(material@ =~= seq![index]);
    KeyPair::Ed25519(blake3_derive("ARC-chain-benchmark-keypair-v1", &material))
}

/// Address of the key pair of a benchmark index.
pub fn benchmark_address(index: u8) -> (h: Hash256)
    ensures
        h@ == address_of(KeyPairView::Ed25519(benchmark_secret(index))),
{
    benchmark_keypair(index).address()
}

// ---------------------------------------------------------------------------
// Falcon-512
// ---------------------------------------------------------------------------

/// Generates a new Falcon-512 key pair: public key (897 bytes), secret key (1281 bytes).
pub fn falcon_keygen() -> (keys: (Vec<u8>, Vec<u8>))
    ensures
        falcon_pair(keys.0@, keys.1@),
        keys.0@.len() == FALCON_PK_LEN,
        keys.1@.len() == FALCON_SK_LEN,
{
    falcon_generate()
}

/// Signs a message with a Falcon-512 secret key. The signature verifies under the public key that
/// was generated with the secret key.
pub fn falcon_sign(secret_key: &[u8], message: &[u8]) -> (r: Result<Vec<u8>, SignatureError>)
    requires
        secret_key@.len() == FALCON_SK_LEN ==> falcon_generated(secret_key@),
    ensures
        match r {
            Ok(signature) => {
                &&& secret_key@.len() == FALCON_SK_LEN
                &&& signature@.len() <= FALCON_SIG_MAX_LEN
                &&& forall|key: Seq<u8>| #[trigger]
                    falcon_pair(key, secret_key@) && key.len() == FALCON_PK_LEN
                        ==> falcon_accepts(key, message@, signature@)
            },
            Err(e) => {
                &&& secret_key@.len() != FALCON_SK_LEN
                &&& e@ == SignatureErrorView::SigningFailed(
                    "invalid Falcon secret key: "@ + falcon_length_report(secret_key@.len()),
                )
            },
        },
{
    if secret_key.len() != FALCON_SK_LEN {
        let e: String = falcon_length_text(secret_key.len());
        return Err(
            SignatureError::SigningFailed(
                "invalid Falcon secret key: ".to_owned().concat(e.as_str()),
            ),
        );
    }
    Ok(falcon_detached_sign(secret_key, message))
}

/// Verifies a Falcon-512 signature on a message under a public key.
pub fn falcon_verify(public_key: &[u8], message: &[u8], signature: &[u8]) -> (r: bool)
    ensures
        r == falcon_accepts(public_key@, message@, signature@),
{
    if public_key.len() != FALCON_PK_LEN || signature.len() > FALCON_SIG_MAX_LEN {
        return false;
    }
    falcon_detached_verify(public_key, message, signature)
}

/// Verifies Falcon-512 signatures in parallel, as many as the shortest list holds, and says of
/// each whether it is valid.
pub fn falcon_batch_verify(keys: &[&[u8]], messages: &[&[u8]], signatures: &[&[u8]]) -> (r: Vec<
    bool,
>)
    ensures
        r@.len() == shortest(keys@.len(), messages@.len(), signatures@.len()),
        forall|i: int|
            0 <= i < r@.len() ==> #[trigger] r@[i] == falcon_accepts(
                keys@[i]@,
                messages@[i]@,
                signatures@[i]@,
            ),
{
    let idx: Vec<usize> = places(keys.len(), messages.len(), signatures.len());
    let f = |i: &usize| -> (b: bool)
        requires
            *i < keys@.len(),
            *i < messages@.len(),
            *i < signatures@.len(),
        ensures
            b == falcon_accepts(
                keys@[*i as int]@,
                messages@[*i as int]@,
                signatures@[*i as int]@,
            ),
        { falcon_verify(keys[*i], messages[*i], signatures[*i]) };
    let verdicts: Vec<bool> = par_map(idx.as_slice(), f);
    assert forall|i: int| 0 <= i < verdicts@.len() implies #[trigger] verdicts@[i]
        == falcon_accepts(keys@[i]@, messages@[i]@, signatures@[i]@) by {
        assert(idx@[i] == i);
    }
    verdicts
}

// ---------------------------------------------------------------------------
// What verification promises
// ---------------------------------------------------------------------------

/// The address of a public key belongs to that key alone, unless the digests of two keys collide.
pub proof fn law_addresses_bind_keys(a: Seq<u8>, b: Seq<u8>)
    requires
        key_address(a) == key_address(b),
    ensures
        a == b || hash::collides(a, b),
{
}

/// The address of a key pair is that of the public key that its signatures carry or yield.
pub proof fn law_key_pairs_have_the_address_of_their_key(k: KeyPairView)
    ensures
        address_of(k) == match k {
            KeyPairView::Secp256k1(secret) => key_address(
                secp256k1_public(secret, false).subrange(1, 65),
            ),
            _ => key_address(public_key_of(k)),
        },
{
}

/// A signature is accepted for an address exactly where it has the right length, its public key has
/// that address, and it verifies on the message under that key; for Secp256k1 the key is the one
/// that the signature and the message yield.
pub proof fn law_accepted_signatures(s: SignatureView, message: Seq<u8>, address: Seq<u8>)
    ensures
        signature_fault(s, message, address) is None <==> match s {
            SignatureView::Ed25519 { public_key, signature } => {
                &&& signature.len() == 64
                &&& key_address(public_key) == address
                &&& ed25519_key_decodes(public_key)
                &&& ed25519_verifies(public_key, message, signature)
            },
            SignatureView::Secp256k1 { signature } => {
                &&& signature.len() == 65
                &&& secp256k1_recovered(message, signature.subrange(0, 64), signature[64])
                    matches Some(key)
                &&& key_address(key.subrange(1, 65)) == address
            },
            SignatureView::MlDsa65 { public_key, signature } => {
                &&& signature.len() == 3309
                &&& public_key.len() == 1952
                &&& key_address(public_key) == address
                &&& ml_dsa_key_decodes(public_key)
                &&& ml_dsa_verifies(public_key, message, signature)
            },
            SignatureView::Falcon512 { public_key, signature } => {
                &&& signature.len() <= 752
                &&& public_key.len() == 897
                &&& key_address(public_key) == address
                &&& falcon_verifies(public_key, message, signature)
            },
        },
{
}

/// A signature on a message is accepted for one address alone.
pub proof fn law_signatures_have_one_address(
    s: SignatureView,
    message: Seq<u8>,
    a: Seq<u8>,
    b: Seq<u8>,
)
    requires
        signature_fault(s, message, a) is None,
        signature_fault(s, message, b) is None,
    ensures
        a == b,
{
    law_accepted_signatures(s, message, a);
    law_accepted_signatures(s, message, b);
}

/// A signature whose length and key are right but whose address is another one is refused with both
/// addresses in the report.
pub proof fn law_wrong_addresses_are_reported(key: Seq<u8>, expected: Seq<u8>)
    ensures
        address_fault(key, expected) is None <==> key_address(key) == expected,
        key_address(key) != expected ==> address_fault(key, expected) == Some(
            SignatureErrorView::AddressMismatch {
                expected: hash::hex_text(expected),
                got: hash::hex_text(key_address(key)),
            },
        ),
{
}

/// A batch is as long as its shortest list, and accepted only where every signature in it is.
pub proof fn law_batches_accept_every_signature(
    ml_dsa_keys: Seq<[u8; 1952]>,
    ml_dsa_signatures: Seq<[u8; 3309]>,
    falcon_keys: Seq<&[u8]>,
    falcon_signatures: Seq<&[u8]>,
    messages: Seq<&[u8]>,
    i: int,
)
    requires
        0 <= i < messages.len(),
    ensures
        all_ml_dsa_accepted(ml_dsa_keys, messages, ml_dsa_signatures) && i < ml_dsa_keys.len() && i
            < ml_dsa_signatures.len() ==> ml_dsa_key_decodes(ml_dsa_keys[i]@) && ml_dsa_verifies(
            ml_dsa_keys[i]@,
            messages[i]@,
            ml_dsa_signatures[i]@,
        ),
        all_falcon_accepted(falcon_keys, messages, falcon_signatures) && i < falcon_keys.len() && i
            < falcon_signatures.len() ==> falcon_keys[i]@.len() == 897 && falcon_signatures[i]@.len()
            <= 752 && falcon_verifies(falcon_keys[i]@, messages[i]@, falcon_signatures[i]@),
{
    if all_ml_dsa_accepted(ml_dsa_keys, messages, ml_dsa_signatures) && i < ml_dsa_keys.len() && i
        < ml_dsa_signatures.len() {
        assert(ml_dsa_accepts(ml_dsa_keys[i]@, messages[i]@, ml_dsa_signatures[i]@));
    }
    if all_falcon_accepted(falcon_keys, messages, falcon_signatures) && i < falcon_keys.len() && i
        < falcon_signatures.len() {
        assert(falcon_accepts(falcon_keys[i]@, messages[i]@, falcon_signatures[i]@));
    }
}

/// The shortest length is one of the three and none is shorter.
pub proof fn law_shortest_is_least(a: nat, b: nat, c: nat)
    ensures
        shortest(a, b, c) <= a,
        shortest(a, b, c) <= b,
        shortest(a, b, c) <= c,
        shortest(a, b, c) == a || shortest(a, b, c) == b || shortest(a, b, c) == c,
{
}

/// Each benchmark index has a secret of its own, unless the digests of two indices collide.
pub proof fn law_benchmark_secrets_bind_their_index(a: u8, b: u8)
    requires
        benchmark_secret(a) == benchmark_secret(b),
    ensures
        a == b || hash::derived_collides(
            "ARC-chain-benchmark-keypair-v1"@,
            seq![a],
            seq![b],
        ),
{
    if seq![a] == seq![b] {
        assert(seq![a][0] == seq![b][0]);
    }
}

/// A signature of the wrong length is refused first, then a key of the wrong length, then a key of
/// another address, then one that cannot be read, then a signature that does not verify.
pub proof fn law_refused_signatures(
    key: Seq<u8>,
    signature: Seq<u8>,
    message: Seq<u8>,
    address: Seq<u8>,
)
    requires
        signature.len() <= usize::MAX,
    ensures
        ({
            let ed25519 = signature_fault(
                SignatureView::Ed25519 { public_key: key, signature },
                message,
                address,
            );
            let secp256k1 = signature_fault(
                SignatureView::Secp256k1 { signature },
                message,
                address,
            );
            let ml_dsa = signature_fault(
                SignatureView::MlDsa65 { public_key: key, signature },
                message,
                address,
            );
            let falcon = signature_fault(
                SignatureView::Falcon512 { public_key: key, signature },
                message,
                address,
            );
            let got = signature.len() as usize;
            &&& signature.len() != 64 <==> ed25519 == Some(
                SignatureErrorView::InvalidLength { expected: 64, got },
            )
            &&& signature.len() != 65 <==> secp256k1 == Some(
                SignatureErrorView::InvalidLength { expected: 65, got },
            )
            &&& signature.len() != 3309 <==> ml_dsa == Some(
                SignatureErrorView::InvalidLength { expected: 3309, got },
            )
            &&& signature.len() > 752 <==> falcon == Some(
                SignatureErrorView::InvalidLength { expected: 752, got },
            )
            &&& ed25519 is Some && ed25519->0 is AddressMismatch <==> signature.len() == 64
                && key_address(key) != address
            &&& ml_dsa is Some && ml_dsa->0 is AddressMismatch <==> signature.len() == 3309
                && key.len() == 1952 && key_address(key) != address
            &&& falcon is Some && falcon->0 is AddressMismatch <==> signature.len() <= 752
                && key.len() == 897 && key_address(key) != address
            &&& ed25519 == Some(SignatureErrorView::InvalidSignature) <==> signature.len() == 64
                && key_address(key) == address && ed25519_key_decodes(key) && !ed25519_verifies(
                key,
                message,
                signature,
            )
            &&& ml_dsa == Some(SignatureErrorView::InvalidSignature) <==> signature.len() == 3309
                && key.len() == 1952 && key_address(key) == address && ml_dsa_key_decodes(key)
                && !ml_dsa_verifies(key, message, signature)
            &&& falcon == Some(SignatureErrorView::InvalidSignature) <==> signature.len() <= 752
                && key.len() == 897 && key_address(key) == address && !falcon_verifies(
                key,
                message,
                signature,
            )
            &&& secp256k1 == Some(SignatureErrorView::InvalidSignature) <==> signature.len() == 65
                && secp256k1_recovered(message, signature.subrange(0, 64), signature[64]) is None
        }),
{
}

/// What a key pair signs carries its public key, and with Ed25519 and Secp256k1 it is the signature on
/// that message; a secret key of the wrong length signs nothing.
pub proof fn law_signing_outcomes(
    k: KeyPairView,
    message: Seq<u8>,
    r: Result<Signature, SignatureError>,
)
    requires
        is_signing_outcome(k, message, r),
    ensures
        match k {
            KeyPairView::Ed25519(secret) => {
                &&& r is Ok
                &&& r->Ok_0@ == (SignatureView::Ed25519 {
                    public_key: public_key_of(k),
                    signature: ed25519_signature(secret, message),
                })
            },
            KeyPairView::Secp256k1(secret) => {
                &&& r is Ok <==> secp256k1_signature(secret, message) is Ok
                &&& r is Ok ==> r->Ok_0@ == (SignatureView::Secp256k1 {
                    signature: secp256k1_signature(secret, message)->Ok_0.0.push(
                        secp256k1_signature(secret, message)->Ok_0.1,
                    ),
                })
            },
            KeyPairView::MlDsa65 { secret, key } => {
                &&& secret.len() != 4032 ==> r is Err
                &&& r is Ok ==> r->Ok_0@ is MlDsa65 && r->Ok_0@->MlDsa65_public_key == key
                    && r->Ok_0@->MlDsa65_signature.len() == 3309
            },
            KeyPairView::Falcon512 { secret, key } => {
                &&& secret.len() == 1281 <==> r is Ok
                &&& r is Ok ==> r->Ok_0@ is Falcon512 && r->Ok_0@->Falcon512_public_key == key
                    && r->Ok_0@->Falcon512_signature.len() <= 752
            },
        },
        r matches Err(e) ==> e@ is SigningFailed,
        public_key_of(k) == match k {
            KeyPairView::Ed25519(secret) => ed25519_public(secret),
            KeyPairView::Secp256k1(secret) => secp256k1_public(secret, true),
            KeyPairView::MlDsa65 { secret, key } => key,
            KeyPairView::Falcon512 { secret, key } => key,
        },
{
}

/// The null signature is all zeros.
pub proof fn law_null_signatures_are_zero(i: int)
    ensures
        null_signature() is Ed25519,
        null_signature()->Ed25519_public_key.len() == 32,
        null_signature()->Ed25519_signature.len() == 64,
        0 <= i < 32 ==> null_signature()->Ed25519_public_key[i] == 0,
        0 <= i < 64 ==> null_signature()->Ed25519_signature[i] == 0,
{
}

/// A key pair has an address where its public key has the length of its scheme, and belongs together
/// only where it has one and its public key is that of its secret key.
pub proof fn law_key_pairs_with_an_address(k: KeyPairView)
    ensures
        has_address(k) <==> match k {
            KeyPairView::Ed25519(_) => true,
            KeyPairView::Secp256k1(_) => true,
            KeyPairView::MlDsa65 { secret, key } => key.len() == 1952,
            KeyPairView::Falcon512 { secret, key } => key.len() == 897,
        },
        belongs_together(k) ==> has_address(k),
        k matches KeyPairView::MlDsa65 { secret, key } ==> (belongs_together(k) <==> has_address(k)
            && ml_dsa_pair(key, secret)),
        k matches KeyPairView::Falcon512 { secret, key } ==> (belongs_together(k) <==> has_address(
            k,
        ) && falcon_pair(key, secret)),
{
}

/// The report on a secret key of the wrong length tells the length.
pub proof fn law_length_reports_tell_the_length(a: nat, b: nat)
    ensures
        falcon_length_report(a) == falcon_length_report(b) <==> a == b,
{
    let head = "error: SecretKey expected 1281 bytes, got "@;
    if falcon_length_report(a) == falcon_length_report(b) {
        encoding::lemma_split(head, encoding::decimal(a), head, encoding::decimal(b));
        encoding::law_decimal_injective(a, b);
    }
}

/// Bytes are zeroed where they are all zero.
pub proof fn law_zeroed_bytes(data: Seq<u8>)
    ensures
        zeroed(data) <==> data == Seq::new(data.len(), |i: int| 0u8),
{
    if zeroed(data) {
        assert(data =~= Seq::new(data.len(), |i: int| 0u8));
    }
}

} // verus!
