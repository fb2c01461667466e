//! BLS12-381 signatures and their aggregation.
//!
//! Public keys are compressed G1 points (48 bytes), signatures compressed G2 points (96 bytes).
//! Many validators' signatures on one message add up to one signature, which verifies under the
//! sum of their public keys.

use vstd::prelude::*;

use crate::encoding;
use crate::encoding::{copy_bytes, text_vec};
use crate::hash;
use crate::hash::blake3_hash;

verus! {

/// Compressed G1 point length (public key).
pub const BLS_PK_LEN: usize = 48;

/// Scalar length (secret key).
pub const BLS_SK_LEN: usize = 32;

/// Compressed G2 point length (signature).
pub const BLS_SIG_LEN: usize = 96;

/// What can go wrong with signatures and keys.
#[derive(Debug, Clone, Copy, PartialEq, Eq, Structural)]
pub enum BlsError {
    /// Signature bytes are no point.
    InvalidSignature,
    /// Public key bytes are no point.
    InvalidPublicKey,
    /// A point cannot be aggregated.
    AggregationFailed,
    /// There is nothing to aggregate.
    EmptyInput,
}

impl BlsError {
    /// The error as a sentence.
    pub fn message(&self) -> (s: String)
        ensures
            s@ == match *self {
                BlsError::InvalidSignature => "invalid signature bytes"@,
                BlsError::InvalidPublicKey => "invalid public key bytes"@,
                BlsError::AggregationFailed => "aggregation failed"@,
                BlsError::EmptyInput => "empty input"@,
            },
    {
        match self {
            BlsError::InvalidSignature => "invalid signature bytes".to_owned(),
            BlsError::InvalidPublicKey => "invalid public key bytes".to_owned(),
            BlsError::AggregationFailed => "aggregation failed".to_owned(),
            BlsError::EmptyInput => "empty input".to_owned(),
        }
    }
}

/// Public key (compressed G1 point).
#[derive(Debug, Clone, Copy, PartialEq, Eq)]
pub struct BlsPublicKey(pub [u8; 48]);

/// Secret key (scalar).
#[derive(Debug, Clone, Copy)]
pub struct BlsSecretKey(pub [u8; 32]);

/// Signature (compressed G2 point).
#[derive(Debug, Clone, Copy, PartialEq, Eq)]
pub struct BlsSignature(pub [u8; 96]);

/// Aggregated signature from multiple validators.
#[derive(Debug, Clone)]
pub struct AggregateSignature {
    /// The aggregated signature.
    pub signature: BlsSignature,
    /// Indices of participating signers in the validator set.
    pub signers: Vec<usize>,
    /// Number of signers that contributed to this aggregate.
    pub signer_count: usize,
}

/// Aggregated public key from multiple validators.
#[derive(Debug, Clone, Copy)]
pub struct AggregatePublicKey {
    /// The aggregated public key.
    pub key: BlsPublicKey,
    /// Number of individual keys aggregated.
    pub participant_count: usize,
}

/// Keypair (secret + public).
pub struct BlsKeypair {
    /// The secret key.
    pub secret: BlsSecretKey,
    /// The public key.
    pub public: BlsPublicKey,
}

/// How many signers out of the validator set must participate.
#[derive(Debug, Clone, Copy)]
pub struct ThresholdConfig {
    /// Total number of signers in the validator set.
    pub total_signers: usize,
    /// Minimum number of signers required.
    pub threshold: usize,
}

// ---------------------------------------------------------------------------
// blst
// ---------------------------------------------------------------------------

/// The secret key that input keying material yields.
pub uninterp spec fn blst_key_gen(ikm: Seq<u8>) -> Seq<u8>;

/// The order of the groups of BLS12-381.
pub open spec fn bls_group_order() -> nat {
    0x73eda753299d7d483339d80809a1d80553bda402fffe5bfeffffffff00000001nat
}

/// Whether 32 bytes are a secret key: a big-endian number that is neither zero nor as large as
/// the group order.
pub open spec fn blst_secret_valid(secret: Seq<u8>) -> bool {
    0 < encoding::be_value(secret) < bls_group_order()
}

/// The public key of a secret key.
pub uninterp spec fn blst_public_key(secret: Seq<u8>) -> Seq<u8>;

/// The signature of a secret key on a message in a signing domain.
pub uninterp spec fn blst_signature(
    secret: Seq<u8>,
    message: Seq<u8>,
    domain: Seq<u8>,
) -> Seq<u8>;

/// Whether a signature on a message in a signing domain verifies under a public key.
pub uninterp spec fn blst_verifies(
    key: Seq<u8>,
    message: Seq<u8>,
    domain: Seq<u8>,
    signature: Seq<u8>,
) -> bool;

/// Whether bytes are a compressed public key point.
pub uninterp spec fn blst_key_decodes(key: Seq<u8>) -> bool;

/// Whether bytes are a compressed signature point.
pub uninterp spec fn blst_signature_decodes(signature: Seq<u8>) -> bool;

/// The sum of public keys, where all of them are valid.
pub uninterp spec fn blst_key_sum(keys: Seq<Seq<u8>>) -> Option<Seq<u8>>;

/// The sum of signatures, where all of them are in the group.
pub uninterp spec fn blst_signature_sum(signatures: Seq<Seq<u8>>) -> Option<Seq<u8>>;

/// Whether each signature on a message in a signing domain verifies under the key at its place.
pub open spec fn all_verify(
    keys: Seq<Seq<u8>>,
    message: Seq<u8>,
    domain: Seq<u8>,
    signatures: Seq<Seq<u8>>,
) -> bool {
    &&& keys.len() == signatures.len()
    &&& keys.len() > 0
    &&& forall|i: int|
        0 <= i < keys.len() ==> blst_verifies(
            #[trigger] keys[i],
            message,
            domain,
            signatures[i],
        )
}

/// Whether a compressed public key is the point at infinity, which no signature verifies under.
pub open spec fn is_infinity(key: Seq<u8>) -> bool {
    key[0] == 0xc0 && forall|i: int| 1 <= i < key.len() ==> #[trigger] key[i] == 0
}

/// The byte strings of 48-byte arrays.
pub open spec fn key_list(keys: Seq<[u8; 48]>) -> Seq<Seq<u8>> {
    keys.map_values(|k: [u8; 48]| k@)
}

/// The byte strings of 96-byte arrays.
pub open spec fn signature_list(signatures: Seq<[u8; 96]>) -> Seq<Seq<u8>> {
    signatures.map_values(|s: [u8; 96]| s@)
}

/// `blst::min_pk::SecretKey::key_gen` with no key info, serialized: it depends on the keying
/// material alone, takes 32 bytes or more, and yields a valid secret key.
#[verifier::external_body]
fn key_gen(ikm: &[u8]) -> (secret: [u8; 32])
    requires
        ikm@.len() >= 32,
    ensures
        secret@ == blst_key_gen(ikm@),
        blst_secret_valid(secret@),
{
    blst::min_pk::SecretKey::key_gen(ikm, &[]).unwrap().serialize()
}

/// `blst::min_pk::SecretKey::deserialize`: whether it accepts the bytes, which it does where the
/// big-endian number is neither zero nor as large as the group order.
#[verifier::external_body]
fn secret_decodes(secret: &[u8; 32]) -> (r: bool)
    ensures
        r == blst_secret_valid(secret@),
{
    blst::min_pk::SecretKey::deserialize(secret).is_ok()
}

/// `blst::min_pk::SecretKey::sk_to_pk`, compressed: it depends on the secret key alone.
#[verifier::external_body]
fn public_of(secret: &[u8; 32]) -> (key: [u8; 48])
    requires
        blst_secret_valid(secret@),
    ensures
        key@ == blst_public_key(secret@),
{
    blst::min_pk::SecretKey::deserialize(secret).unwrap().sk_to_pk().compress()
}

/// `blst::min_pk::SecretKey::sign` without augmentation, compressed: it depends on the secret key,
/// the message and the domain tag alone, and the signature verifies under the public key of the
/// secret key.
#[verifier::external_body]
fn sign(secret: &[u8; 32], message: &[u8], domain: &[u8]) -> (signature: [u8; 96])
    requires
        blst_secret_valid(secret@),
    ensures
        signature@ == blst_signature(secret@, message@, domain@),
        blst_verifies(blst_public_key(secret@), message@, domain@, signature@),
{
    let key = blst::min_pk::SecretKey::deserialize(secret).unwrap();
    key.sign(message, domain, &[]).compress()
}

/// `blst::min_pk::Signature::verify` without augmentation, with both points checked; bytes that do
/// not decode do not verify. It depends on its arguments alone.
#[verifier::external_body]
fn verify(key: &[u8; 48], message: &[u8], domain: &[u8], signature: &[u8; 96]) -> (r: bool)
    ensures
        r == blst_verifies(key@, message@, domain@, signature@),
{
    match (blst::min_pk::PublicKey::uncompress(key), blst::min_pk::Signature::uncompress(signature)) {
        (Ok(pk), Ok(sig)) => {
            sig.verify(true, message, domain, &[], &pk, true) == blst::BLST_ERROR::BLST_SUCCESS
        },
        _ => false,
    }
}

/// `blst::min_pk::PublicKey::uncompress`: whether it accepts the bytes, which depends on the
/// bytes alone. Nothing verifies under bytes that it does not accept.
#[verifier::external_body]
fn key_decodes(key: &[u8; 48]) -> (r: bool)
    ensures
        r == blst_key_decodes(key@),
        !r ==> forall|message: Seq<u8>, domain: Seq<u8>, signature: Seq<u8>|
            !#[trigger] blst_verifies(key@, message, domain, signature),
{
    blst::min_pk::PublicKey::uncompress(key).is_ok()
}

/// `blst::min_pk::Signature::uncompress`: whether it accepts the bytes, which depends on the
/// bytes alone. Bytes that it does not accept do not verify.
#[verifier::external_body]
fn signature_decodes(signature: &[u8; 96]) -> (r: bool)
    ensures
        r == blst_signature_decodes(signature@),
        !r ==> forall|key: Seq<u8>, message: Seq<u8>, domain: Seq<u8>|
            !#[trigger] blst_verifies(key, message, domain, signature@),
{
    blst::min_pk::Signature::uncompress(signature).is_ok()
}

/// `blst::min_pk::AggregatePublicKey::aggregate` with every key checked, compressed: the sum of
/// the keys, which depends on the keys alone; it exists where signatures verify under the keys.
#[verifier::external_body]
fn sum_keys(keys: &Vec<[u8; 48]>) -> (r: Option<[u8; 48]>)
    requires
        forall|i: int| 0 <= i < keys@.len() ==> blst_key_decodes((#[trigger] keys@[i])@),
    ensures
        r is Some == blst_key_sum(key_list(keys@)) is Some,
        r matches Some(sum) ==> sum@ == blst_key_sum(key_list(keys@))->0,
        forall|message: Seq<u8>, domain: Seq<u8>, signatures: Seq<Seq<u8>>| #[trigger]
            all_verify(key_list(keys@), message, domain, signatures) ==> r is Some,
{
    let points: Vec<blst::min_pk::PublicKey> = keys.iter().map(
        |k| blst::min_pk::PublicKey::uncompress(k).unwrap(),
    ).collect();
    let refs: Vec<&blst::min_pk::PublicKey> = points.iter().collect();
    match blst::min_pk::AggregatePublicKey::aggregate(&refs, true) {
        Ok(sum) => Some(sum.to_public_key().compress()),
        Err(_) => None,
    }
}

/// `blst::min_pk::AggregateSignature::aggregate` with every signature checked, compressed: the
/// sum of the signatures, which depends on the signatures alone. Where each signature on a
/// message verifies under its key, the sum exists and verifies under the sum of the keys, unless
/// that is the point at infinity.
#[verifier::external_body]
fn sum_signatures(signatures: &Vec<[u8; 96]>) -> (r: Option<[u8; 96]>)
    requires
        forall|i: int|
            0 <= i < signatures@.len() ==> blst_signature_decodes((#[trigger] signatures@[i])@),
    ensures
        r is Some == blst_signature_sum(signature_list(signatures@)) is Some,
        r matches Some(sum) ==> sum@ == blst_signature_sum(signature_list(signatures@))->0,
        forall|keys: Seq<Seq<u8>>, message: Seq<u8>, domain: Seq<u8>| #[trigger]
            all_verify(keys, message, domain, signature_list(signatures@)) ==> {
                &&& r is Some
                &&& blst_key_sum(keys) matches Some(key) ==> is_infinity(key) || blst_verifies(
                    key,
                    message,
                    domain,
                    r->0@,
                )
            },
{
    let points: Vec<blst::min_pk::Signature> = signatures.iter().map(
        |s| blst::min_pk::Signature::uncompress(s).unwrap(),
    ).collect();
    let refs: Vec<&blst::min_pk::Signature> = points.iter().collect();
    match blst::min_pk::AggregateSignature::aggregate(&refs, true) {
        Ok(sum) => Some(sum.to_signature().compress()),
        Err(_) => None,
    }
}

// ---------------------------------------------------------------------------
// Keys and signatures
// ---------------------------------------------------------------------------

/// The signing domain: the tag of the proof-of-possession scheme.
pub open spec fn signing_domain() -> Seq<u8> {
    encoding::text_bytes("BLS_SIG_BLS12381G2_XMD:SHA-256_SSWU_RO_POP_"@)
}

/// The bytes of the signing domain.
fn domain_tag() -> (tag: Vec<u8>)
    ensures
        tag@ == signing_domain(),
{
    text_vec("BLS_SIG_BLS12381G2_XMD:SHA-256_SSWU_RO_POP_")
}

/// The keying material of a seed: the seed itself, or its hash where it is too short.
pub open spec fn keying_material(seed: Seq<u8>) -> Seq<u8> {
    if seed.len() < 32 {
        hash::blake3_digest(seed)
    } else {
        seed
    }
}

/// Generates a keypair from a seed of any length; the same seed yields the same keypair.
pub fn bls_keygen(seed: &[u8]) -> (pair: BlsKeypair)
    ensures
        pair.secret.0@ == blst_key_gen(keying_material(seed@)),
        pair.public.0@ == blst_public_key(pair.secret.0@),
        blst_secret_valid(pair.secret.0@),
{
    let ikm: Vec<u8> = if seed.len() < 32 {
        let digest: [u8; 32] = blake3_hash(seed);
        copy_bytes(&digest)
    } else {
        copy_bytes(seed)
    };
    let secret: [u8; 32] = key_gen(ikm.as_slice());
    let public: [u8; 48] = public_of(&secret);
    BlsKeypair { secret: BlsSecretKey(secret), public: BlsPublicKey(public) }
}

/// Signs a message. The signature verifies under the public key of the secret key.
pub fn bls_sign(sk: &BlsSecretKey, message: &[u8]) -> (r: BlsSignature)
    requires
        blst_secret_valid(sk.0@),
    ensures
        r.0@ == blst_signature(sk.0@, message@, signing_domain()),
        blst_verifies(blst_public_key(sk.0@), message@, signing_domain(), r.0@),
{
    let domain: Vec<u8> = domain_tag();
    BlsSignature(sign(&sk.0, message, &domain))
}

/// Signs a message if the bytes of the secret key are a secret key.
pub fn try_bls_sign(sk: &BlsSecretKey, message: &[u8]) -> (r: Option<BlsSignature>)
    ensures
        r is Some == blst_secret_valid(sk.0@),
        r matches Some(s) ==> {
            &&& s.0@ == blst_signature(sk.0@, message@, signing_domain())
            &&& blst_verifies(blst_public_key(sk.0@), message@, signing_domain(), s.0@)
        },
{
    if secret_decodes(&sk.0) {
        Some(bls_sign(sk, message))
    } else {
        None
    }
}

/// Verifies a signature on a message under a public key.
pub fn bls_verify(pk: &BlsPublicKey, message: &[u8], sig: &BlsSignature) -> (r: bool)
    ensures
        r == blst_verifies(pk.0@, message@, signing_domain(), sig.0@),
{
    let domain: Vec<u8> = domain_tag();
    verify(&pk.0, message, &domain, &sig.0)
}

// ---------------------------------------------------------------------------
// Aggregation
// ---------------------------------------------------------------------------

/// The byte strings of signatures.
pub open spec fn signature_bytes(sigs: Seq<BlsSignature>) -> Seq<Seq<u8>> {
    sigs.map_values(|s: BlsSignature| s.0@)
}

/// The byte strings of public keys.
pub open spec fn key_bytes(pks: Seq<BlsPublicKey>) -> Seq<Seq<u8>> {
    pks.map_values(|k: BlsPublicKey| k.0@)
}

/// Whether all byte strings decode as signatures.
pub open spec fn signatures_decode(sigs: Seq<Seq<u8>>) -> bool {
    forall|i: int| 0 <= i < sigs.len() ==> blst_signature_decodes(#[trigger] sigs[i])
}

/// Whether all byte strings decode as public keys.
pub open spec fn keys_decode(keys: Seq<Seq<u8>>) -> bool {
    forall|i: int| 0 <= i < keys.len() ==> blst_key_decodes(#[trigger] keys[i])
}

/// The outcome of aggregating signatures.
pub open spec fn signatures_aggregated(sigs: Seq<Seq<u8>>) -> Result<Seq<u8>, BlsError> {
    if sigs.len() == 0 {
        Err(BlsError::EmptyInput)
    } else if !signatures_decode(sigs) {
        Err(BlsError::InvalidSignature)
    } else {
        match blst_signature_sum(sigs) {
            Some(sum) => Ok(sum),
            None => Err(BlsError::AggregationFailed),
        }
    }
}

/// The outcome of aggregating public keys.
pub open spec fn keys_aggregated(keys: Seq<Seq<u8>>) -> Result<Seq<u8>, BlsError> {
    if keys.len() == 0 {
        Err(BlsError::EmptyInput)
    } else if !keys_decode(keys) {
        Err(BlsError::InvalidPublicKey)
    } else {
        match blst_key_sum(keys) {
            Some(sum) => Ok(sum),
            None => Err(BlsError::AggregationFailed),
        }
    }
}

/// Checks that all signatures decode.
fn check_signatures(sigs: &Vec<[u8; 96]>) -> (r: bool)
    ensures
        r == signatures_decode(signature_list(sigs@)),
        !r ==> forall|keys: Seq<Seq<u8>>, message: Seq<u8>, domain: Seq<u8>|
            !#[trigger] all_verify(keys, message, domain, signature_list(sigs@)),
{
    let ghost list = signature_list(sigs@);
    let mut i: usize = 0;
    while i < sigs.len()
        invariant
            i <= sigs@.len(),
            list == signature_list(sigs@),
            forall|k: int| 0 <= k < i ==> blst_signature_decodes(#[trigger] list[k]),
        decreases sigs@.len() - i,
    {
        assert(list[i as int] == sigs@[i as int]@);
        if !signature_decodes(&sigs[i]) {
            assert forall|keys: Seq<Seq<u8>>, message: Seq<u8>, domain: Seq<u8>| !#[trigger] all_verify(
                keys,
                message,
                domain,
                list,
            ) by {
                assert(!blst_verifies(keys[i as int], message, domain, list[i as int]));
            }
            return false;
        }
        i = i + 1;
    }
    true
}

/// Checks that all public keys decode.
fn check_keys(keys: &Vec<[u8; 48]>) -> (r: bool)
    ensures
        r == keys_decode(key_list(keys@)),
        !r ==> forall|message: Seq<u8>, domain: Seq<u8>, signatures: Seq<Seq<u8>>|
            !#[trigger] all_verify(key_list(keys@), message, domain, signatures),
{
    let ghost list = key_list(keys@);
    let mut i: usize = 0;
    while i < keys.len()
        invariant
            i <= keys@.len(),
            list == key_list(keys@),
            forall|k: int| 0 <= k < i ==> blst_key_decodes(#[trigger] list[k]),
        decreases keys@.len() - i,
    {
        assert(list[i as int] == keys@[i as int]@);
        if !key_decodes(&keys[i]) {
            assert forall|message: Seq<u8>, domain: Seq<u8>, signatures: Seq<Seq<u8>>| !#[trigger] all_verify(
                list,
                message,
                domain,
                signatures,
            ) by {
                assert(!blst_verifies(list[i as int], message, domain, signatures[i as int]));
            }
            return false;
        }
        i = i + 1;
    }
    true
}

/// Adds signatures that decode.
fn add_signatures(sigs: &Vec<[u8; 96]>) -> (r: Result<[u8; 96], BlsError>)
    requires
        sigs@.len() > 0,
        signatures_decode(signature_list(sigs@)),
    ensures
        match r {
            Ok(sum) => signatures_aggregated(signature_list(sigs@)) == Ok::<Seq<u8>, BlsError>(sum@),
            Err(e) => signatures_aggregated(signature_list(sigs@)) == Err::<Seq<u8>, BlsError>(e),
        },
        forall|keys: Seq<Seq<u8>>, message: Seq<u8>, domain: Seq<u8>| #[trigger]
            all_verify(keys, message, domain, signature_list(sigs@)) ==> {
                &&& r is Ok
                &&& blst_key_sum(keys) matches Some(key) ==> is_infinity(key) || blst_verifies(
                    key,
                    message,
                    domain,
                    r->Ok_0@,
                )
            },
{
    assert forall|i: int| 0 <= i < sigs@.len() implies blst_signature_decodes(
        (#[trigger] sigs@[i])@,
    ) by {
        assert(signature_list(sigs@)[i] == sigs@[i]@);
    }
    match sum_signatures(sigs) {
        Some(sum) => Ok(sum),
        None => Err(BlsError::AggregationFailed),
    }
}

/// Adds public keys that decode.
fn add_keys(keys: &Vec<[u8; 48]>) -> (r: Result<[u8; 48], BlsError>)
    requires
        keys@.len() > 0,
        keys_decode(key_list(keys@)),
    ensures
        match r {
            Ok(sum) => keys_aggregated(key_list(keys@)) == Ok::<Seq<u8>, BlsError>(sum@),
            Err(e) => keys_aggregated(key_list(keys@)) == Err::<Seq<u8>, BlsError>(e),
        },
        forall|message: Seq<u8>, domain: Seq<u8>, signatures: Seq<Seq<u8>>| #[trigger]
            all_verify(key_list(keys@), message, domain, signatures) ==> r is Ok,
{
    assert forall|i: int| 0 <= i < keys@.len() implies blst_key_decodes((#[trigger] keys@[i])@) by {
        assert(key_list(keys@)[i] == keys@[i]@);
    }
    match sum_keys(keys) {
        Some(sum) => Ok(sum),
        None => Err(BlsError::AggregationFailed),
    }
}

/// Aggregates signatures into a single signature.
pub fn aggregate_signatures(sigs: &[BlsSignature]) -> (r: Result<BlsSignature, BlsError>)
    ensures
        match r {
            Ok(sum) => signatures_aggregated(signature_bytes(sigs@)) == Ok::<Seq<u8>, BlsError>(
                sum.0@,
            ),
            Err(e) => signatures_aggregated(signature_bytes(sigs@)) == Err::<Seq<u8>, BlsError>(e),
        },
{
    if sigs.len() == 0 {
        return Err(BlsError::EmptyInput);
    }
    let mut list: Vec<[u8; 96]> = Vec::new();
    let mut i: usize = 0;
    while i < sigs.len()
        invariant
            i <= sigs.len(),
            list@.len() == i,
            forall|k: int| 0 <= k < i ==> (#[trigger] list@[k])@ == sigs@[k].0@,
        decreases sigs.len() - i,
    {
        list.push(sigs[i].0);
        i = i + 1;
    }
    assert(signature_list(list@) =~= signature_bytes(sigs@));
    if !check_signatures(&list) {
        return Err(BlsError::InvalidSignature);
    }
    match add_signatures(&list) {
        Ok(sum) => Ok(BlsSignature(sum)),
        Err(e) => Err(e),
    }
}

/// Aggregates public keys into one.
pub fn aggregate_public_keys(pks: &[BlsPublicKey]) -> (r: Result<AggregatePublicKey, BlsError>)
    ensures
        match r {
            Ok(sum) => {
                &&& keys_aggregated(key_bytes(pks@)) == Ok::<Seq<u8>, BlsError>(sum.key.0@)
                &&& sum.participant_count == pks@.len()
            },
            Err(e) => keys_aggregated(key_bytes(pks@)) == Err::<Seq<u8>, BlsError>(e),
        },
{
    if pks.len() == 0 {
        return Err(BlsError::EmptyInput);
    }
    let mut list: Vec<[u8; 48]> = Vec::new();
    let mut i: usize = 0;
    while i < pks.len()
        invariant
            i <= pks.len(),
            list@.len() == i,
            forall|k: int| 0 <= k < i ==> (#[trigger] list@[k])@ == pks@[k].0@,
        decreases pks.len() - i,
    {
        list.push(pks[i].0);
        i = i + 1;
    }
    assert(key_list(list@) =~= key_bytes(pks@));
    if !check_keys(&list) {
        return Err(BlsError::InvalidPublicKey);
    }
    match add_keys(&list) {
        Ok(sum) => Ok(
            AggregatePublicKey { key: BlsPublicKey(sum), participant_count: pks.len() },
        ),
        Err(e) => Err(e),
    }
}

/// Verifies an aggregated signature under an aggregated public key; an aggregate of no signers
/// does not verify.
pub fn verify_aggregate(
    agg_pk: &AggregatePublicKey,
    message: &[u8],
    agg_sig: &AggregateSignature,
) -> (r: bool)
    ensures
        r == (agg_sig.signer_count != 0 && blst_verifies(
            agg_pk.key.0@,
            message@,
            signing_domain(),
            agg_sig.signature.0@,
        )),
{
    if agg_sig.signer_count == 0 {
        return false;
    }
    let domain: Vec<u8> = domain_tag();
    verify(&agg_pk.key.0, message, &domain, &agg_sig.signature.0)
}

/// The signatures of indexed signatures, as byte strings.
pub open spec fn indexed_bytes(sigs: Seq<(usize, BlsSignature)>) -> Seq<Seq<u8>> {
    sigs.map_values(|s: (usize, BlsSignature)| s.1.0@)
}

/// Aggregates signatures and records who signed.
pub fn create_aggregate(sigs: &[(usize, BlsSignature)]) -> (r: Result<
    AggregateSignature,
    BlsError,
>)
    ensures
        match r {
            Ok(agg) => {
                &&& signatures_aggregated(indexed_bytes(sigs@)) == Ok::<Seq<u8>, BlsError>(
                    agg.signature.0@,
                )
                &&& agg.signers@ == sigs@.map_values(|s: (usize, BlsSignature)| s.0)
                &&& agg.signer_count == sigs@.len()
            },
            Err(e) => signatures_aggregated(indexed_bytes(sigs@)) == Err::<Seq<u8>, BlsError>(e),
        },
{
    if sigs.len() == 0 {
        return Err(BlsError::EmptyInput);
    }
    let mut signers: Vec<usize> = Vec::new();
    let mut list: Vec<[u8; 96]> = Vec::new();
    let mut i: usize = 0;
    while i < sigs.len()
        invariant
            i <= sigs.len(),
            list@.len() == i,
            signers@.len() == i,
            forall|k: int| 0 <= k < i ==> (#[trigger] list@[k])@ == sigs@[k].1.0@,
            forall|k: int| 0 <= k < i ==> #[trigger] signers@[k] == sigs@[k].0,
        decreases sigs.len() - i,
    {
        signers.push(sigs[i].0);
        list.push(sigs[i].1.0);
        i = i + 1;
    }
    assert(signature_list(list@) =~= indexed_bytes(sigs@));
    assert(signers@ =~= sigs@.map_values(|s: (usize, BlsSignature)| s.0));
    if !check_signatures(&list) {
        return Err(BlsError::InvalidSignature);
    }
    match add_signatures(&list) {
        Ok(sum) => Ok(
            AggregateSignature {
                signature: BlsSignature(sum),
                signers,
                signer_count: sigs.len(),
            },
        ),
        Err(e) => Err(e),
    }
}

/// The public keys of signed entries, as byte strings.
pub open spec fn entry_keys(entries: Seq<(usize, &BlsPublicKey, &BlsSignature)>) -> Seq<Seq<u8>> {
    entries.map_values(|e: (usize, &BlsPublicKey, &BlsSignature)| e.1.0@)
}

/// The signatures of signed entries, as byte strings.
pub open spec fn entry_signatures(
    entries: Seq<(usize, &BlsPublicKey, &BlsSignature)>,
) -> Seq<Seq<u8>> {
    entries.map_values(|e: (usize, &BlsPublicKey, &BlsSignature)| e.2.0@)
}

/// The outcome of aggregating keys and signatures together: keys are decoded before signatures,
/// and added before them.
pub open spec fn both_aggregated(keys: Seq<Seq<u8>>, sigs: Seq<Seq<u8>>) -> Result<
    (Seq<u8>, Seq<u8>),
    BlsError,
> {
    if keys.len() == 0 {
        Err(BlsError::EmptyInput)
    } else if !keys_decode(keys) {
        Err(BlsError::InvalidPublicKey)
    } else if !signatures_decode(sigs) {
        Err(BlsError::InvalidSignature)
    } else if blst_key_sum(keys) is None || blst_signature_sum(sigs) is None {
        Err(BlsError::AggregationFailed)
    } else {
        Ok((blst_key_sum(keys)->0, blst_signature_sum(sigs)->0))
    }
}

/// Aggregates signatures and public keys together. Where each signature on the message verifies
/// under its key, the aggregate exists, and it verifies on that message unless the keys add up to
/// the point at infinity.
pub fn create_verifiable_aggregate(
    keypairs_and_sigs: &[(usize, &BlsPublicKey, &BlsSignature)],
    message: &[u8],
) -> (r: Result<(AggregatePublicKey, AggregateSignature), BlsError>)
    ensures
        match r {
            Ok((pk, sig)) => {
                &&& both_aggregated(
                    entry_keys(keypairs_and_sigs@),
                    entry_signatures(keypairs_and_sigs@),
                ) == Ok::<(Seq<u8>, Seq<u8>), BlsError>((pk.key.0@, sig.signature.0@))
                &&& pk.participant_count == keypairs_and_sigs@.len()
                &&& sig.signers@ == keypairs_and_sigs@.map_values(
                    |e: (usize, &BlsPublicKey, &BlsSignature)| e.0,
                )
                &&& sig.signer_count == keypairs_and_sigs@.len()
                &&& all_verify(
                    entry_keys(keypairs_and_sigs@),
                    message@,
                    signing_domain(),
                    entry_signatures(keypairs_and_sigs@),
                ) ==> is_infinity(pk.key.0@) || blst_verifies(
                    pk.key.0@,
                    message@,
                    signing_domain(),
                    sig.signature.0@,
                )
            },
            Err(e) => {
                &&& both_aggregated(
                    entry_keys(keypairs_and_sigs@),
                    entry_signatures(keypairs_and_sigs@),
                ) == Err::<(Seq<u8>, Seq<u8>), BlsError>(e)
                &&& !all_verify(
                    entry_keys(keypairs_and_sigs@),
                    message@,
                    signing_domain(),
                    entry_signatures(keypairs_and_sigs@),
                )
            },
        },
{
    if keypairs_and_sigs.len() == 0 {
        return Err(BlsError::EmptyInput);
    }
    let mut signers: Vec<usize> = Vec::new();
    let mut keys: Vec<[u8; 48]> = Vec::new();
    let mut list: Vec<[u8; 96]> = Vec::new();
    let mut i: usize = 0;
    while i < keypairs_and_sigs.len()
        invariant
            i <= keypairs_and_sigs.len(),
            keys@.len() == i,
            list@.len() == i,
            signers@.len() == i,
            forall|k: int| 0 <= k < i ==> (#[trigger] keys@[k])@ == keypairs_and_sigs@[k].1.0@,
            forall|k: int| 0 <= k < i ==> (#[trigger] list@[k])@ == keypairs_and_sigs@[k].2.0@,
            forall|k: int| 0 <= k < i ==> #[trigger] signers@[k] == keypairs_and_sigs@[k].0,
        decreases keypairs_and_sigs.len() - i,
    {
        signers.push(keypairs_and_sigs[i].0);
        keys.push(keypairs_and_sigs[i].1.0);
        list.push(keypairs_and_sigs[i].2.0);
        i = i + 1;
    }
    assert(key_list(keys@) =~= entry_keys(keypairs_and_sigs@));
    assert(signature_list(list@) =~= entry_signatures(keypairs_and_sigs@));
    assert(signers@ =~= keypairs_and_sigs@.map_values(
        |e: (usize, &BlsPublicKey, &BlsSignature)| e.0,
    ));
    if !check_keys(&keys) {
        return Err(BlsError::InvalidPublicKey);
    }
    if !check_signatures(&list) {
        return Err(BlsError::InvalidSignature);
    }
    let key_sum: [u8; 48] = match add_keys(&keys) {
        Ok(sum) => sum,
        Err(e) => {
            return Err(e);
        },
    };
    let signature_sum: [u8; 96] = match add_signatures(&list) {
        Ok(sum) => sum,
        Err(e) => {
            return Err(e);
        },
    };
    Ok(
        (
            AggregatePublicKey {
                key: BlsPublicKey(key_sum),
                participant_count: keypairs_and_sigs.len(),
            },
            AggregateSignature {
                signature: BlsSignature(signature_sum),
                signers,
                signer_count: keypairs_and_sigs.len(),
            },
        ),
    )
}

// ---------------------------------------------------------------------------
// Threshold and addresses
// ---------------------------------------------------------------------------

/// Whether the number of signers of an aggregate meets or exceeds the threshold.
pub fn meets_threshold(agg: &AggregateSignature, config: &ThresholdConfig) -> (r: bool)
    ensures
        r == (agg.signer_count >= config.threshold),
{
    agg.signer_count >= config.threshold
}

/// Derives a 32-byte address from a public key: its hash.
pub fn address_from_bls_pubkey(pk: &BlsPublicKey) -> (r: [u8; 32])
    ensures
        r@ == hash::blake3_digest(pk.0@),
{
    blake3_hash(&pk.0)
}

/// A seed of at least 32 bytes is the keying material itself; a shorter one is hashed, and yields
/// the material of another short one only where the digests of both collide.
pub proof fn law_keying_material_binds_the_seed(a: Seq<u8>, b: Seq<u8>)
    ensures
        a.len() >= 32 ==> keying_material(a) == a,
        a.len() < 32 && b.len() < 32 && keying_material(a) == keying_material(b) ==> a == b
            || hash::collides(a, b),
        a.len() >= 32 && b.len() >= 32 && keying_material(a) == keying_material(b) ==> a == b,
{
}

/// Signatures aggregate exactly where there are some, all of them decode and their sum exists.
pub proof fn law_aggregation_needs_every_signature(sigs: Seq<Seq<u8>>, i: int)
    requires
        signatures_aggregated(sigs) is Ok,
        0 <= i < sigs.len(),
    ensures
        blst_signature_decodes(sigs[i]),
        blst_signature_sum(sigs) == Some(signatures_aggregated(sigs)->Ok_0),
{
    assert(blst_signature_decodes(sigs[i]));
}

/// Public keys aggregate exactly where there are some, all of them decode and their sum exists.
pub proof fn law_aggregation_needs_every_key(keys: Seq<Seq<u8>>, i: int)
    requires
        keys_aggregated(keys) is Ok,
        0 <= i < keys.len(),
    ensures
        blst_key_decodes(keys[i]),
        blst_key_sum(keys) == Some(keys_aggregated(keys)->Ok_0),
{
    assert(blst_key_decodes(keys[i]));
}

/// Aggregating keys and signatures together gives the same sums as aggregating them apart.
pub proof fn law_joint_aggregation_agrees(keys: Seq<Seq<u8>>, sigs: Seq<Seq<u8>>)
    requires
        keys.len() == sigs.len(),
    ensures
        both_aggregated(keys, sigs) is Ok <==> keys_aggregated(keys) is Ok
            && signatures_aggregated(sigs) is Ok,
        both_aggregated(keys, sigs) matches Ok(sums) ==> keys_aggregated(keys) == Ok::<
            Seq<u8>,
            BlsError,
        >(sums.0) && signatures_aggregated(sigs) == Ok::<Seq<u8>, BlsError>(sums.1),
{
}

/// Aggregation refuses the empty list, then what cannot be read, then what cannot be added.
pub proof fn law_refused_aggregations(keys: Seq<Seq<u8>>, sigs: Seq<Seq<u8>>)
    requires
        keys.len() == sigs.len(),
    ensures
        signatures_aggregated(sigs) == Err::<Seq<u8>, BlsError>(BlsError::EmptyInput)
            <==> sigs.len() == 0,
        keys_aggregated(keys) == Err::<Seq<u8>, BlsError>(BlsError::EmptyInput) <==> keys.len()
            == 0,
        both_aggregated(keys, sigs) == Err::<(Seq<u8>, Seq<u8>), BlsError>(BlsError::EmptyInput)
            <==> keys.len() == 0,
        signatures_aggregated(sigs) == Err::<Seq<u8>, BlsError>(BlsError::InvalidSignature)
            <==> exists|i: int|
            0 <= i < sigs.len() && !blst_signature_decodes(#[trigger] sigs[i]),
        keys_aggregated(keys) == Err::<Seq<u8>, BlsError>(BlsError::InvalidPublicKey)
            <==> exists|i: int| 0 <= i < keys.len() && !blst_key_decodes(#[trigger] keys[i]),
        both_aggregated(keys, sigs) == Err::<(Seq<u8>, Seq<u8>), BlsError>(
            BlsError::InvalidPublicKey,
        ) <==> exists|i: int| 0 <= i < keys.len() && !blst_key_decodes(#[trigger] keys[i]),
{
}

/// Signatures all verify exactly where there are as many as keys, at least one, and each verifies under
/// the key at its place; the point at infinity is the mark and zeros.
pub proof fn law_all_verify_each(
    keys: Seq<Seq<u8>>,
    message: Seq<u8>,
    domain: Seq<u8>,
    signatures: Seq<Seq<u8>>,
    i: int,
)
    ensures
        all_verify(keys, message, domain, signatures) ==> keys.len() == signatures.len()
            && keys.len() > 0,
        all_verify(keys, message, domain, signatures) && 0 <= i < keys.len() ==> blst_verifies(
            keys[i],
            message,
            domain,
            signatures[i],
        ),
        keys.len() == 1 && signatures.len() == 1 ==> (all_verify(keys, message, domain, signatures)
            <==> blst_verifies(keys[0], message, domain, signatures[0])),
        forall|key: Seq<u8>|
            key.len() == 48 ==> (#[trigger] is_infinity(key) <==> key == seq![0xc0u8] + Seq::new(
                47,
                |j: int| 0u8,
            )),
{
    assert forall|key: Seq<u8>| key.len() == 48 implies (#[trigger] is_infinity(key) <==> key
        == seq![0xc0u8] + Seq::new(47, |j: int| 0u8)) by {
        let want = seq![0xc0u8] + Seq::new(47, |j: int| 0u8);
        if is_infinity(key) {
            assert(key =~= want);
        }
        if key == want {
            assert forall|j: int| 1 <= j < key.len() implies #[trigger] key[j] == 0 by {
                assert(want[j] == 0);
            }
        }
    }
}

} // verus!
