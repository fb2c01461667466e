//! Verifiable random function from deterministic signatures.
//!
//! ```text
//! gamma  = BLAKE3_derive("ARC-vrf-gamma-derive-v1",
//!              sign(sk, BLAKE3_derive("ARC-vrf-gamma-v1", pk || alpha)))
//! proof  = sign(sk, BLAKE3_derive("ARC-vrf-proof-v1", gamma || H(alpha)))
//! output = BLAKE3_derive("ARC-vrf-output-v1", gamma)
//! ```
//!
//! Verification recomputes the proof message from gamma and alpha, checks the signature against
//! the prover's address, and derives the output from gamma.

use vstd::prelude::*;

use crate::encoding::push_bytes;
use crate::hash;
use crate::hash::{blake3_derive, blake3_hash, Hash256};
use crate::signature;
use crate::signature::{KeyPair, Signature, SignatureError, FALCON_SK_LEN};

verus! {

/// VRF proof binding a pseudorandom output to a secret key and input.
#[derive(Clone, Debug)]
pub struct VrfProof {
    /// Intermediate value derived from secret key and input.
    pub gamma: Hash256,
    /// Signature over gamma and the hash of the input.
    pub signature: Signature,
}

/// The 32-byte pseudorandom output of a VRF evaluation.
#[derive(Clone, Debug, PartialEq, Eq)]
pub struct VrfOutput(pub Hash256);

/// The message whose signature gamma is derived from.
pub open spec fn gamma_message(public_key: Seq<u8>, alpha: Seq<u8>) -> Seq<u8> {
    hash::blake3_derived("ARC-vrf-gamma-v1"@, public_key + alpha)
}

/// The bytes of a signature: its public key, where it carries one, then the signature proper.
pub open spec fn signature_material(s: signature::SignatureView) -> Seq<u8> {
    match s {
        signature::SignatureView::Ed25519 { public_key, signature } => public_key + signature,
        signature::SignatureView::Secp256k1 { signature } => signature,
        signature::SignatureView::MlDsa65 { public_key, signature } => public_key + signature,
        signature::SignatureView::Falcon512 { public_key, signature } => public_key + signature,
    }
}

/// Gamma, from the signature that it is derived from.
pub open spec fn gamma_of(s: signature::SignatureView) -> Seq<u8> {
    hash::blake3_derived("ARC-vrf-gamma-derive-v1"@, signature_material(s))
}

/// The message that the proof signs.
pub open spec fn proof_message(gamma: Seq<u8>, alpha: Seq<u8>) -> Seq<u8> {
    hash::blake3_derived("ARC-vrf-proof-v1"@, gamma + hash::blake3_digest(alpha))
}

/// The output that gamma yields.
pub open spec fn output_of(gamma: Seq<u8>) -> Seq<u8> {
    hash::blake3_derived("ARC-vrf-output-v1"@, gamma)
}

/// Whether a proof and an output are what a key pair yields for an input: gamma comes from a
/// signature on the gamma message, the proof signs gamma with the input, and the output comes
/// from gamma.
pub open spec fn is_evaluation(
    k: signature::KeyPairView,
    alpha: Seq<u8>,
    p: VrfProof,
    output: VrfOutput,
) -> bool {
    &&& exists|s: Signature|
        p.gamma@ == gamma_of(#[trigger] s@) && signature::is_signing_outcome(
            k,
            gamma_message(signature::public_key_of(k), alpha),
            Ok(s),
        )
    &&& signature::is_signing_outcome(k, proof_message(p.gamma@, alpha), Ok(p.signature))
    &&& output.0@ == output_of(p.gamma@)
}

/// Whether signing one of the two messages of an evaluation can fail with an error: the gamma
/// message, or the proof message for a gamma that came out.
pub open spec fn is_evaluation_error(
    k: signature::KeyPairView,
    alpha: Seq<u8>,
    e: SignatureError,
) -> bool {
    let first = gamma_message(signature::public_key_of(k), alpha);
    ||| signature::is_signing_outcome(k, first, Err(e))
    ||| exists|s: Signature| #[trigger]
        signature::is_signing_outcome(k, first, Ok(s)) && signature::is_signing_outcome(
            k,
            proof_message(gamma_of(s@), alpha),
            Err(e),
        )
}

/// Gamma of an Ed25519 secret key for an input.
pub open spec fn ed25519_gamma(secret: Seq<u8>, alpha: Seq<u8>) -> Seq<u8> {
    let key = signature::ed25519_public(secret);
    gamma_of(
        signature::SignatureView::Ed25519 {
            public_key: key,
            signature: signature::ed25519_signature(secret, gamma_message(key, alpha)),
        },
    )
}

/// With Ed25519 keys, the same key pair and the same input yield the same output.
pub proof fn law_ed25519_output_is_determined(
    secret: Seq<u8>,
    alpha: Seq<u8>,
    p: VrfProof,
    output: VrfOutput,
)
    requires
        is_evaluation(signature::KeyPairView::Ed25519(secret), alpha, p, output),
    ensures
        p.gamma@ == ed25519_gamma(secret, alpha),
        output.0@ == output_of(ed25519_gamma(secret, alpha)),
{
    let k = signature::KeyPairView::Ed25519(secret);
    let s = choose|s: Signature|
        p.gamma@ == gamma_of(#[trigger] s@) && signature::is_signing_outcome(
            k,
            gamma_message(signature::public_key_of(k), alpha),
            Ok(s),
        );
    assert(s@ == (signature::SignatureView::Ed25519 {
        public_key: signature::ed25519_public(secret),
        signature: signature::ed25519_signature(
            secret,
            gamma_message(signature::ed25519_public(secret), alpha),
        ),
    }));
}

/// Derives gamma from a signature.
fn derive_gamma(s: &Signature) -> (gamma: Hash256)
    ensures
        gamma@ == gamma_of(s@),
{
    let mut data: Vec<u8> = Vec::new();
    match s {
        Signature::Ed25519 { public_key, signature } => {
            push_bytes(&mut data, public_key);
            push_bytes(&mut data, signature.as_slice());
        },
        Signature::Secp256k1 { signature } => {
            push_bytes(&mut data, signature.as_slice());
        },
        Signature::MlDsa65 { public_key, signature } => {
            push_bytes(&mut data, public_key.as_slice());
            push_bytes(&mut data, signature.as_slice());
        },
        Signature::Falcon512 { public_key, signature } => {
            push_bytes(&mut data, public_key.as_slice());
            push_bytes(&mut data, signature.as_slice());
        },
    }
    assert(data@ =~= signature_material(s@));
    Hash256(blake3_derive("ARC-vrf-gamma-derive-v1", data.as_slice()))
}

/// Computes the message that the proof signs.
fn compute_proof_message(gamma: &Hash256, alpha: &[u8]) -> (m: Hash256)
    ensures
        m@ == proof_message(gamma@, alpha@),
{
    let alpha_hash: [u8; 32] = blake3_hash(alpha);
    let mut data: Vec<u8> = Vec::new();
    push_bytes(&mut data, &gamma.0);
    push_bytes(&mut data, &alpha_hash);
    assert(data@ =~= gamma@ + hash::blake3_digest(alpha@));
    Hash256(blake3_derive("ARC-vrf-proof-v1", data.as_slice()))
}

/// Produces a proof and an output for the given input. A proof by keys that belong together
/// verifies for their address.
pub fn vrf_prove(keypair: &KeyPair, alpha: &[u8]) -> (r: Result<
    (VrfProof, VrfOutput),
    SignatureError,
>)
    requires
        signature::can_sign(keypair@),
    ensures
        match r {
            Ok((p, output)) => {
                &&& is_evaluation(keypair@, alpha@, p, output)
                &&& signature::belongs_together(keypair@) ==> signature::signature_fault(
                    p.signature@,
                    proof_message(p.gamma@, alpha@),
                    signature::address_of(keypair@),
                ) is None
            },
            Err(e) => is_evaluation_error(keypair@, alpha@, e),
        },
        keypair@ is Ed25519 ==> r is Ok,
{
    let key: Vec<u8> = keypair.public_key_bytes();
    let mut data: Vec<u8> = Vec::new();
    push_bytes(&mut data, key.as_slice());
    push_bytes(&mut data, alpha);
    assert(data@ =~= key@ + alpha@);
    let message: Hash256 = Hash256(blake3_derive("ARC-vrf-gamma-v1", data.as_slice()));
    let gamma_sig: Signature = match keypair.sign(&message) {
        Ok(s) => s,
        Err(e) => {
            return Err(e);
        },
    };
    let gamma: Hash256 = derive_gamma(&gamma_sig);
    let proof_msg: Hash256 = compute_proof_message(&gamma, alpha);
    let signature: Signature = match keypair.sign(&proof_msg) {
        Ok(s) => s,
        Err(e) => {
            return Err(e);
        },
    };
    let output: Hash256 = Hash256(blake3_derive("ARC-vrf-output-v1", &gamma.0));
    assert(gamma@ == gamma_of(gamma_sig@));
    Ok((VrfProof { gamma, signature }, VrfOutput(output)))
}

/// Produces a proof and an output with keys of which nothing is known. `None` stands for a
/// Falcon-512 secret key of the right length: whether it was generated cannot be told from its
/// bytes.
pub fn try_vrf_prove(keypair: &KeyPair, alpha: &[u8]) -> (r: Option<
    Result<(VrfProof, VrfOutput), SignatureError>,
>)
    ensures
        r is None == (keypair@ matches signature::KeyPairView::Falcon512 { secret, .. }
            && secret.len() == FALCON_SK_LEN),
        r matches Some(outcome) ==> match outcome {
            Ok((p, output)) => {
                &&& is_evaluation(keypair@, alpha@, p, output)
                &&& signature::belongs_together(keypair@) ==> signature::signature_fault(
                    p.signature@,
                    proof_message(p.gamma@, alpha@),
                    signature::address_of(keypair@),
                ) is None
            },
            Err(e) => is_evaluation_error(keypair@, alpha@, e),
        },
        keypair@ is Ed25519 ==> r matches Some(Ok(_)),
{
    if let KeyPair::Falcon512 { sk_bytes, .. } = keypair {
        if sk_bytes.len() == FALCON_SK_LEN {
            return None;
        }
    }
    Some(vrf_prove(keypair, alpha))
}

/// Verifies a proof for an address and an input, and returns the output.
pub fn vrf_verify(public_key_address: &Hash256, alpha: &[u8], p: &VrfProof) -> (r: Result<
    VrfOutput,
    SignatureError,
>)
    ensures
        ({
            let fault = signature::signature_fault(
                p.signature@,
                proof_message(p.gamma@, alpha@),
                public_key_address@,
            );
            match r {
                Ok(output) => fault is None && output.0@ == output_of(p.gamma@),
                Err(e) => fault == Some(e@),
            }
        }),
{
    let proof_msg: Hash256 = compute_proof_message(&p.gamma, alpha);
    if let Err(e) = p.signature.verify(&proof_msg, public_key_address) {
        return Err(e);
    }
    Ok(VrfOutput(Hash256(blake3_derive("ARC-vrf-output-v1", &p.gamma.0))))
}

/// The message whose signature gives gamma belongs to one public key and one input, among public
/// keys of one length, unless the digests of what is hashed collide.
pub proof fn law_gamma_messages_bind_key_and_input(
    key_a: Seq<u8>,
    alpha_a: Seq<u8>,
    key_b: Seq<u8>,
    alpha_b: Seq<u8>,
)
    requires
        key_a.len() == key_b.len(),
        gamma_message(key_a, alpha_a) == gamma_message(key_b, alpha_b),
    ensures
        (key_a == key_b && alpha_a == alpha_b) || hash::derived_collides(
            "ARC-vrf-gamma-v1"@,
            key_a + alpha_a,
            key_b + alpha_b,
        ),
{
    if key_a + alpha_a == key_b + alpha_b {
        crate::encoding::lemma_split(key_a, alpha_a, key_b, alpha_b);
    }
}

/// The message whose signature is the proof belongs to one gamma and one input, unless the digests
/// of what is hashed collide.
pub proof fn law_proof_messages_bind_gamma_and_input(
    gamma_a: Seq<u8>,
    alpha_a: Seq<u8>,
    gamma_b: Seq<u8>,
    alpha_b: Seq<u8>,
)
    requires
        gamma_a.len() == gamma_b.len(),
        proof_message(gamma_a, alpha_a) == proof_message(gamma_b, alpha_b),
    ensures
        (gamma_a == gamma_b && alpha_a == alpha_b) || hash::collides(alpha_a, alpha_b)
            || hash::derived_collides(
            "ARC-vrf-proof-v1"@,
            gamma_a + hash::blake3_digest(alpha_a),
            gamma_b + hash::blake3_digest(alpha_b),
        ),
{
    let x = hash::blake3_digest(alpha_a);
    let y = hash::blake3_digest(alpha_b);
    if gamma_a + x == gamma_b + y {
        crate::encoding::lemma_split(gamma_a, x, gamma_b, y);
    }
}

/// What gamma is derived from is the whole signature: for one scheme, and public keys of one
/// length, gamma belongs to one public key and one signature, unless the digests of what is hashed
/// collide.
pub proof fn law_gammas_bind_signatures(
    a: signature::SignatureView,
    b: signature::SignatureView,
)
    requires
        gamma_of(a) == gamma_of(b),
        match (a, b) {
            (
                signature::SignatureView::Ed25519 { public_key: p, .. },
                signature::SignatureView::Ed25519 { public_key: q, .. },
            ) => p.len() == q.len(),
            (
                signature::SignatureView::Secp256k1 { .. },
                signature::SignatureView::Secp256k1 { .. },
            ) => true,
            (
                signature::SignatureView::MlDsa65 { public_key: p, .. },
                signature::SignatureView::MlDsa65 { public_key: q, .. },
            ) => p.len() == q.len(),
            (
                signature::SignatureView::Falcon512 { public_key: p, .. },
                signature::SignatureView::Falcon512 { public_key: q, .. },
            ) => p.len() == q.len(),
            _ => false,
        },
    ensures
        a == b || hash::derived_collides(
            "ARC-vrf-gamma-derive-v1"@,
            signature_material(a),
            signature_material(b),
        ),
{
    if signature_material(a) == signature_material(b) {
        match (a, b) {
            (
                signature::SignatureView::Ed25519 { public_key: p, signature: x },
                signature::SignatureView::Ed25519 { public_key: q, signature: y },
            ) => {
                crate::encoding::lemma_split(p, x, q, y);
            },
            (
                signature::SignatureView::MlDsa65 { public_key: p, signature: x },
                signature::SignatureView::MlDsa65 { public_key: q, signature: y },
            ) => {
                crate::encoding::lemma_split(p, x, q, y);
            },
            (
                signature::SignatureView::Falcon512 { public_key: p, signature: x },
                signature::SignatureView::Falcon512 { public_key: q, signature: y },
            ) => {
                crate::encoding::lemma_split(p, x, q, y);
            },
            _ => {},
        }
    }
}

/// The output belongs to one gamma, unless the digests of two gammas collide.
pub proof fn law_outputs_bind_gamma(a: Seq<u8>, b: Seq<u8>)
    requires
        output_of(a) == output_of(b),
    ensures
        a == b || hash::derived_collides("ARC-vrf-output-v1"@, a, b),
{
}

/// With an Ed25519 key the proof carries the signature, under that key, of the message over the point
/// and the input.
pub proof fn law_ed25519_proofs_sign_the_point_and_the_input(
    secret: Seq<u8>,
    alpha: Seq<u8>,
    p: VrfProof,
    output: VrfOutput,
)
    requires
        is_evaluation(signature::KeyPairView::Ed25519(secret), alpha, p, output),
    ensures
        p.signature@ == (signature::SignatureView::Ed25519 {
            public_key: signature::ed25519_public(secret),
            signature: signature::ed25519_signature(
                secret,
                hash::blake3_derived("ARC-vrf-proof-v1"@, p.gamma@ + hash::blake3_digest(alpha)),
            ),
        }),
        output.0@ == hash::blake3_derived("ARC-vrf-output-v1"@, p.gamma@),
{
}

/// With an Ed25519 key nothing fails; with a Secp256k1 key an error is that of one of the two signatures:
/// on the message over key and input, or on the message over the point and the input.
pub proof fn law_evaluation_errors_are_signing_errors(
    secret: Seq<u8>,
    alpha: Seq<u8>,
    e: SignatureError,
)
    ensures
        !is_evaluation_error(signature::KeyPairView::Ed25519(secret), alpha, e),
        is_evaluation_error(signature::KeyPairView::Secp256k1(secret), alpha, e) ==> {
            let key = signature::secp256k1_public(secret, true);
            let first = signature::secp256k1_signature(
                secret,
                hash::blake3_derived("ARC-vrf-gamma-v1"@, key + alpha),
            );
            match first {
                Err(text) => e@ == signature::SignatureErrorView::SigningFailed(text),
                Ok((rs, v)) => {
                    let gamma = hash::blake3_derived("ARC-vrf-gamma-derive-v1"@, rs.push(v));
                    let second = signature::secp256k1_signature(
                        secret,
                        hash::blake3_derived(
                            "ARC-vrf-proof-v1"@,
                            gamma + hash::blake3_digest(alpha),
                        ),
                    );
                    second matches Err(text)
                        && e@ == signature::SignatureErrorView::SigningFailed(text)
                },
            }
        },
{
}

} // verus!
