//! Trusted boundary to the sodium cryptographic primitives.
//!
//! Every key, nonce, signature and ciphertext crosses this boundary as a
//! plain byte vector. What a primitive computes from its arguments alone is
//! given a name (an uninterpreted spec function); a wrapper's contract ties
//! the call's result to that name, and the rest of the library is verified
//! against those contracts.

use vstd::prelude::*;

verus! {

/// Length in bytes of an Ed25519 public signing key.
pub const SIGN_PK_LEN: usize = 32;

/// Length in bytes of an Ed25519 secret signing key.
pub const SIGN_SK_LEN: usize = 64;

/// Length in bytes of a detached Ed25519 signature.
pub const SIGN_SIG_LEN: usize = 64;

/// Length in bytes of a Curve25519 public or secret agreement key.
pub const BOX_KEY_LEN: usize = 32;

/// Length in bytes of a precomputed (shared) key.
pub const BOX_SHARED_LEN: usize = 32;

/// Length in bytes of an envelope nonce.
pub const BOX_NONCE_LEN: usize = 24;

/// Bytes the authenticated-encryption tag adds to a plaintext.
pub const BOX_MAC_LEN: usize = 16;

/// The signing public key that corresponds to a secret signing key.
pub uninterp spec fn sign_pk_of(sk: Seq<u8>) -> Seq<u8>;

/// The detached signature over a message under a secret signing key.
pub uninterp spec fn sig_of(m: Seq<u8>, sk: Seq<u8>) -> Seq<u8>;

/// Whether a detached signature over a message verifies under a public
/// signing key.
pub uninterp spec fn sig_valid(sig: Seq<u8>, m: Seq<u8>, pk: Seq<u8>) -> bool;

/// The agreement public key that corresponds to a secret agreement key.
pub uninterp spec fn box_pk_of(sk: Seq<u8>) -> Seq<u8>;

/// The shared key derived from a peer's public key and one's own secret key.
pub uninterp spec fn dh_of(pk: Seq<u8>, sk: Seq<u8>) -> Seq<u8>;

/// The ciphertext sealed from a plaintext under a nonce and a shared key.
pub uninterp spec fn sealed(m: Seq<u8>, n: Seq<u8>, k: Seq<u8>) -> Seq<u8>;

/// What opening a ciphertext under a nonce and a shared key yields: the
/// plaintext, or nothing when authentication fails.
pub uninterp spec fn opened(c: Seq<u8>, n: Seq<u8>, k: Seq<u8>) -> Option<Seq<u8>>;

/// Relies on sign::gen_keypair: a fresh Ed25519 key pair whose public half
/// is the one `sign::SecretKey::public_key` computes from the secret half,
/// and on the documented pairing of sign::sign_detached with
/// sign::verify_detached: a signature made with a generated pair's secret
/// half verifies under its public half, whatever the message.
#[verifier::external_body]
pub(crate) fn sign_gen_keypair() -> (kp: (Vec<u8>, Vec<u8>))
    ensures
        kp.0@.len() == SIGN_PK_LEN,
        kp.1@.len() == SIGN_SK_LEN,
        kp.0@ == sign_pk_of(kp.1@),
        forall|m: Seq<u8>| #[trigger] sig_valid(sig_of(m, kp.1@), m, kp.0@),
{
    let (pk, sk) = sodiumoxide::crypto::sign::gen_keypair();
    (pk.as_ref().to_vec(), sk.as_ref().to_vec())
}

/// Relies on sign::sign_detached: the signature is a function of the
/// message and the secret key alone. That it verifies is stated only of
/// generated key pairs, on `sign_gen_keypair`: an arbitrary byte string of
/// secret-key length need not have halves that belong together.
#[verifier::external_body]
pub(crate) fn sign_detached_sig(m: &[u8], sk: &[u8]) -> (sig: Vec<u8>)
    requires
        sk@.len() == SIGN_SK_LEN,
    ensures
        sig@.len() == SIGN_SIG_LEN,
        sig@ == sig_of(m@, sk@),
{
    let key = sodiumoxide::crypto::sign::SecretKey::from_slice(sk).unwrap();
    let s = sodiumoxide::crypto::sign::sign_detached(m, &key);
    s.as_ref().to_vec()
}

/// Relies on sign::verify_detached: accepts exactly the valid signatures over
/// the message under the key. A byte string that the signature type itself
/// rejects (a non-canonical scalar) is one the verifier rejects too.
#[verifier::external_body]
pub(crate) fn verify_detached_ok(sig: &[u8], m: &[u8], pk: &[u8]) -> (ok: bool)
    requires
        sig@.len() == SIGN_SIG_LEN,
        pk@.len() == SIGN_PK_LEN,
    ensures
        ok == sig_valid(sig@, m@, pk@),
{
    let key = sodiumoxide::crypto::sign::PublicKey::from_slice(pk).unwrap();
    match sodiumoxide::crypto::sign::Signature::from_bytes(sig) {
        Ok(s) => sodiumoxide::crypto::sign::verify_detached(&s, m, &key),
        Err(_) => false,
    }
}

/// Relies on box_::gen_keypair: a fresh Curve25519 key pair whose public half
/// is the one `box_::SecretKey::public_key` computes from the secret half,
/// and on the documented agreement of box_::precompute: both ends of an
/// exchange derive the same shared key, whichever side's secret key is
/// combined with the other side's public key.
#[verifier::external_body]
pub(crate) fn box_gen_keypair() -> (kp: (Vec<u8>, Vec<u8>))
    ensures
        kp.0@.len() == BOX_KEY_LEN,
        kp.1@.len() == BOX_KEY_LEN,
        kp.0@ == box_pk_of(kp.1@),
        forall|osk: Seq<u8>|
            osk.len() == BOX_KEY_LEN ==> #[trigger] dh_of(box_pk_of(osk), kp.1@) == dh_of(
                kp.0@,
                osk,
            ),
{
    let (pk, sk) = sodiumoxide::crypto::box_::gen_keypair();
    (pk.as_ref().to_vec(), sk.as_ref().to_vec())
}

/// Relies on box_::precompute: the shared key is a function of the public
/// and secret key alone, thirty-two bytes long.
#[verifier::external_body]
pub(crate) fn box_precompute(pk: &[u8], sk: &[u8]) -> (k: Vec<u8>)
    requires
        pk@.len() == BOX_KEY_LEN,
        sk@.len() == BOX_KEY_LEN,
    ensures
        k@.len() == BOX_SHARED_LEN,
        k@ == dh_of(pk@, sk@),
{
    let p = sodiumoxide::crypto::box_::PublicKey::from_slice(pk).unwrap();
    let s = sodiumoxide::crypto::box_::SecretKey::from_slice(sk).unwrap();
    sodiumoxide::crypto::box_::precompute(&p, &s).as_ref().to_vec()
}

/// Relies on box_::gen_nonce: a nonce of the fixed envelope-nonce length.
#[verifier::external_body]
pub(crate) fn box_gen_nonce() -> (n: Vec<u8>)
    ensures
        n@.len() == BOX_NONCE_LEN,
{
    let nonce = sodiumoxide::crypto::box_::gen_nonce();
    nonce.as_ref().to_vec()
}

/// Relies on box_::seal_precomputed: authenticated encryption that is a
/// function of plaintext, nonce and key, adds exactly the tag's length, and
/// round-trips through box_::open_precomputed under the same nonce and key.
#[verifier::external_body]
pub(crate) fn box_seal(m: &[u8], n: &[u8], k: &[u8]) -> (c: Vec<u8>)
    requires
        n@.len() == BOX_NONCE_LEN,
        k@.len() == BOX_SHARED_LEN,
        m@.len() + BOX_MAC_LEN <= usize::MAX,
    ensures
        c@.len() == m@.len() + BOX_MAC_LEN,
        c@ == sealed(m@, n@, k@),
        opened(c@, n@, k@) == Some(m@),
{
    let nonce = sodiumoxide::crypto::box_::Nonce::from_slice(n).unwrap();
    let key = sodiumoxide::crypto::box_::PrecomputedKey::from_slice(k).unwrap();
    sodiumoxide::crypto::box_::seal_precomputed(m, &nonce, &key)
}

/// Relies on box_::open_precomputed: yields the plaintext exactly when the
/// ciphertext authenticates under the nonce and key, and fails otherwise.
#[verifier::external_body]
pub(crate) fn box_open(c: &[u8], n: &[u8], k: &[u8]) -> (r: Option<Vec<u8>>)
    requires
        n@.len() == BOX_NONCE_LEN,
        k@.len() == BOX_SHARED_LEN,
    ensures
        match r {
            Some(m) => opened(c@, n@, k@) == Some(m@),
            None => opened(c@, n@, k@) is None,
        },
{
    let nonce = sodiumoxide::crypto::box_::Nonce::from_slice(n).unwrap();
    let key = sodiumoxide::crypto::box_::PrecomputedKey::from_slice(k).unwrap();
    match sodiumoxide::crypto::box_::open_precomputed(c, &nonce, &key) {
        Ok(m) => Some(m),
        Err(()) => None,
    }
}

/// Relies on String::from_utf8: succeeds exactly on valid UTF-8 input and
/// yields its decoding.
#[verifier::external_body]
pub(crate) fn string_from_utf8(b: Vec<u8>) -> (r: Option<String>)
    ensures
        match r {
            Some(s) => vstd::utf8::valid_utf8(b@) && s@ == vstd::utf8::decode_utf8(b@),
            None => !vstd::utf8::valid_utf8(b@),
        },
{
    match String::from_utf8(b) {
        Ok(s) => Some(s),
        Err(_) => None,
    }
}

} // verus!
