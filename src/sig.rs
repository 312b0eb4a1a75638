//! Ed25519 signatures over hex hashes, and their base64 text forms.
//!
//! Each record and snapshot is signed over the UTF-8 bytes of its hex hash.
//! The signing seed is a base64 32-byte value; an empty seed turns signing off.
use vstd::prelude::*;
use vstd::utf8::encode_utf8;
use vstd::string::StringExecFns;
use signatory::ed25519::{Signature, SigningKey, VerifyingKey};
use signatory::signature::{Signer, Verifier};
use crate::digest::{is_lower_hex, sha256, sha256_hex, Verifiable};

verus! {

/// The standard base64 text of a byte string.
pub uninterp spec fn base64_of(b: Seq<u8>) -> Seq<char>;

/// The bytes that a standard base64 text decodes to, if it is well formed.
pub uninterp spec fn base64_decoded(s: Seq<char>) -> Option<Seq<u8>>;

/// Whether `sig` is a valid Ed25519 signature of `msg` under the public key `pk`.
pub uninterp spec fn ed25519_accepts(pk: Seq<u8>, msg: Seq<u8>, sig: Seq<u8>) -> bool;

/// The Ed25519 signature of `msg` under the key with the 32-byte `seed`.
pub uninterp spec fn ed25519_signature(seed: Seq<u8>, msg: Seq<u8>) -> Seq<u8>;

/// The Ed25519 public key of the 32-byte `seed`.
pub uninterp spec fn ed25519_public_key(seed: Seq<u8>) -> Seq<u8>;

/// Relies on `base64::encode` (standard alphabet, padded): its text depends on
/// the bytes alone, and `base64::decode` gives the bytes back.
#[verifier::external_body]
pub(crate) fn base64_encode(b: &[u8]) -> (r: String)
    ensures
        r@ == base64_of(b@),
        base64_decoded(r@) == Some(b@),
{
    base64::encode(b)
}

/// Relies on `base64::decode` (standard alphabet): the decoded bytes, or an
/// error for malformed text, depending on the text alone.
#[verifier::external_body]
pub(crate) fn base64_decode(s: &str) -> (r: Option<Vec<u8>>)
    ensures
        match r {
            Some(v) => base64_decoded(s@) == Some(v@),
            None => base64_decoded(s@) is None,
        },
{
    match base64::decode(s) {
        Ok(v) => Some(v),
        Err(_) => None,
    }
}

/// Relies on signatory's `ed25519::VerifyingKey::from_bytes` and its
/// `Verifier::verify`, with `Signature::from_slice`: whether the bytes form a
/// public key and a signature, and the signature verifies.
#[verifier::external_body]
fn ed25519_verify(pk: &[u8], msg: &[u8], sig: &[u8]) -> (r: bool)
    ensures
        r == ed25519_accepts(pk@, msg@, sig@),
{
    match (VerifyingKey::from_bytes(pk), Signature::from_slice(sig)) {
        (Ok(key), Ok(s)) => key.verify(msg, &s).is_ok(),
        _ => false,
    }
}

/// Relies on signatory's `ed25519::SigningKey::from_bytes`, which takes
/// exactly 32 bytes, and its `Signer::try_sign`, which for such a key always
/// signs (ed25519-dalek's `try_sign`): the 64 signature bytes, which verify
/// under the key's own public key (ed25519-dalek's documented sign and verify
/// round trip).
#[verifier::external_body]
fn ed25519_sign(seed: &[u8], msg: &[u8]) -> (r: Option<Vec<u8>>)
    ensures
        r is Some <==> seed@.len() == 32,
        r matches Some(s) ==> s@ == ed25519_signature(seed@, msg@) && s@.len() == 64
            && ed25519_accepts(ed25519_public_key(seed@), msg@, s@),
{
    match SigningKey::from_bytes(seed) {
        Ok(key) => match key.try_sign(msg) {
            Ok(s) => Some(s.to_bytes().to_vec()),
            Err(_) => None,
        },
        Err(_) => None,
    }
}

/// Relies on signatory's `ed25519::SigningKey::from_bytes`, which takes
/// exactly 32 bytes, and `verifying_key`: the 32 public key bytes.
#[verifier::external_body]
fn ed25519_public(seed: &[u8]) -> (r: Option<Vec<u8>>)
    ensures
        r is Some <==> seed@.len() == 32,
        r matches Some(pk) ==> pk@ == ed25519_public_key(seed@),
{
    match SigningKey::from_bytes(seed) {
        Ok(key) => Some(key.verifying_key().to_bytes().to_vec()),
        Err(_) => None,
    }
}

/// Why a signature or key cannot be used.
#[derive(Clone, Copy, Debug, PartialEq, Eq, Structural)]
pub enum SigError {
    /// The text is not base64.
    Decode,
    /// The decoded bytes have the wrong length.
    Length,
    /// The signature does not verify, or could not be made.
    Mismatch,
}

/// The signing seed that a configuration text gives: none where the text is
/// empty, is not base64, or does not hold 32 bytes.
pub open spec fn seed_of(seed_b64: Seq<char>) -> Option<Seq<u8>> {
    if seed_b64.len() == 0 {
        None
    } else {
        match base64_decoded(seed_b64) {
            Some(b) => if b.len() == 32 {
                Some(b)
            } else {
                None
            },
            None => None,
        }
    }
}

/// The signing seed of the configuration.
pub fn get_seed(seed_b64: &str) -> (r: Option<Vec<u8>>)
    ensures
        match r {
            Some(b) => seed_of(seed_b64@) == Some(b@),
            None => seed_of(seed_b64@) is None,
        },
{
    if seed_b64.is_empty() {
        return None;
    }
    match base64_decode(seed_b64) {
        Some(b) => if b.len() == 32 {
            Some(b)
        } else {
            None
        },
        None => None,
    }
}

/// Decodes a base64 value of exactly `n` bytes.
pub open spec fn decoded_exact(s: Seq<char>, n: nat) -> Result<Seq<u8>, SigError> {
    match base64_decoded(s) {
        Some(b) => if b.len() == n {
            Ok(b)
        } else {
            Err(SigError::Length)
        },
        None => Err(SigError::Decode),
    }
}

fn decode_exact(s: &str, n: usize) -> (r: Result<Vec<u8>, SigError>)
    ensures
        match r {
            Ok(b) => decoded_exact(s@, n as nat) == Ok::<Seq<u8>, SigError>(b@),
            Err(e) => decoded_exact(s@, n as nat) == Err::<Seq<u8>, SigError>(e),
        },
{
    match base64_decode(s) {
        Some(b) => if b.len() == n {
            Ok(b)
        } else {
            Err(SigError::Length)
        },
        None => Err(SigError::Decode),
    }
}

/// A 64-byte signature from its base64 text.
pub fn get_sig(s: &str) -> (r: Result<Vec<u8>, SigError>)
    ensures
        match r {
            Ok(b) => decoded_exact(s@, 64) == Ok::<Seq<u8>, SigError>(b@),
            Err(e) => decoded_exact(s@, 64) == Err::<Seq<u8>, SigError>(e),
        },
{
    decode_exact(s, 64)
}

/// A 32-byte public key from its base64 text.
pub fn get_pub_key_from_str(s: &str) -> (r: Result<Vec<u8>, SigError>)
    ensures
        match r {
            Ok(b) => decoded_exact(s@, 32) == Ok::<Seq<u8>, SigError>(b@),
            Err(e) => decoded_exact(s@, 32) == Err::<Seq<u8>, SigError>(e),
        },
{
    decode_exact(s, 32)
}

/// The public key of the configured seed, if signing is on.
pub fn get_pub_key(seed_b64: &str) -> (r: Option<Vec<u8>>)
    ensures
        match seed_of(seed_b64@) {
            Some(seed) => r matches Some(pk) && pk@ == ed25519_public_key(seed),
            None => r is None,
        },
{
    match get_seed(seed_b64) {
        Some(seed) => ed25519_public(seed.as_slice()),
        None => None,
    }
}

/// The base64 text of the configured public key, or the empty text where
/// signing is off.
pub fn get_pub_key_str(seed_b64: &str) -> (r: String)
    ensures
        r@ == match seed_of(seed_b64@) {
            Some(seed) => base64_of(ed25519_public_key(seed)),
            None => Seq::<char>::empty(),
        },
{
    match get_pub_key(seed_b64) {
        Some(pk) => base64_encode(pk.as_slice()),
        None => String::new(),
    }
}

/// Signs the hex hash `msg` with the configured seed: the base64 signature,
/// checked against the seed's public key, or the empty text where signing is
/// off.
pub fn sign(msg: &str, seed_b64: &str) -> (r: Result<String, SigError>)
    ensures
        r matches Ok(s) && s@ == match seed_of(seed_b64@) {
            None => Seq::<char>::empty(),
            Some(seed) => base64_of(ed25519_signature(seed, encode_utf8(msg@))),
        },
{
    let seed = match get_seed(seed_b64) {
        None => {
            return Ok(String::new());
        },
        Some(seed) => seed,
    };
    let bytes = msg.as_bytes();
    let sig = match ed25519_sign(seed.as_slice(), bytes) {
        Some(s) => s,
        None => {
            return Err(SigError::Mismatch);
        },
    };
    let pk = match ed25519_public(seed.as_slice()) {
        Some(pk) => pk,
        None => {
            return Err(SigError::Mismatch);
        },
    };
    let sig_str = base64_encode(sig.as_slice());
    let decoded = get_sig(sig_str.as_str())?;
    if ed25519_verify(pk.as_slice(), bytes, decoded.as_slice()) {
        Ok(sig_str)
    } else {
        Err(SigError::Mismatch)
    }
}

/// The outcome of checking an entry's signature under `pk`.
pub open spec fn sig_check<V: Verifiable>(pk: Seq<u8>, v: V) -> Result<(), SigError> {
    match decoded_exact(v.sig_view(), 64) {
        Ok(sig) => if ed25519_accepts(pk, encode_utf8(v.hash_view()), sig) {
            Ok(())
        } else {
            Err(SigError::Mismatch)
        },
        Err(e) => Err(e),
    }
}

/// Checks the entry's signature of its hash under the public key `pk`.
pub fn verify_sig_with_pk<V: Verifiable>(pk: &[u8], verifiable: &V) -> (r: Result<(), SigError>)
    ensures
        r == sig_check(pk@, *verifiable),
{
    let sig = get_sig(verifiable.sig())?;
    if ed25519_verify(pk, verifiable.hash().as_bytes(), sig.as_slice()) {
        Ok(())
    } else {
        Err(SigError::Mismatch)
    }
}

/// Checks every entry's signature under `pk`, stopping at the first failure.
pub fn verify_sigs_with_pk<V: Verifiable>(pk: &[u8], verifiables: &[V]) -> (r: Result<(), SigError>)
    ensures
        r is Ok <==> forall|i: int|
            0 <= i < verifiables@.len() ==> #[trigger] sig_check(pk@, verifiables@[i]) is Ok,
        r matches Err(e) ==> exists|i: int|
            0 <= i < verifiables@.len() && #[trigger] sig_check(pk@, verifiables@[i]) == Err::<
                (),
                SigError,
            >(e) && forall|j: int| 0 <= j < i ==> sig_check(pk@, #[trigger] verifiables@[j]) is Ok,
{
    let mut i: usize = 0;
    while i < verifiables.len()
        invariant
            i <= verifiables@.len(),
            forall|j: int| 0 <= j < i ==> #[trigger] sig_check(pk@, verifiables@[j]) is Ok,
        decreases verifiables.len() - i,
    {
        let r = verify_sig_with_pk(pk, &verifiables[i]);
        if r.is_err() {
            proof {
                assert(sig_check(pk@, verifiables@[i as int]) == r);
            }
            return r;
        }
        i = i + 1;
    }
    Ok(())
}

/// Checks every entry's signature under the configured key; nothing is
/// checked where signing is off.
pub fn verify_sig<V: Verifiable>(seed_b64: &str, verifiables: &[V]) -> (r: Result<(), SigError>)
    ensures
        r is Ok <==> match seed_of(seed_b64@) {
            None => true,
            Some(seed) => forall|i: int|
                0 <= i < verifiables@.len() ==> #[trigger] sig_check(
                    ed25519_public_key(seed),
                    verifiables@[i],
                ) is Ok,
        },
{
    match get_pub_key(seed_b64) {
        Some(pk) => verify_sigs_with_pk(pk.as_slice(), verifiables),
        None => Ok(()),
    }
}

/// Seals a new record's or snapshot's canonical message: its hash, the
/// SHA-256 of the message, and the signature of that hash under the
/// configured seed (empty where signing is off).
pub fn seal(msg_json: &str, seed_b64: &str) -> (r: (String, String))
    ensures
        r.0@ == sha256_hex(msg_json@),
        r.0@.len() == 64,
        forall|i: int| 0 <= i < r.0@.len() ==> is_lower_hex(#[trigger] r.0@[i]),
        r.1@ == match seed_of(seed_b64@) {
            None => Seq::<char>::empty(),
            Some(seed) => base64_of(ed25519_signature(seed, encode_utf8(r.0@))),
        },
{
    let hash = sha256(msg_json);
    let sig = match sign(hash.as_str(), seed_b64) {
        Ok(s) => s,
        Err(_) => String::new(),
    };
    (hash, sig)
}

} // verus!
