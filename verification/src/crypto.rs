//! The boundary to the cryptographic library. Key derivation, random key
//! generation and signing are performed by `sp_core`; everything here hands
//! plain values (seed strings, public key bytes, signature bytes) to the
//! verified code. Derivation from a secret URI is a deterministic function
//! of the string, which the uninterpreted functions below give a name to.

use vstd::prelude::*;

use sp_core::Pair;

use crate::types::SchemeTag;

verus! {

/// The public key that sr25519 derivation yields for a secret URI, or
/// `None` when the string is not a valid seed phrase, hex seed or
/// derivation path.
pub uninterp spec fn sr25519_public_of(suri: Seq<char>) -> Option<Seq<u8>>;

/// The public key that ed25519 derivation yields for a secret URI, or
/// `None` when the string is rejected.
pub uninterp spec fn ed25519_public_of(suri: Seq<char>) -> Option<Seq<u8>>;

/// The public key that ecdsa derivation yields for a secret URI, or
/// `None` when the string is rejected.
pub uninterp spec fn ecdsa_public_of(suri: Seq<char>) -> Option<Seq<u8>>;

/// The public key that derivation under the given scheme yields for a
/// secret URI.
pub open spec fn derived_public_of(scheme: SchemeTag, suri: Seq<char>) -> Option<Seq<u8>> {
    match scheme {
        SchemeTag::Sr25519 => sr25519_public_of(suri),
        SchemeTag::Ed25519 => ed25519_public_of(suri),
        SchemeTag::Ecdsa => ecdsa_public_of(suri),
    }
}

/// The length in bytes of a signature under the given scheme.
pub open spec fn spec_sig_len(scheme: SchemeTag) -> nat {
    match scheme {
        SchemeTag::Sr25519 => 64,
        SchemeTag::Ed25519 => 64,
        SchemeTag::Ecdsa => 65,
    }
}

/// Relies on `sp_core::sr25519::Pair::from_string`: deriving a pair from a
/// secret URI is deterministic in the string; it fails exactly on strings
/// that are not a valid phrase, hex seed or derivation path.
#[verifier::external_body]
pub(crate) fn sr25519_derive_public(suri: &str) -> (r: Option<Vec<u8>>)
    ensures
        r is Some <==> sr25519_public_of(suri@) is Some,
        r is Some ==> r.unwrap()@ == sr25519_public_of(suri@).unwrap(),
{
    sp_core::sr25519::Pair::from_string(suri, None).ok().map(|p| p.public().0.to_vec())
}

/// Relies on `sp_core::ed25519::Pair::from_string`; see [`sr25519_derive_public`].
#[verifier::external_body]
pub(crate) fn ed25519_derive_public(suri: &str) -> (r: Option<Vec<u8>>)
    ensures
        r is Some <==> ed25519_public_of(suri@) is Some,
        r is Some ==> r.unwrap()@ == ed25519_public_of(suri@).unwrap(),
{
    sp_core::ed25519::Pair::from_string(suri, None).ok().map(|p| p.public().0.to_vec())
}

/// Relies on `sp_core::ecdsa::Pair::from_string`; see [`sr25519_derive_public`].
#[verifier::external_body]
pub(crate) fn ecdsa_derive_public(suri: &str) -> (r: Option<Vec<u8>>)
    ensures
        r is Some <==> ecdsa_public_of(suri@) is Some,
        r is Some ==> r.unwrap()@ == ecdsa_public_of(suri@).unwrap(),
{
    sp_core::ecdsa::Pair::from_string(suri, None).ok().map(|p| p.public().0.to_vec())
}

/// Relies on `sp_core::sr25519::Pair::generate_with_phrase`: the returned
/// seed phrase re-derives the returned pair, so deriving from the phrase
/// yields the returned public key. Nothing else is promised of the random
/// outcome.
#[verifier::external_body]
pub(crate) fn sr25519_generate() -> (r: (String, Vec<u8>))
    ensures
        sr25519_public_of(r.0@) == Some(r.1@),
{
    let (pair, phrase, _) = sp_core::sr25519::Pair::generate_with_phrase(None);
    (phrase, pair.public().0.to_vec())
}

/// Relies on `sp_core::ed25519::Pair::generate_with_phrase`; see
/// [`sr25519_generate`].
#[verifier::external_body]
pub(crate) fn ed25519_generate() -> (r: (String, Vec<u8>))
    ensures
        ed25519_public_of(r.0@) == Some(r.1@),
{
    let (pair, phrase, _) = sp_core::ed25519::Pair::generate_with_phrase(None);
    (phrase, pair.public().0.to_vec())
}

/// Relies on `sp_core::ecdsa::Pair::generate_with_phrase`; see
/// [`sr25519_generate`].
#[verifier::external_body]
pub(crate) fn ecdsa_generate() -> (r: (String, Vec<u8>))
    ensures
        ecdsa_public_of(r.0@) == Some(r.1@),
{
    let (pair, phrase, _) = sp_core::ecdsa::Pair::generate_with_phrase(None);
    (phrase, pair.public().0.to_vec())
}

/// Relies on `sp_core::sr25519::Pair::{from_string, sign}`: an sr25519
/// signature is 64 bytes. The signature bytes themselves are randomized
/// and nothing is promised of them.
#[verifier::external_body]
pub(crate) fn sr25519_sign(suri: &str, msg: &[u8]) -> (r: Vec<u8>)
    requires
        sr25519_public_of(suri@) is Some,
    ensures
        r@.len() == 64,
{
    let pair = sp_core::sr25519::Pair::from_string(suri, None)
        .expect("the seed string was checked when the key was stored");
    pair.sign(msg).0.to_vec()
}

/// Relies on `sp_core::ed25519::Pair::{from_string, sign}`: an ed25519
/// signature is 64 bytes.
#[verifier::external_body]
pub(crate) fn ed25519_sign(suri: &str, msg: &[u8]) -> (r: Vec<u8>)
    requires
        ed25519_public_of(suri@) is Some,
    ensures
        r@.len() == 64,
{
    let pair = sp_core::ed25519::Pair::from_string(suri, None)
        .expect("the seed string was checked when the key was stored");
    pair.sign(msg).0.to_vec()
}

/// Relies on `sp_core::ecdsa::Pair::{from_string, sign}`: an ecdsa
/// signature is 65 bytes (64 bytes plus the recovery byte).
#[verifier::external_body]
pub(crate) fn ecdsa_sign(suri: &str, msg: &[u8]) -> (r: Vec<u8>)
    requires
        ecdsa_public_of(suri@) is Some,
    ensures
        r@.len() == 65,
{
    let pair = sp_core::ecdsa::Pair::from_string(suri, None)
        .expect("the seed string was checked when the key was stored");
    pair.sign(msg).0.to_vec()
}

/// Relies on `String::from_utf8`: it succeeds exactly on valid UTF-8, and
/// the resulting string holds the characters those bytes encode.
#[verifier::external_body]
pub(crate) fn string_from_utf8(v: Vec<u8>) -> (r: Option<String>)
    ensures
        r is Some <==> vstd::utf8::valid_utf8(v@),
        r is Some ==> r.unwrap()@ == vstd::utf8::decode_utf8(v@),
{
    String::from_utf8(v).ok()
}

/// Derives the public key for a secret URI under the given scheme.
pub(crate) fn derive_public(scheme: SchemeTag, suri: &str) -> (r: Option<Vec<u8>>)
    ensures
        r is Some <==> derived_public_of(scheme, suri@) is Some,
        r is Some ==> r.unwrap()@ == derived_public_of(scheme, suri@).unwrap(),
{
    match scheme {
        SchemeTag::Sr25519 => sr25519_derive_public(suri),
        SchemeTag::Ed25519 => ed25519_derive_public(suri),
        SchemeTag::Ecdsa => ecdsa_derive_public(suri),
    }
}

/// Generates a fresh random pair under the given scheme; returns the seed
/// phrase and the public key it derives to.
pub(crate) fn generate_pair(scheme: SchemeTag) -> (r: (String, Vec<u8>))
    ensures
        derived_public_of(scheme, r.0@) == Some(r.1@),
{
    match scheme {
        SchemeTag::Sr25519 => sr25519_generate(),
        SchemeTag::Ed25519 => ed25519_generate(),
        SchemeTag::Ecdsa => ecdsa_generate(),
    }
}

/// Signs a message with the pair that the seed string derives under the
/// given scheme.
pub(crate) fn sign_message(scheme: SchemeTag, suri: &str, msg: &[u8]) -> (r: Vec<u8>)
    requires
        derived_public_of(scheme, suri@) is Some,
    ensures
        r@.len() == spec_sig_len(scheme),
{
    match scheme {
        SchemeTag::Sr25519 => sr25519_sign(suri, msg),
        SchemeTag::Ed25519 => ed25519_sign(suri, msg),
        SchemeTag::Ecdsa => ecdsa_sign(suri, msg),
    }
}

} // verus!
