//! The seam to the cryptographic collaborators.
//!
//! The mint consumes a threshold-signature library and a digest; both are
//! trusted at this seam and carried everywhere else as plain bytes: key
//! sets, public keys, secret key shares, signatures and signature shares
//! all travel in their serialized forms, so that the protocol logic above
//! this module is ordinary verified code over byte vectors.

use vstd::prelude::*;

verus! {

/// The 32-byte SHA3-256 digest of a byte string.
pub uninterp spec fn sha3_of(bytes: Seq<u8>) -> Seq<u8>;

/// Relies on tiny_keccak's SHA3-256: a 32-byte digest that is a function
/// of the input bytes alone.
#[verifier::external_body]
pub(crate) fn sha3_256(bytes: &Vec<u8>) -> (r: Vec<u8>)
    ensures
        r@ == sha3_of(bytes@),
        r@.len() == 32,
{
    let mut sha3 = tiny_keccak::Sha3::v256();
    tiny_keccak::Hasher::update(&mut sha3, bytes.as_slice());
    let mut output = [0u8; 32];
    tiny_keccak::Hasher::finalize(sha3, &mut output);
    output.to_vec()
}

/// The serialized child key set derived from a serialized master key set
/// and a derivation index, or nothing where the bytes parse to no key set.
pub uninterp spec fn derived_pks_of(pks: Seq<u8>, index: Seq<u8>) -> Option<Seq<u8>>;

/// Relies on blsttc's `PublicKeySet::{from_bytes, derive_child, to_bytes}`:
/// child derivation is a function of the serialized key set and the index.
#[verifier::external_body]
pub(crate) fn derive_child_pks(pks: &Vec<u8>, index: &Vec<u8>) -> (r: Option<Vec<u8>>)
    ensures
        (match r {
            Some(v) => Some(v@),
            None => None::<Seq<u8>>,
        }) == derived_pks_of(pks@, index@),
{
    match blsttc::PublicKeySet::from_bytes(pks.clone()) {
        Ok(set) => Some(set.derive_child(index.as_slice()).to_bytes()),
        Err(_) => None,
    }
}

/// The serialized master public key of a serialized key set, or nothing
/// where the bytes parse to no key set.
pub uninterp spec fn pks_public_key_of(pks: Seq<u8>) -> Option<Seq<u8>>;

/// Relies on blsttc's `PublicKeySet::{from_bytes, public_key}` and
/// `PublicKey::to_bytes`: a 48-byte key determined by the key set bytes.
/// Bytes shorter than one 48-byte coefficient parse to an empty key set,
/// whose master key does not exist: those give nothing.
#[verifier::external_body]
pub(crate) fn pks_public_key(pks: &Vec<u8>) -> (r: Option<Vec<u8>>)
    ensures
        (match r {
            Some(v) => Some(v@),
            None => None::<Seq<u8>>,
        }) == pks_public_key_of(pks@),
        r matches Some(v) ==> v@.len() == 48,
{
    if pks.len() < 48 {
        return None;
    }
    match blsttc::PublicKeySet::from_bytes(pks.clone()) {
        Ok(set) => Some(set.public_key().to_bytes().to_vec()),
        Err(_) => None,
    }
}

/// The serialized signature share produced by a serialized secret key share
/// over a message, or nothing where the bytes parse to no key share.
pub uninterp spec fn sig_share_of(sk: Seq<u8>, msg: Seq<u8>) -> Option<Seq<u8>>;

/// Relies on blsttc's `SecretKeyShare::{from_bytes, sign, to_bytes}`: BLS
/// signing is deterministic in the key share and the message.
#[verifier::external_body]
pub(crate) fn sign_share(sk: &Vec<u8>, msg: &Vec<u8>) -> (r: Option<Vec<u8>>)
    ensures
        (match r {
            Some(v) => Some(v@),
            None => None::<Seq<u8>>,
        }) == sig_share_of(sk@, msg@),
{
    let arr: [u8; 32] = match sk.as_slice().try_into() {
        Ok(a) => a,
        Err(_) => return None,
    };
    match blsttc::SecretKeyShare::from_bytes(arr) {
        Ok(share) => Some(share.sign(msg.as_slice()).to_bytes().to_vec()),
        Err(_) => None,
    }
}

/// The serialized child key share derived from a serialized secret key
/// share and a derivation index, or nothing where the bytes parse to none.
pub uninterp spec fn derived_sk_of(sk: Seq<u8>, index: Seq<u8>) -> Option<Seq<u8>>;

/// Relies on blsttc's `SecretKeyShare::{from_bytes, derive_child,
/// to_bytes}`: child derivation is a function of the share and the index.
#[verifier::external_body]
pub(crate) fn derive_child_sk(sk: &Vec<u8>, index: &Vec<u8>) -> (r: Option<Vec<u8>>)
    ensures
        (match r {
            Some(v) => Some(v@),
            None => None::<Seq<u8>>,
        }) == derived_sk_of(sk@, index@),
{
    let arr: [u8; 32] = match sk.as_slice().try_into() {
        Ok(a) => a,
        Err(_) => return None,
    };
    match blsttc::SecretKeyShare::from_bytes(arr) {
        Ok(share) => Some(share.derive_child(index.as_slice()).to_bytes().to_vec()),
        Err(_) => None,
    }
}

/// Whether a serialized signature verifies over a message under a
/// serialized public key; false where either fails to parse.
pub uninterp spec fn verifies(pk: Seq<u8>, sig: Seq<u8>, msg: Seq<u8>) -> bool;

/// Relies on blsttc's `PublicKey::verify` with `{PublicKey,
/// Signature}::from_bytes`: verification is a function of key, signature
/// and message bytes.
#[verifier::external_body]
pub(crate) fn verify_sig(pk: &Vec<u8>, sig: &Vec<u8>, msg: &Vec<u8>) -> (r: bool)
    ensures
        r == verifies(pk@, sig@, msg@),
{
    let pk_arr: [u8; 48] = match pk.as_slice().try_into() {
        Ok(a) => a,
        Err(_) => return false,
    };
    let sig_arr: [u8; 96] = match sig.as_slice().try_into() {
        Ok(a) => a,
        Err(_) => return false,
    };
    match (blsttc::PublicKey::from_bytes(pk_arr), blsttc::Signature::from_bytes(sig_arr)) {
        (Ok(key), Ok(sig)) => key.verify(&sig, msg.as_slice()),
        _ => false,
    }
}

/// The serialized signature combined from indexed serialized signature
/// shares under a serialized key set, or nothing where bytes fail to parse,
/// an index repeats, or too few shares are given.
pub uninterp spec fn combined_sig_of(pks: Seq<u8>, shares: Seq<(u64, Seq<u8>)>) -> Option<Seq<u8>>;

/// Relies on blsttc's `PublicKeySet::combine_signatures` with
/// `SignatureShare::from_bytes`: combination is a function of the key set
/// and the indexed shares.  Bytes shorter than one 48-byte coefficient
/// parse to an empty key set with no degree: those give nothing.
#[verifier::external_body]
pub(crate) fn combine_signature_shares(pks: &Vec<u8>, shares: &Vec<(u64, Vec<u8>)>) -> (r: Option<
    Vec<u8>,
>)
    ensures
        (match r {
            Some(v) => Some(v@),
            None => None::<Seq<u8>>,
        }) == combined_sig_of(pks@, shares@.map_values(|p: (u64, Vec<u8>)| (p.0, p.1@))),
{
    if pks.len() < 48 {
        return None;
    }
    let set = blsttc::PublicKeySet::from_bytes(pks.clone()).ok()?;
    let mut conv: Vec<(u64, blsttc::SignatureShare)> = Vec::new();
    for (i, b) in shares.iter() {
        let arr: [u8; 96] = b.as_slice().try_into().ok()?;
        conv.push((*i, blsttc::SignatureShare::from_bytes(arr).ok()?));
    }
    let sig = set.combine_signatures(conv.iter().map(|(i, s)| (*i, s))).ok()?;
    Some(sig.to_bytes().to_vec())
}

} // verus!
