//! Keys and ECDSA signatures over secp256k1, held as their byte encodings:
//! a public key as its 33-byte compressed SEC1 form, a signature as the
//! 64-byte scalar pair (r, s), a private key as its 32-byte secret scalar.
use vstd::prelude::*;
use ecdsa::signature::{Signer, Verifier};
use ecdsa::{SigningKey, VerifyingKey};
use k256::Secp256k1;

verus! {

/// Whether ECDSA over secp256k1 accepts signature bytes `sig` on message `msg`
/// under the SEC1-encoded public key `pk`.
pub uninterp spec fn ecdsa_accepts(sig: Seq<u8>, msg: Seq<u8>, pk: Seq<u8>) -> bool;

/// The deterministic (RFC 6979) signature on `msg` by the secret scalar `sk`.
pub uninterp spec fn ecdsa_signature_of(msg: Seq<u8>, sk: Seq<u8>) -> Seq<u8>;

/// The compressed SEC1 encoding of the public key of the secret scalar `sk`.
pub uninterp spec fn public_key_of(sk: Seq<u8>) -> Seq<u8>;

/// Whether `sk` encodes a valid secret scalar (non-zero, below the group order).
pub uninterp spec fn is_signing_key(sk: Seq<u8>) -> bool;

/// Relies on `ecdsa::SigningKey::random` fed by `rand::thread_rng`, and on
/// `SigningKey::to_bytes`: the encoding of a fresh non-zero scalar, which
/// `SigningKey::from_slice` takes back.
#[verifier::external_body]
fn random_secret() -> (r: Vec<u8>)
    ensures
        is_signing_key(r@),
{
    SigningKey::<Secp256k1>::random(&mut rand::thread_rng()).to_bytes().to_vec()
}

/// Relies on `ecdsa::SigningKey::from_slice`: whether the bytes encode a
/// valid secret scalar.
#[verifier::external_body]
fn check_secret(b: &[u8]) -> (r: bool)
    ensures
        r == is_signing_key(b@),
{
    SigningKey::<Secp256k1>::from_slice(b).is_ok()
}

/// Relies on `SigningKey::verifying_key` and
/// `VerifyingKey::to_encoded_point(true)`: the compressed public key.
#[verifier::external_body]
fn derive_public(sk: &[u8]) -> (r: Vec<u8>)
    requires
        is_signing_key(sk@),
    ensures
        r@ == public_key_of(sk@),
{
    match SigningKey::<Secp256k1>::from_slice(sk) {
        Ok(k) => k.verifying_key().to_encoded_point(true).as_bytes().to_vec(),
        Err(_) => Vec::new(),
    }
}

/// Relies on `Signer::sign` of `SigningKey` (deterministic nonce, and k256
/// normalises `s` to the low half, which its verifier demands) and on
/// `Signature::to_bytes`: a signature that the key's public key accepts.
#[verifier::external_body]
fn ecdsa_sign(msg: &[u8], sk: &[u8]) -> (r: Vec<u8>)
    requires
        is_signing_key(sk@),
    ensures
        r@ == ecdsa_signature_of(msg@, sk@),
        ecdsa_accepts(r@, msg@, public_key_of(sk@)),
{
    match SigningKey::<Secp256k1>::from_slice(sk) {
        Ok(k) => {
            let s: ecdsa::Signature<Secp256k1> = k.sign(msg);
            s.to_bytes().to_vec()
        },
        Err(_) => Vec::new(),
    }
}

/// Relies on `VerifyingKey::from_sec1_bytes`, `Signature::from_slice` and
/// `Verifier::verify`: malformed keys or signatures are rejected.
#[verifier::external_body]
fn ecdsa_verify(sig: &[u8], msg: &[u8], pk: &[u8]) -> (r: bool)
    ensures
        r == ecdsa_accepts(sig@, msg@, pk@),
{
    match (VerifyingKey::<Secp256k1>::from_sec1_bytes(pk), ecdsa::Signature::<Secp256k1>::from_slice(sig)) {
        (Ok(k), Ok(s)) => k.verify(msg, &s).is_ok(),
        _ => false,
    }
}

/// An ECDSA signature, as the 64 bytes of its scalar pair.
#[derive(Debug, PartialEq, Eq)]
pub struct Signature(pub Vec<u8>);

/// A public key, in compressed SEC1 form.
#[derive(Debug, PartialEq, Eq)]
pub struct PublicKey(pub Vec<u8>);

/// A private key: a valid secret scalar. It never enters ledger data.
#[derive(Debug)]
pub struct PrivateKey(Vec<u8>);

impl View for Signature {
    type V = Seq<u8>;

    open spec fn view(&self) -> Seq<u8> {
        self.0@
    }
}

impl View for PublicKey {
    type V = Seq<u8>;

    open spec fn view(&self) -> Seq<u8> {
        self.0@
    }
}

impl View for PrivateKey {
    type V = Seq<u8>;

    closed spec fn view(&self) -> Seq<u8> {
        self.0@
    }
}

/// Copies a byte vector.
fn copy_bytes(v: &Vec<u8>) -> (r: Vec<u8>)
    ensures
        r@ == v@,
{
    let mut r: Vec<u8> = Vec::new();
    let mut i: usize = 0;
    while i < v.len()
        invariant
            i <= v@.len(),
            r@ == v@.subrange(0, i as int),
        decreases v@.len() - i,
    {
        r.push(v[i]);
        i = i + 1;
        assert(r@ =~= v@.subrange(0, i as int));
    }
    assert(v@.subrange(0, v@.len() as int) =~= v@);
    r
}

impl Clone for Signature {
    fn clone(&self) -> (r: Self)
        ensures
            r@ == self@,
    {
        Signature(copy_bytes(&self.0))
    }
}

impl Clone for PublicKey {
    fn clone(&self) -> (r: Self)
        ensures
            r@ == self@,
    {
        PublicKey(copy_bytes(&self.0))
    }
}

impl Clone for PrivateKey {
    fn clone(&self) -> (r: Self)
        ensures
            r@ == self@,
    {
        proof {
            use_type_invariant(self);
        }
        PrivateKey(copy_bytes(&self.0))
    }
}

impl Signature {
    /// Whether this signature, on the little-endian bytes of `h`, is accepted
    /// under the public key `pk`.
    pub open spec fn accepts(sig: Seq<u8>, h: crate::hashing::Hash, pk: Seq<u8>) -> bool {
        ecdsa_accepts(sig, h.le_bytes(), pk)
    }

    /// Signs the 32 little-endian bytes of an output's hash.
    pub fn sign_output(output_hash: &crate::hashing::Hash, private_key: &PrivateKey) -> (r: Signature)
        ensures
            r@ == ecdsa_signature_of(output_hash.le_bytes(), private_key@),
            Signature::accepts(r@, *output_hash, public_key_of(private_key@)),
    {
        proof {
            use_type_invariant(private_key);
        }
        let msg = output_hash.as_bytes();
        Signature(ecdsa_sign(msg.as_slice(), private_key.0.as_slice()))
    }

    /// Checks this signature on an output's hash against a public key.
    pub fn verify(&self, output_hash: &crate::hashing::Hash, public_key: &PublicKey) -> (r: bool)
        ensures
            r == Signature::accepts(self@, *output_hash, public_key@),
    {
        let msg = output_hash.as_bytes();
        ecdsa_verify(self.0.as_slice(), msg.as_slice(), public_key.0.as_slice())
    }
}

impl PrivateKey {
    #[verifier::type_invariant]
    spec fn valid(self) -> bool {
        is_signing_key(self.0@)
    }

    /// A fresh random key.
    pub fn new_key() -> (r: PrivateKey) {
        PrivateKey(random_secret())
    }

    /// The public key that verifies this key's signatures.
    pub fn public_key(&self) -> (r: PublicKey)
        ensures
            r@ == public_key_of(self@),
    {
        proof {
            use_type_invariant(self);
        }
        PublicKey(derive_public(self.0.as_slice()))
    }

    /// The stable 32-byte encoding of the secret scalar, for safekeeping.
    pub fn to_bytes(&self) -> (r: Vec<u8>)
        ensures
            r@ == self@,
    {
        copy_bytes(&self.0)
    }

    /// Reads a key back from its encoding; `None` unless it is a valid secret scalar.
    pub fn from_bytes(b: &Vec<u8>) -> (r: Option<PrivateKey>)
        ensures
            r is Some <==> is_signing_key(b@),
            r is Some ==> r->0@ == b@,
    {
        if check_secret(b.as_slice()) {
            Some(PrivateKey(copy_bytes(b)))
        } else {
            None
        }
    }
}

} // verus!
