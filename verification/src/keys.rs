use vstd::prelude::*;

use crate::errors::Error;
use rsa::pkcs1::DecodeRsaPrivateKey;
use rsa::pkcs8::EncodePublicKey;

verus! {

/// Private key material as it is stored on disk and in the store:
/// PKCS#1 DER for RSA keys, SEC1 DER for elliptic-curve keys.
#[derive(Clone, Debug, PartialEq, Eq)]
pub enum PrivateKey {
    Rsa(Vec<u8>),
    Ec(Vec<u8>),
}

/// The public half of a key: SPKI DER for RSA, the embedded public point
/// bytes for elliptic-curve keys.
#[derive(Clone, Debug, PartialEq, Eq)]
pub enum PublicKey {
    Rsa(Vec<u8>),
    Ec(Vec<u8>),
}

/// The SPKI encoding of the public half of an RSA private key given by its
/// PKCS#1 DER encoding.
pub uninterp spec fn rsa_public_der_of(private_der: Seq<u8>) -> Seq<u8>;

/// Whether the bytes decode as an RSA private key whose public half can be
/// re-encoded: the condition under which derivation succeeds, a function of
/// the bytes alone.
pub uninterp spec fn rsa_public_derivable(private_der: Seq<u8>) -> bool;

/// The public-key bytes embedded in a SEC1-encoded elliptic-curve private
/// key.
pub uninterp spec fn ec_public_of(private_sec1_der: Seq<u8>) -> Seq<u8>;

/// Whether the bytes decode as a SEC1 structure that embeds its public
/// key: the condition under which extraction succeeds, a function of the
/// bytes alone.
pub uninterp spec fn ec_public_extractable(private_sec1_der: Seq<u8>) -> bool;

/// The PEM block text that wraps `der` under the tag `label`.
pub uninterp spec fn pem_text_of(label: Seq<char>, der: Seq<u8>) -> Seq<u8>;

/// Whether the public half of `key` can be derived from its material.
pub open spec fn key_derivable(key: PrivateKey) -> bool {
    match key {
        PrivateKey::Rsa(d) => rsa_public_derivable(d@),
        PrivateKey::Ec(d) => ec_public_extractable(d@),
    }
}

/// The raw encoded material of a private key, regardless of family.
pub open spec fn key_der(key: PrivateKey) -> Seq<u8> {
    match key {
        PrivateKey::Rsa(d) => d@,
        PrivateKey::Ec(d) => d@,
    }
}

/// The raw encoded material of a public key, regardless of family.
pub open spec fn public_payload(key: PublicKey) -> Seq<u8> {
    match key {
        PublicKey::Rsa(d) => d@,
        PublicKey::Ec(d) => d@,
    }
}

/// The public key that derivation pairs with `key`, family preserved.
pub open spec fn is_derived_public(key: PrivateKey, p: PublicKey) -> bool {
    match key {
        PrivateKey::Rsa(d) => p matches PublicKey::Rsa(q) && q@ == rsa_public_der_of(d@),
        PrivateKey::Ec(d) => p matches PublicKey::Ec(q) && q@ == ec_public_of(d@),
    }
}

/// Relies on rsa::RsaPrivateKey::from_pkcs1_der (parse PKCS#1 DER),
/// rsa::RsaPrivateKey::to_public_key, and
/// pkcs8::EncodePublicKey::to_public_key_der (SPKI encoding): together they
/// compute the SPKI encoding of the public half.  Whether the chain
/// succeeds, and what it returns, are functions of the DER bytes alone.
#[verifier::external_body]
pub(crate) fn rsa_public_spki_der(private_der: &Vec<u8>) -> (r: Result<Vec<u8>, Error>)
    ensures
        (r is Ok) <==> rsa_public_derivable(private_der@),
        r matches Ok(p) ==> p@ == rsa_public_der_of(private_der@),
        r matches Err(e) ==> e == Error::DerivePublicKey,
{
    match rsa::RsaPrivateKey::from_pkcs1_der(private_der.as_slice()) {
        Ok(key) => match key.to_public_key().to_public_key_der() {
            Ok(doc) => Ok(doc.as_bytes().to_vec()),
            Err(_) => Err(Error::DerivePublicKey),
        },
        Err(_) => Err(Error::DerivePublicKey),
    }
}

/// Relies on sec1::EcPrivateKey::try_from: the parsed SEC1 structure's
/// optional `public_key` field holds the public-key bytes embedded in the
/// DER.  Whether decoding succeeds with an embedded key, and what the bytes
/// are, are functions of the DER bytes alone.
#[verifier::external_body]
pub(crate) fn ec_embedded_public(private_sec1_der: &Vec<u8>) -> (r: Result<Vec<u8>, Error>)
    ensures
        (r is Ok) <==> ec_public_extractable(private_sec1_der@),
        r matches Ok(p) ==> p@ == ec_public_of(private_sec1_der@),
        r matches Err(e) ==> e == Error::DerivePublicKey,
{
    match sec1::EcPrivateKey::try_from(private_sec1_der.as_slice()) {
        Ok(key) => match key.public_key {
            Some(p) => Ok(p.to_vec()),
            None => Err(Error::DerivePublicKey),
        },
        Err(_) => Err(Error::DerivePublicKey),
    }
}

/// Relies on pem::Pem::new and pem::encode: the PEM block text for `der`
/// under `label`, a function of the tag and contents alone.  For the two
/// tags this library writes, the text is one whole PEM block: it opens
/// with the begin marker, and the first end-marker line closes it at its
/// last byte (the tag carries no dash and the base64 body no marker, so no
/// earlier end marker can occur).
#[verifier::external_body]
pub(crate) fn pem_encode_block(label: &str, der: &Vec<u8>) -> (r: Vec<u8>)
    requires
        label@ == "RSA PRIVATE KEY"@ || label@ == "EC PRIVATE KEY"@,
    ensures
        r@ == pem_text_of(label@, der@),
        crate::pem_utils::spec_block_end_at(r@, 0) == Some(r@.len() as int),
{
    pem::encode(&pem::Pem::new(label, der.as_slice())).into_bytes()
}

/// Derives the public half of `key`: it succeeds exactly when the key's
/// material decodes, and then returns the derived public key of the same
/// family.
pub fn derive_public_key(key: &PrivateKey) -> (r: Result<PublicKey, Error>)
    ensures
        (r is Ok) <==> key_derivable(*key),
        r matches Ok(p) ==> is_derived_public(*key, p),
        r matches Err(e) ==> e == Error::DerivePublicKey,
{
    match key {
        PrivateKey::Rsa(der) => match rsa_public_spki_der(der) {
            Ok(p) => Ok(PublicKey::Rsa(p)),
            Err(e) => Err(e),
        },
        PrivateKey::Ec(der) => match ec_embedded_public(der) {
            Ok(p) => Ok(PublicKey::Ec(p)),
            Err(e) => Err(e),
        },
    }
}

/// The PEM block for a private key: a PKCS#1 "RSA PRIVATE KEY" block for RSA
/// material, an "EC PRIVATE KEY" block for elliptic-curve material.
pub open spec fn spec_key_pem(key: PrivateKey) -> Seq<u8> {
    match key {
        PrivateKey::Rsa(d) => pem_text_of("RSA PRIVATE KEY"@, d@),
        PrivateKey::Ec(d) => pem_text_of("EC PRIVATE KEY"@, d@),
    }
}

/// Renders a private key as the PEM block that commits write out; the
/// rendering is one whole PEM block.
pub fn key_pem(key: &PrivateKey) -> (r: Vec<u8>)
    ensures
        r@ == spec_key_pem(*key),
        crate::pem_utils::spec_block_end_at(r@, 0) == Some(r@.len() as int),
{
    match key {
        PrivateKey::Rsa(der) => pem_encode_block("RSA PRIVATE KEY", der),
        PrivateKey::Ec(der) => pem_encode_block("EC PRIVATE KEY", der),
    }
}

} // verus!
