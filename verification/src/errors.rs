use vstd::prelude::*;

verus! {

/// Every failure the engine can report.  Each fallible step returns the
/// variant naming the operation that failed; nothing is swallowed.
#[derive(Clone, Copy, Debug, PartialEq, Eq, Structural)]
pub enum Error {
    /// The key pool holds no entry for the requested bit size.
    RsaPoolEmpty,
    /// The public half of a private key could not be derived from its
    /// encoded material.
    DerivePublicKey,
    /// A public-key encoding is too short for its nominal modulus size to be
    /// recovered from its length.
    UnsupportedKeySize,
    /// A signee's recorded signer does not match the old signing key it was
    /// asked to verify against.
    SigneeSignerMismatch,
    /// A store location names a resource key that the store does not hold.
    EtcdResourceMissing,
    /// A filesystem location names a path with no file behind it.
    FileMissing,
    /// A document that should be a flat YAML mapping does not parse as one.
    MalformedYaml,
    /// The YAML path recorded in a location is absent from the document.
    YamlPathMissing,
    /// A raw-bundle location whose declared value shape, or whose file
    /// content, is not PEM cannot be committed.
    CannotCommitNonPem,
    /// A raw-bundle location's index points past the last block of the
    /// bundle actually found in the file.
    PemBundleIndexOutOfRange,
}

} // verus!
