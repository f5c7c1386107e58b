use vstd::prelude::*;

use crate::errors::Error;
use crate::keys::{derive_public_key, is_derived_public, key_derivable, PrivateKey, PublicKey};

verus! {

/// The public counterpart entity of a distributed private key.  It lives in
/// a registry owned by the caller; a private key that has such a counterpart
/// holds its registry index, and keeps it synchronized by calling
/// `regenerate` after replacing its own material.
pub struct DistributedPublicKey {
    pub key: PublicKey,
    pub regenerated: bool,
}

impl DistributedPublicKey {
    /// Replaces the stored public key with the public half of
    /// `new_private_key`: it succeeds exactly when the new material
    /// decodes, and on failure nothing changes.
    pub fn regenerate(&mut self, new_private_key: &PrivateKey) -> (r: Result<(), Error>)
        ensures
            (r is Ok) <==> key_derivable(*new_private_key),
            r is Ok ==> {
                &&& is_derived_public(*new_private_key, final(self).key)
                &&& final(self).regenerated
            },
            r matches Err(e) ==> {
                &&& e == Error::DerivePublicKey
                &&& *final(self) == *old(self)
            },
    {
        match derive_public_key(new_private_key) {
            Ok(public_key) => {
                self.key = public_key;
                self.regenerated = true;
                Ok(())
            },
            Err(e) => Err(e),
        }
    }
}

} // verus!
