use vstd::prelude::*;

use crate::bytes::{bytes_eq, copy_range};
use crate::cnsanreplace::{spec_apply, CnSanReplaceRules};
use crate::errors::Error;
use crate::keys::{public_payload, PublicKey};
use crate::rsa_key_pool::{KeyPairHandle, RsaKeyPool};

verus! {

/// One dependent credential signed by a distributed private key: its subject
/// value and the encoded public half of the key that signed it.
pub struct Signee {
    pub name: Vec<u8>,
    pub signed_by: Vec<u8>,
}

impl Signee {
    /// Re-signs this credential under a fresh key pair.  The recorded signer
    /// must match the old signing key, or the credential is left untouched
    /// and the cascade fails; on success the subject has been run through
    /// the rewrite rules and the recorded signer is the new pair's public
    /// half.  The pool is passed through for signees that embed their own
    /// key material; this credential draws nothing from it.
    pub fn regenerate(
        &mut self,
        old_signing_public: &PublicKey,
        new_key_pair: &KeyPairHandle,
        rsa_key_pool: &mut RsaKeyPool,
        cn_san_replace_rules: &CnSanReplaceRules,
    ) -> (r: Result<(), Error>)
        ensures
            (r is Ok) <==> old(self).signed_by@ == public_payload(*old_signing_public),
            r is Ok ==> {
                &&& final(self).name@ == spec_apply(cn_san_replace_rules@, old(self).name@)
                &&& final(self).signed_by@ == new_key_pair.public_der@
            },
            r matches Err(e) ==> {
                &&& e == Error::SigneeSignerMismatch
                &&& *final(self) == *old(self)
            },
            final(rsa_key_pool)@ == old(rsa_key_pool)@,
    {
        let matches_old = match old_signing_public {
            PublicKey::Rsa(d) => bytes_eq(&self.signed_by, d),
            PublicKey::Ec(d) => bytes_eq(&self.signed_by, d),
        };
        if !matches_old {
            return Err(Error::SigneeSignerMismatch);
        }
        self.name = cn_san_replace_rules.apply(&self.name);
        self.signed_by = copy_range(&new_key_pair.public_der, 0, new_key_pair.public_der.len());
        proof {
            assert(new_key_pair.public_der@.subrange(0, new_key_pair.public_der@.len() as int)
                =~= new_key_pair.public_der@);
        }
        Ok(())
    }
}

} // verus!
