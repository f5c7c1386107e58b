use vstd::prelude::*;

use crate::bytes::copy_range;
use crate::errors::Error;
use crate::keys::{rsa_public_der_of, rsa_public_derivable};

verus! {

/// One pre-generated RSA key: its PKCS#1 DER, the SPKI DER of its public
/// half, and the nominal bit size recovered from the public encoding's
/// length.
pub struct PoolEntry {
    pub bits: usize,
    pub private_der: Vec<u8>,
    pub public_der: Vec<u8>,
}

/// A fresh private key together with its public half, as handed out by the
/// pool and passed on to signees for re-signing.
pub struct KeyPairHandle {
    pub private_der: Vec<u8>,
    pub public_der: Vec<u8>,
}

/// The index of the first pool entry bucketed under `bits`, if any.
pub open spec fn first_with_bits(entries: Seq<PoolEntry>, bits: usize) -> Option<int>
    decreases entries.len(),
{
    if entries.len() == 0 {
        None
    } else if entries[0].bits == bits {
        Some(0)
    } else {
        match first_with_bits(entries.skip(1), bits) {
            Some(i) => Some(i + 1),
            None => None,
        }
    }
}

/// A successful draw for `num_bits`: the first entry of that size supplied
/// the material, and the pool now holds the rest, order kept.
pub open spec fn drawn_from(
    pre: Seq<PoolEntry>,
    post: Seq<PoolEntry>,
    num_bits: usize,
    private_der: Seq<u8>,
) -> bool {
    match first_with_bits(pre, num_bits) {
        Some(i) => {
            &&& 0 <= i < pre.len()
            &&& private_der == pre[i].private_der@
            &&& post == pre.remove(i)
        },
        None => false,
    }
}

/// A pre-populated supply of fresh RSA key material, bucketed by the nominal
/// bit size of each entry; drained on demand, never refilled by the engine.
pub struct RsaKeyPool {
    entries: Vec<PoolEntry>,
}

impl RsaKeyPool {
    /// The entries currently in the pool, front first.
    pub closed spec fn view(&self) -> Seq<PoolEntry> {
        self.entries@
    }

    #[verifier::type_invariant]
    spec fn wf(self) -> bool {
        forall|i: int| 0 <= i < self.entries@.len() ==> {
            &&& (#[trigger] self.entries@[i]).public_der@ == rsa_public_der_of(
                self.entries@[i].private_der@,
            )
            &&& self.entries@[i].public_der@.len() * 8 == self.entries@[i].bits + 304
            &&& rsa_public_derivable(self.entries@[i].private_der@)
        }
    }

    /// An empty pool.
    pub fn new() -> (r: Self)
        ensures
            r@ == Seq::<PoolEntry>::empty(),
    {
        RsaKeyPool { entries: Vec::new() }
    }

    /// Adds one private key, deriving its public half and recovering its
    /// nominal bit size from the public encoding's length.  It succeeds
    /// exactly when the material decodes and its public encoding is long
    /// enough to size; the returned value is the bit size, and the key
    /// stands at the back of the pool.
    pub fn add(&mut self, private_der: Vec<u8>) -> (r: Result<usize, Error>)
        ensures
            (r is Ok) <==> (rsa_public_derivable(private_der@) && 38 <= rsa_public_der_of(
                private_der@,
            ).len() <= usize::MAX as int / 8),
            r == Result::<usize, Error>::Err(Error::DerivePublicKey) <==> !rsa_public_derivable(
                private_der@,
            ),
            r == Result::<usize, Error>::Err(Error::UnsupportedKeySize) <==> (rsa_public_derivable(
                private_der@,
            ) && !(38 <= rsa_public_der_of(private_der@).len() <= usize::MAX as int / 8)),
            r matches Ok(bits) ==> {
                &&& final(self)@.len() == old(self)@.len() + 1
                &&& final(self)@.subrange(0, old(self)@.len() as int) == old(self)@
                &&& final(self)@.last().bits == bits
                &&& final(self)@.last().private_der@ == private_der@
                &&& final(self)@.last().public_der@ == rsa_public_der_of(private_der@)
                &&& bits + 304 == rsa_public_der_of(private_der@).len() * 8
            },
            r matches Err(e) ==> {
                &&& final(self)@ == old(self)@
                &&& (e == Error::DerivePublicKey || e == Error::UnsupportedKeySize)
            },
    {
        proof {
            use_type_invariant(&*self);
        }
        let public_der = match crate::keys::rsa_public_spki_der(&private_der) {
            Ok(p) => p,
            Err(e) => {
                return Err(e);
            },
        };
        if public_der.len() < 38 || public_der.len() > usize::MAX / 8 {
            return Err(Error::UnsupportedKeySize);
        }
        let bits: usize = public_der.len() * 8 - 304;
        let ghost before = self.entries@;
        let mut entries: Vec<PoolEntry> = Vec::new();
        std::mem::swap(&mut entries, &mut self.entries);
        entries.push(PoolEntry { bits, private_der, public_der });
        std::mem::swap(&mut entries, &mut self.entries);
        proof {
            assert(self.entries@.subrange(0, before.len() as int) =~= before);
        }
        Ok(bits)
    }

    /// Draws the first entry bucketed under `num_bits`, removing it from the
    /// pool; reports a miss when no entry of that size is left.
    pub fn get(&mut self, num_bits: usize) -> (r: Option<(Vec<u8>, KeyPairHandle)>)
        ensures
            r matches Some(drawn) ==> {
                &&& drawn_from(old(self)@, final(self)@, num_bits, drawn.0@)
                &&& drawn.1.private_der@ == drawn.0@
                &&& drawn.1.public_der@ == rsa_public_der_of(drawn.0@)
                &&& drawn.1.public_der@.len() * 8 == num_bits + 304
                &&& rsa_public_derivable(drawn.0@)
            },
            r is None ==> {
                &&& first_with_bits(old(self)@, num_bits) is None
                &&& final(self)@ == old(self)@
            },
    {
        proof {
            use_type_invariant(&*self);
        }
        let ghost pre = self.entries@;
        proof {
            assert(pre.skip(0) =~= pre);
        }
        let mut i: usize = 0;
        while i < self.entries.len()
            invariant
                i <= self.entries@.len(),
                self.entries@ == pre,
                old(self)@ == pre,
                forall|j: int| 0 <= j < i ==> pre[j].bits != num_bits,
                first_with_bits(pre, num_bits) == (match first_with_bits(
                    pre.skip(i as int),
                    num_bits,
                ) {
                    Some(k) => Some(k + i as int),
                    None => None::<int>,
                }),
            decreases self.entries@.len() - i,
        {
            if self.entries[i].bits == num_bits {
                proof {
                    use_type_invariant(&*self);
                    assert(pre.skip(i as int)[0] == pre[i as int]);
                    assert(first_with_bits(pre.skip(i as int), num_bits) == Some(0int));
                    assert(self.entries@[i as int].public_der@ == rsa_public_der_of(
                        self.entries@[i as int].private_der@,
                    ));
                    assert(rsa_public_derivable(self.entries@[i as int].private_der@));
                }
                let mut entries: Vec<PoolEntry> = Vec::new();
                std::mem::swap(&mut entries, &mut self.entries);
                let entry = entries.remove(i);
                std::mem::swap(&mut entries, &mut self.entries);
                let private_copy = copy_range(&entry.private_der, 0, entry.private_der.len());
                proof {
                    assert(entry.private_der@.subrange(0, entry.private_der@.len() as int)
                        =~= entry.private_der@);
                    assert(self.entries@ =~= pre.remove(i as int));
                }
                return Some(
                    (
                        entry.private_der,
                        KeyPairHandle { private_der: private_copy, public_der: entry.public_der },
                    ),
                );
            }
            proof {
                assert(pre.skip(i as int)[0] == pre[i as int]);
                assert(pre.skip(i as int).skip(1) =~= pre.skip(i as int + 1));
            }
            i = i + 1;
        }
        proof {
            assert(pre.skip(i as int) =~= Seq::<PoolEntry>::empty());
        }
        None
    }
}

} // verus!
