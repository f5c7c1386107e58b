use vstd::prelude::*;

use crate::bytemap::{spec_lookup, spec_store};
use crate::bytes::append_bytes;
use crate::cnsanreplace::{spec_apply, CnSanReplaceRules};
use crate::distributed_public_key::DistributedPublicKey;
use crate::errors::Error;
use crate::file_utils::{
    recreate_yaml_at_location_with_new_pem, spec_json_text, spec_parse_document, spec_rewrite,
    spec_yaml_text, RecreateYamlEncoding,
};
use crate::filesystem::{get_filesystem_yaml, Filesystem};
use crate::k8s_etcd::{get_etcd_yaml, InMemoryK8sEtcd};
use crate::keys::{
    derive_public_key, ec_public_of, is_derived_public, key_der, key_derivable, key_pem,
    public_payload, rsa_public_der_of, spec_key_pem, PrivateKey, PublicKey,
};
use crate::locations::{
    FileContentLocation, FileLocation, K8sLocation, Location, Locations, LocationValueType,
};
use crate::pem_utils::{
    lemma_concat_push, pem_bundle_replace_pem_at_index, spec_concat, spec_parse_bundle,
};
use crate::rsa_key_pool::{drawn_from, first_with_bits, PoolEntry, RsaKeyPool};
use crate::signee::Signee;

verus! {

/// One private-key node of the trust graph: the current key material, every
/// physical copy of it, the credentials it has signed, and (optionally) the
/// registry index of its paired public-key entity.
pub struct DistributedPrivateKey {
    pub key: PrivateKey,
    pub locations: Locations,
    pub signees: Vec<Signee>,
    pub associated_distributed_public_key: Option<usize>,
    pub regenerated: bool,
}

/// The encoded public half that derivation pairs with `key`.
pub open spec fn spec_old_public(key: PrivateKey) -> Seq<u8> {
    match key {
        PrivateKey::Rsa(d) => rsa_public_der_of(d@),
        PrivateKey::Ec(d) => ec_public_of(d@),
    }
}

/// The nominal bit size the pool is queried with: recovered from the length
/// of the old public key's encoding for RSA material, zero for
/// elliptic-curve material.
pub open spec fn spec_num_bits(key: PrivateKey) -> int {
    match key {
        PrivateKey::Rsa(d) => rsa_public_der_of(d@).len() * 8 - 304,
        PrivateKey::Ec(_) => 0,
    }
}

/// Whether the old public encoding's length lets the bit size be recovered
/// within the machine word.
pub open spec fn spec_size_ok(key: PrivateKey) -> bool {
    match key {
        PrivateKey::Rsa(d) => 38 <= rsa_public_der_of(d@).len()
            && rsa_public_der_of(d@).len() <= usize::MAX as int / 8,
        PrivateKey::Ec(_) => true,
    }
}

/// Every signee's recorded signer is `old_public`.
pub open spec fn signees_match_old(pre: Seq<Signee>, old_public: Seq<u8>) -> bool {
    forall|k: int| 0 <= k < pre.len() ==> (#[trigger] pre[k]).signed_by@ == old_public
}

/// Every signee has been re-signed: subject run through the rules, recorded
/// signer replaced by `new_public`.
pub open spec fn signees_regenerated(
    pre: Seq<Signee>,
    post: Seq<Signee>,
    rules: Seq<(Seq<u8>, Seq<u8>)>,
    new_public: Seq<u8>,
) -> bool {
    &&& post.len() == pre.len()
    &&& forall|k: int| 0 <= k < pre.len() ==> {
        &&& (#[trigger] post[k]).name@ == spec_apply(rules, pre[k].name@)
        &&& post[k].signed_by@ == new_public
    }
}

/// The cascade stopped at signee `j`: it did not verify against the old
/// signer, the signees before it keep their new signatures, and it and the
/// ones after it are untouched.
pub open spec fn spec_cascade_stopped(
    pre: Seq<Signee>,
    post: Seq<Signee>,
    old_public: Seq<u8>,
    rules: Seq<(Seq<u8>, Seq<u8>)>,
    new_public: Seq<u8>,
    j: int,
) -> bool {
    &&& post.len() == pre.len()
    &&& 0 <= j < pre.len()
    &&& pre[j].signed_by@ != old_public
    &&& forall|k: int| 0 <= k < j ==> {
        &&& (#[trigger] pre[k]).signed_by@ == old_public
        &&& post[k].name@ == spec_apply(rules, pre[k].name@)
        &&& post[k].signed_by@ == new_public
    }
    &&& forall|k: int| j <= k < pre.len() ==> (#[trigger] post[k]) == pre[k]
}

/// A completed in-memory regeneration: the first pool entry of the computed
/// size replaced the key, every signee was re-signed under it, the bookkeeping
/// flag is set, and everything else on the node is untouched.
pub open spec fn spec_regenerated_node(
    pre: DistributedPrivateKey,
    post: DistributedPrivateKey,
    pool_pre: Seq<PoolEntry>,
    pool_post: Seq<PoolEntry>,
    rules: Seq<(Seq<u8>, Seq<u8>)>,
) -> bool {
    &&& spec_size_ok(pre.key)
    &&& signees_match_old(pre.signees@, spec_old_public(pre.key))
    &&& post.key matches PrivateKey::Rsa(d) && {
        &&& drawn_from(pool_pre, pool_post, spec_num_bits(pre.key) as usize, d@)
        &&& signees_regenerated(pre.signees@, post.signees@, rules, rsa_public_der_of(d@))
        &&& rsa_public_der_of(d@).len() * 8 == spec_num_bits(pre.key) + 304
    }
    &&& post.regenerated
    &&& post.locations == pre.locations
    &&& post.associated_distributed_public_key == pre.associated_distributed_public_key
}

/// What committing to one store location does: the resource under the
/// location's store key is fetched, its YAML-shaped body parsed, the value
/// under the location's path replaced by the key's PEM, and the whole
/// resource stored back re-encoded as JSON.
pub open spec fn spec_commit_k8s(
    store: Seq<(Seq<u8>, Seq<u8>)>,
    key: PrivateKey,
    loc: K8sLocation,
) -> Result<Seq<(Seq<u8>, Seq<u8>)>, Error> {
    match spec_lookup(store, loc.resource_key@) {
        None => Err(Error::EtcdResourceMissing),
        Some(bytes) => match spec_parse_document(bytes) {
            None => Err(Error::MalformedYaml),
            Some(entries) => match spec_rewrite(entries, loc.yaml_path@, spec_key_pem(key)) {
                None => Err(Error::YamlPathMissing),
                Some(en) => Ok(spec_store(store, loc.resource_key@, spec_json_text(en))),
            },
        },
    }
}

/// What a store commit writes stays committable: the JSON-encoded resource
/// is found under its store key and parses back to the rewritten document,
/// so a later commit against the same resource fetches it whole.
pub proof fn lemma_committed_store_resource_parses(
    store: Seq<(Seq<u8>, Seq<u8>)>,
    key: PrivateKey,
    loc: K8sLocation,
)
    ensures
        spec_commit_k8s(store, key, loc) matches Ok(st) ==> (match spec_lookup(
            store,
            loc.resource_key@,
        ) {
            Some(bytes) => match spec_parse_document(bytes) {
                Some(entries) => match spec_rewrite(entries, loc.yaml_path@, spec_key_pem(key)) {
                    Some(en) => spec_lookup(st, loc.resource_key@) == Some(spec_json_text(en))
                        && spec_parse_document(spec_json_text(en)) == Some(en),
                    None => false,
                },
                None => false,
            },
            None => false,
        }),
{
    if spec_commit_k8s(store, key, loc) is Ok {
        match spec_lookup(store, loc.resource_key@) {
            Some(bytes) => match spec_parse_document(bytes) {
                Some(entries) => match spec_rewrite(entries, loc.yaml_path@, spec_key_pem(key)) {
                    Some(en) => {
                        crate::bytemap::lemma_store_then_lookup(
                            store,
                            loc.resource_key@,
                            spec_json_text(en),
                        );
                        crate::file_utils::lemma_json_round_trip(en);
                        assert(spec_json_text(en)[0] == 123);
                    },
                    None => {},
                },
                None => {},
            },
            None => {},
        }
    }
}

/// What committing to one filesystem location does.  A raw-bundle location
/// has exactly its indexed PEM block replaced, the rest of the bundle
/// byte-identical; a YAML location has the value under its path replaced
/// and the file re-serialized as YAML text; any other declared value shape,
/// or raw content that is not a PEM bundle, commits nothing.
pub open spec fn spec_commit_filesystem(
    fsv: Seq<(Seq<u8>, Seq<u8>)>,
    key: PrivateKey,
    loc: FileLocation,
) -> Result<Seq<(Seq<u8>, Seq<u8>)>, Error> {
    match loc.content_location {
        FileContentLocation::Raw(value_type) => match value_type {
            LocationValueType::Pem(info) => match spec_lookup(fsv, loc.path@) {
                None => Err(Error::FileMissing),
                Some(content) => match spec_parse_bundle(content) {
                    None => Err(Error::CannotCommitNonPem),
                    Some(blocks) => {
                        if blocks.len() <= info.pem_bundle_index {
                            Err(Error::PemBundleIndexOutOfRange)
                        } else {
                            Ok(
                                spec_store(
                                    fsv,
                                    loc.path@,
                                    spec_concat(
                                        blocks.update(
                                            info.pem_bundle_index as int,
                                            spec_key_pem(key),
                                        ),
                                    ),
                                ),
                            )
                        }
                    },
                },
            },
            LocationValueType::Unknown => Err(Error::CannotCommitNonPem),
        },
        FileContentLocation::Yaml(yaml_path) => match spec_lookup(fsv, loc.path@) {
            None => Err(Error::FileMissing),
            Some(content) => match spec_parse_document(content) {
                None => Err(Error::MalformedYaml),
                Some(entries) => match spec_rewrite(entries, yaml_path@, spec_key_pem(key)) {
                    None => Err(Error::YamlPathMissing),
                    Some(en) => Ok(spec_store(fsv, loc.path@, spec_yaml_text(en))),
                },
            },
        },
    }
}

/// What a whole commit run does: the locations are processed in order, each
/// against the state the ones before it left; the first failure stops the
/// run and keeps what was already written.
pub open spec fn spec_commit_run(
    etcd: Seq<(Seq<u8>, Seq<u8>)>,
    fsv: Seq<(Seq<u8>, Seq<u8>)>,
    key: PrivateKey,
    locs: Seq<Location>,
) -> (Seq<(Seq<u8>, Seq<u8>)>, Seq<(Seq<u8>, Seq<u8>)>, Option<Error>)
    decreases locs.len(),
{
    if locs.len() == 0 {
        (etcd, fsv, None)
    } else {
        match locs[0] {
            Location::K8s(l) => match spec_commit_k8s(etcd, key, l) {
                Ok(st) => spec_commit_run(st, fsv, key, locs.skip(1)),
                Err(e) => (etcd, fsv, Some(e)),
            },
            Location::Filesystem(l) => match spec_commit_filesystem(fsv, key, l) {
                Ok(fv) => spec_commit_run(etcd, fv, key, locs.skip(1)),
                Err(e) => (etcd, fsv, Some(e)),
            },
        }
    }
}

/// The decimal digits of `n`, most significant first.
pub open spec fn spec_dec_digits(n: nat) -> Seq<u8>
    decreases n,
{
    if n < 10 {
        seq![(48 + n) as u8]
    } else {
        spec_dec_digits(n / 10) + seq![(48 + n % 10) as u8]
    }
}

/// The decimal digits of `n`, zero-padded on the left to at least three.
pub open spec fn spec_dec3(n: nat) -> Seq<u8> {
    if n < 10 {
        seq![48u8, 48u8] + spec_dec_digits(n)
    } else if n < 100 {
        seq![48u8] + spec_dec_digits(n)
    } else {
        spec_dec_digits(n)
    }
}

/// The bytes of "Standalone priv ".
pub open spec fn spec_header_label() -> Seq<u8> {
    seq![83u8, 116u8, 97u8, 110u8, 100u8, 97u8, 108u8, 111u8, 110u8, 101u8, 32u8, 112u8, 114u8,
        105u8, 118u8, 32u8]
}

/// The bytes of " locations".
pub open spec fn spec_locations_label() -> Seq<u8> {
    seq![32u8, 108u8, 111u8, 99u8, 97u8, 116u8, 105u8, 111u8, 110u8, 115u8]
}

/// One location rendered for diagnostics: a store location as "k8s:" with
/// its store key and path, a filesystem location as "file:" with its path.
pub open spec fn spec_location_text(loc: Location) -> Seq<u8> {
    match loc {
        Location::K8s(l) => seq![107u8, 56u8, 115u8, 58u8] + l.resource_key@ + seq![58u8]
            + l.yaml_path@,
        Location::Filesystem(l) => seq![102u8, 105u8, 108u8, 101u8, 58u8] + l.path@,
    }
}

/// The formatted location set: each location space-separated after the
/// count.
pub open spec fn spec_locations_text(locs: Seq<Location>) -> Seq<u8> {
    spec_concat(locs.map_values(|l: Location| seq![32u8] + spec_location_text(l)))
}

/// The bytes of "* Associated public key at ".
pub open spec fn spec_assoc_label() -> Seq<u8> {
    seq![42u8, 32u8, 65u8, 115u8, 115u8, 111u8, 99u8, 105u8, 97u8, 116u8, 101u8, 100u8, 32u8,
        112u8, 117u8, 98u8, 108u8, 105u8, 99u8, 32u8, 107u8, 101u8, 121u8, 32u8, 97u8, 116u8, 32u8]
}

/// The whole diagnostic rendering of a node: a header with the
/// zero-padded location count and the formatted location set, one line per
/// signee naming its subject, and a line naming the associated public
/// key's registry index when one is linked (the entity itself lives in the
/// caller's registry, so its own rendering belongs to the registry's
/// owner).
pub open spec fn spec_summary(node: DistributedPrivateKey) -> Seq<u8> {
    spec_header_label() + spec_dec3(node.locations.0@.len()) + spec_locations_label()
        + spec_locations_text(node.locations.0@) + seq![10u8] + spec_concat(
        node.signees@.map_values(|s: Signee| seq![45u8, 32u8] + s.name@ + seq![10u8]),
    ) + (match node.associated_distributed_public_key {
        Some(i) => spec_assoc_label() + spec_dec_digits(i as nat) + seq![10u8],
        None => Seq::<u8>::empty(),
    })
}

/// The decimal digits of `n`.
fn dec_digits(n: usize) -> (r: Vec<u8>)
    ensures
        r@ == spec_dec_digits(n as nat),
    decreases n,
{
    if n < 10 {
        let mut v: Vec<u8> = Vec::new();
        v.push(48 + n as u8);
        proof {
            assert(v@ =~= spec_dec_digits(n as nat));
        }
        v
    } else {
        let mut v = dec_digits(n / 10);
        v.push(48 + (n % 10) as u8);
        proof {
            assert(v@ =~= spec_dec_digits((n / 10) as nat) + seq![(48 + (n as nat) % 10) as u8]);
        }
        v
    }
}

/// The decimal digits of `n`, zero-padded to at least three.
fn dec3(n: usize) -> (r: Vec<u8>)
    ensures
        r@ == spec_dec3(n as nat),
{
    let mut out: Vec<u8> = Vec::new();
    if n < 10 {
        out.push(48);
        out.push(48);
    } else if n < 100 {
        out.push(48);
    }
    let digits = dec_digits(n);
    append_bytes(&mut out, &digits);
    proof {
        assert(out@ =~= spec_dec3(n as nat));
    }
    out
}

impl DistributedPrivateKey {
    /// Renders this node for diagnostics.  The rendering is a pure function
    /// of the node's state and carries no promise beyond `spec_summary`.
    #[verifier::loop_isolation(false)]
    pub fn summary(&self) -> (r: Vec<u8>)
        ensures
            r@ == spec_summary(*self),
    {
        let ghost mapped = self.signees@.map_values(
            |s: Signee| seq![45u8, 32u8] + s.name@ + seq![10u8],
        );
        let mut out: Vec<u8> = Vec::new();
        out.push(83);
        out.push(116);
        out.push(97);
        out.push(110);
        out.push(100);
        out.push(97);
        out.push(108);
        out.push(111);
        out.push(110);
        out.push(101);
        out.push(32);
        out.push(112);
        out.push(114);
        out.push(105);
        out.push(118);
        out.push(32);
        proof {
            assert(out@ =~= spec_header_label());
        }
        let count = dec3(self.locations.0.len());
        append_bytes(&mut out, &count);
        out.push(32);
        out.push(108);
        out.push(111);
        out.push(99);
        out.push(97);
        out.push(116);
        out.push(105);
        out.push(111);
        out.push(110);
        out.push(115);
        let ghost head0 = spec_header_label() + spec_dec3(self.locations.0@.len())
            + spec_locations_label();
        proof {
            assert(out@ =~= head0);
        }
        let ghost loc_mapped = self.locations.0@.map_values(
            |l: Location| seq![32u8] + spec_location_text(l),
        );
        let mut loc_index: usize = 0;
        while loc_index < self.locations.0.len()
            invariant
                loc_index <= self.locations.0@.len(),
                out@ == head0 + spec_concat(loc_mapped.subrange(0, loc_index as int)),
            decreases self.locations.0@.len() - loc_index,
        {
            let mut piece: Vec<u8> = Vec::new();
            piece.push(32);
            match &self.locations.0[loc_index] {
                Location::K8s(l) => {
                    piece.push(107);
                    piece.push(56);
                    piece.push(115);
                    piece.push(58);
                    append_bytes(&mut piece, &l.resource_key);
                    piece.push(58);
                    append_bytes(&mut piece, &l.yaml_path);
                },
                Location::Filesystem(l) => {
                    piece.push(102);
                    piece.push(105);
                    piece.push(108);
                    piece.push(101);
                    piece.push(58);
                    append_bytes(&mut piece, &l.path);
                },
            }
            proof {
                assert(piece@ =~= loc_mapped[loc_index as int]);
                assert(loc_mapped.subrange(0, loc_index as int + 1) =~= loc_mapped.subrange(
                    0,
                    loc_index as int,
                ).push(loc_mapped[loc_index as int]));
                lemma_concat_push(
                    loc_mapped.subrange(0, loc_index as int),
                    loc_mapped[loc_index as int],
                );
                assert((head0 + spec_concat(loc_mapped.subrange(0, loc_index as int))) + piece@
                    =~= head0 + spec_concat(loc_mapped.subrange(0, loc_index as int + 1)));
            }
            append_bytes(&mut out, &piece);
            loc_index = loc_index + 1;
        }
        out.push(10);
        let ghost head = head0 + spec_locations_text(self.locations.0@) + seq![10u8];
        proof {
            assert(loc_mapped.subrange(0, loc_index as int) =~= loc_mapped);
            assert(out@ =~= head);
        }
        let mut i: usize = 0;
        while i < self.signees.len()
            invariant
                i <= self.signees@.len(),
                out@ == head + spec_concat(mapped.subrange(0, i as int)),
            decreases self.signees@.len() - i,
        {
            let mut line: Vec<u8> = Vec::new();
            line.push(45);
            line.push(32);
            append_bytes(&mut line, &self.signees[i].name);
            line.push(10);
            proof {
                assert(line@ =~= mapped[i as int]);
                assert(mapped.subrange(0, i as int + 1) =~= mapped.subrange(0, i as int).push(
                    mapped[i as int],
                ));
                lemma_concat_push(mapped.subrange(0, i as int), mapped[i as int]);
                assert((head + spec_concat(mapped.subrange(0, i as int))) + line@ =~= head
                    + spec_concat(mapped.subrange(0, i as int + 1)));
            }
            append_bytes(&mut out, &line);
            i = i + 1;
        }
        proof {
            assert(mapped.subrange(0, i as int) =~= mapped);
        }
        match self.associated_distributed_public_key {
            Some(registry_index) => {
                let mut tail: Vec<u8> = Vec::new();
                tail.push(42);
                tail.push(32);
                tail.push(65);
                tail.push(115);
                tail.push(115);
                tail.push(111);
                tail.push(99);
                tail.push(105);
                tail.push(97);
                tail.push(116);
                tail.push(101);
                tail.push(100);
                tail.push(32);
                tail.push(112);
                tail.push(117);
                tail.push(98);
                tail.push(108);
                tail.push(105);
                tail.push(99);
                tail.push(32);
                tail.push(107);
                tail.push(101);
                tail.push(121);
                tail.push(32);
                tail.push(97);
                tail.push(116);
                tail.push(32);
                proof {
                    assert(tail@ =~= spec_assoc_label());
                }
                let digits = dec_digits(registry_index);
                append_bytes(&mut tail, &digits);
                tail.push(10);
                append_bytes(&mut out, &tail);
                proof {
                    assert(out@ =~= spec_summary(*self));
                }
            },
            None => {
                proof {
                    assert(out@ + Seq::<u8>::empty() =~= out@);
                }
            },
        }
        out
    }

    /// Replaces this node's key with fresh RSA material from the pool and
    /// cascades the change: every signee is re-signed under the new key (it
    /// must first verify against the old one), and the paired public-key
    /// entity, if any, is updated in the caller's registry.  The pool must
    /// hold fresh material only, none of it equal to the node's current key.
    ///
    /// The computed pool size is the old RSA public encoding's length in
    /// bits less the fixed DER overhead; an elliptic-curve key computes size
    /// zero and is replaced by RSA material all the same, so it succeeds
    /// only if the pool holds an entry bucketed under zero.
    ///
    /// It succeeds exactly when the old key's material decodes, its size
    /// can be recovered, the pool holds an entry of that size, and every
    /// signee verifies against the old signer; the pool's own invariant
    /// makes the propagation to the public-key entity infallible.  Failures
    /// keep whatever had already been applied: a pool miss or a failed
    /// derivation of the old public key changes nothing; a signee mismatch
    /// keeps the re-signatures of the signees before it.
    #[verifier::loop_isolation(false)]
    pub fn regenerate(
        &mut self,
        rsa_key_pool: &mut RsaKeyPool,
        cn_san_replace_rules: &CnSanReplaceRules,
        public_key_registry: &mut Vec<DistributedPublicKey>,
    ) -> (r: Result<(), Error>)
        requires
            old(self).associated_distributed_public_key matches Some(i) ==> i < old(
                public_key_registry,
            )@.len(),
            forall|j: int| 0 <= j < old(rsa_key_pool)@.len() ==> (#[trigger] old(
                rsa_key_pool,
            )@[j]).private_der@ != key_der(old(self).key),
        ensures
            (r is Ok) <==> {
                &&& key_derivable(old(self).key)
                &&& spec_size_ok(old(self).key)
                &&& first_with_bits(
                    old(rsa_key_pool)@,
                    spec_num_bits(old(self).key) as usize,
                ) is Some
                &&& signees_match_old(old(self).signees@, spec_old_public(old(self).key))
            },
            r is Ok ==> {
                &&& spec_regenerated_node(
                    *old(self),
                    *final(self),
                    old(rsa_key_pool)@,
                    final(rsa_key_pool)@,
                    cn_san_replace_rules@,
                )
                &&& key_der(final(self).key) != key_der(old(self).key)
                &&& match old(self).associated_distributed_public_key {
                    Some(i) => {
                        &&& final(public_key_registry)@.len() == old(
                            public_key_registry,
                        )@.len()
                        &&& is_derived_public(
                            final(self).key,
                            final(public_key_registry)@[i as int].key,
                        )
                        &&& final(public_key_registry)@[i as int].regenerated
                        &&& forall|j: int|
                            0 <= j < old(public_key_registry)@.len() && j != i
                                ==> final(public_key_registry)@[j] == old(public_key_registry)@[j]
                    },
                    None => final(public_key_registry)@ == old(public_key_registry)@,
                }
            },
            r == Result::<(), Error>::Err(Error::DerivePublicKey) <==> !key_derivable(
                old(self).key,
            ),
            r == Result::<(), Error>::Err(Error::DerivePublicKey) ==> {
                &&& *final(self) == *old(self)
                &&& final(rsa_key_pool)@ == old(rsa_key_pool)@
                &&& final(public_key_registry)@ == old(public_key_registry)@
            },
            r == Result::<(), Error>::Err(Error::UnsupportedKeySize) <==> (key_derivable(
                old(self).key,
            ) && !spec_size_ok(old(self).key)),
            r == Result::<(), Error>::Err(Error::UnsupportedKeySize) ==> {
                &&& *final(self) == *old(self)
                &&& final(rsa_key_pool)@ == old(rsa_key_pool)@
                &&& final(public_key_registry)@ == old(public_key_registry)@
            },
            r == Result::<(), Error>::Err(Error::RsaPoolEmpty) <==> {
                &&& key_derivable(old(self).key)
                &&& spec_size_ok(old(self).key)
                &&& first_with_bits(
                    old(rsa_key_pool)@,
                    spec_num_bits(old(self).key) as usize,
                ) is None
            },
            r == Result::<(), Error>::Err(Error::RsaPoolEmpty) ==> {
                &&& *final(self) == *old(self)
                &&& final(rsa_key_pool)@ == old(rsa_key_pool)@
                &&& final(public_key_registry)@ == old(public_key_registry)@
            },
            r == Result::<(), Error>::Err(Error::SigneeSignerMismatch) <==> {
                &&& key_derivable(old(self).key)
                &&& spec_size_ok(old(self).key)
                &&& first_with_bits(
                    old(rsa_key_pool)@,
                    spec_num_bits(old(self).key) as usize,
                ) is Some
                &&& !signees_match_old(old(self).signees@, spec_old_public(old(self).key))
            },
            r == Result::<(), Error>::Err(Error::SigneeSignerMismatch) ==> {
                &&& final(self).key == old(self).key
                &&& final(self).regenerated == old(self).regenerated
                &&& final(self).locations == old(self).locations
                &&& final(self).associated_distributed_public_key == old(
                    self,
                ).associated_distributed_public_key
                &&& final(public_key_registry)@ == old(public_key_registry)@
                &&& first_with_bits(
                    old(rsa_key_pool)@,
                    spec_num_bits(old(self).key) as usize,
                ) matches Some(i) && {
                    &&& final(rsa_key_pool)@ == old(rsa_key_pool)@.remove(i)
                    &&& exists|j: int|
                        spec_cascade_stopped(
                            old(self).signees@,
                            final(self).signees@,
                            spec_old_public(old(self).key),
                            cn_san_replace_rules@,
                            rsa_public_der_of(old(rsa_key_pool)@[i].private_der@),
                            j,
                        )
                }
            },
            r matches Err(e) ==> (e == Error::DerivePublicKey || e == Error::UnsupportedKeySize
                || e == Error::RsaPoolEmpty || e == Error::SigneeSignerMismatch),
    {
        let original_signing_public_key = match derive_public_key(&self.key) {
            Ok(p) => p,
            Err(e) => {
                return Err(e);
            },
        };

        let num_bits: usize = match &original_signing_public_key {
            PublicKey::Rsa(bytes) => {
                if bytes.len() < 38 || bytes.len() > usize::MAX / 8 {
                    return Err(Error::UnsupportedKeySize);
                }
                bytes.len() * 8 - 304
            },
            PublicKey::Ec(_) => 0,
        };
        proof {
            assert(num_bits == spec_num_bits(old(self).key) as usize);
            assert(spec_size_ok(old(self).key));
            assert(public_payload(original_signing_public_key) == spec_old_public(old(self).key));
        }

        let (self_new_rsa_private_key, self_new_key_pair) = match rsa_key_pool.get(num_bits) {
            Some(drawn) => drawn,
            None => {
                return Err(Error::RsaPoolEmpty);
            },
        };

        let ghost pool_after_draw = rsa_key_pool@;
        let mut signee_index: usize = 0;
        while signee_index < self.signees.len()
            invariant
                signee_index <= self.signees@.len(),
                rsa_key_pool@ == pool_after_draw,
                self.key == old(self).key,
                self.regenerated == old(self).regenerated,
                self.locations == old(self).locations,
                self.associated_distributed_public_key == old(
                    self,
                ).associated_distributed_public_key,
                self.signees@.len() == old(self).signees@.len(),
                forall|k: int| 0 <= k < signee_index ==> {
                    &&& (#[trigger] old(self).signees@[k]).signed_by@ == public_payload(
                        original_signing_public_key,
                    )
                    &&& self.signees@[k].name@ == spec_apply(
                        cn_san_replace_rules@,
                        old(self).signees@[k].name@,
                    )
                    &&& self.signees@[k].signed_by@ == self_new_key_pair.public_der@
                },
                forall|k: int|
                    signee_index <= k < self.signees@.len() ==> (#[trigger] self.signees@[k])
                        == old(self).signees@[k],
            decreases self.signees@.len() - signee_index,
        {
            let ghost before = self.signees@;
            let mut signee = self.signees.remove(signee_index);
            let outcome = signee.regenerate(
                &original_signing_public_key,
                &self_new_key_pair,
                rsa_key_pool,
                cn_san_replace_rules,
            );
            self.signees.insert(signee_index, signee);
            proof {
                assert(self.signees@ =~= before.update(
                    signee_index as int,
                    self.signees@[signee_index as int],
                ));
            }
            match outcome {
                Ok(_) => {},
                Err(e) => {
                    proof {
                        assert(self.signees@ =~= before);
                        assert(old(self).signees@[signee_index as int].signed_by@
                            != public_payload(original_signing_public_key));
                        assert(forall|k: int|
                            signee_index as int <= k < old(self).signees@.len() ==> (
                            #[trigger] self.signees@[k]) == old(self).signees@[k]);
                        assert(spec_cascade_stopped(
                            old(self).signees@,
                            self.signees@,
                            spec_old_public(old(self).key),
                            cn_san_replace_rules@,
                            self_new_key_pair.public_der@,
                            signee_index as int,
                        ));
                    }
                    return Err(e);
                },
            }
            proof {
                assert(old(self).signees@[signee_index as int].signed_by@ == public_payload(
                    original_signing_public_key,
                ));
                assert(self.signees@[signee_index as int].name@ == spec_apply(
                    cn_san_replace_rules@,
                    old(self).signees@[signee_index as int].name@,
                ));
                assert(self.signees@[signee_index as int].signed_by@
                    == self_new_key_pair.public_der@);
            }
            signee_index = signee_index + 1;
        }

        self.key = PrivateKey::Rsa(self_new_rsa_private_key);
        self.regenerated = true;

        match self.associated_distributed_public_key {
            Some(registry_index) => {
                let mut entity = public_key_registry.remove(registry_index);
                let outcome = entity.regenerate(&self.key);
                public_key_registry.insert(registry_index, entity);
                proof {
                    assert(public_key_registry@ =~= old(public_key_registry)@.update(
                        registry_index as int,
                        public_key_registry@[registry_index as int],
                    ));
                }
                match outcome {
                    Ok(_) => {},
                    Err(e) => {
                        // The drawn material came from the pool, whose
                        // invariant keeps only derivable keys, so the
                        // propagation cannot have failed.
                        proof {
                            assert(false);
                        }
                        return Err(e);
                    },
                }
            },
            None => {},
        }

        Ok(())
    }

    /// Pushes the key's PEM into one configuration-store resource, as
    /// `spec_commit_k8s` describes; a failed fetch, parse or rewrite leaves
    /// the store untouched.
    pub fn commit_k8s_private_key(
        &self,
        etcd_client: &mut InMemoryK8sEtcd,
        k8slocation: &K8sLocation,
    ) -> (r: Result<(), Error>)
        ensures
            match spec_commit_k8s(old(etcd_client)@, self.key, *k8slocation) {
                Ok(st) => r is Ok && final(etcd_client)@ == st,
                Err(e) => r == Result::<(), Error>::Err(e) && final(etcd_client)@ == old(
                    etcd_client,
                )@,
            },
    {
        let resource = match get_etcd_yaml(&*etcd_client, &k8slocation.resource_key) {
            Ok(resource) => resource,
            Err(e) => {
                return Err(e);
            },
        };
        let pem = key_pem(&self.key);
        let bytes = match recreate_yaml_at_location_with_new_pem(
            resource,
            &k8slocation.yaml_path,
            &pem,
            RecreateYamlEncoding::Json,
        ) {
            Ok(bytes) => bytes,
            Err(e) => {
                return Err(e);
            },
        };
        etcd_client.put(&k8slocation.resource_key, bytes);
        Ok(())
    }

    /// Pushes the key's PEM into one file, as `spec_commit_filesystem`
    /// describes; any failure leaves the filesystem untouched.
    pub fn commit_filesystem_private_key(
        &self,
        filesystem: &mut Filesystem,
        filelocation: &FileLocation,
    ) -> (r: Result<(), Error>)
        ensures
            match spec_commit_filesystem(old(filesystem)@, self.key, *filelocation) {
                Ok(st) => r is Ok && final(filesystem)@ == st,
                Err(e) => r == Result::<(), Error>::Err(e) && final(filesystem)@ == old(
                    filesystem,
                )@,
            },
    {
        let private_key_pem = key_pem(&self.key);
        match &filelocation.content_location {
            FileContentLocation::Raw(pem_location_info) => match pem_location_info {
                LocationValueType::Pem(info) => {
                    let content = match filesystem.read_file(&filelocation.path) {
                        Some(content) => content,
                        None => {
                            return Err(Error::FileMissing);
                        },
                    };
                    let new_content = match pem_bundle_replace_pem_at_index(
                        &content,
                        info.pem_bundle_index,
                        &private_key_pem,
                    ) {
                        Ok(new_content) => new_content,
                        Err(e) => {
                            return Err(e);
                        },
                    };
                    filesystem.write_file(&filelocation.path, new_content);
                    Ok(())
                },
                LocationValueType::Unknown => Err(Error::CannotCommitNonPem),
            },
            FileContentLocation::Yaml(yaml_location) => {
                let resource = match get_filesystem_yaml(&*filesystem, filelocation) {
                    Ok(resource) => resource,
                    Err(e) => {
                        return Err(e);
                    },
                };
                let new_content = match recreate_yaml_at_location_with_new_pem(
                    resource,
                    yaml_location,
                    &private_key_pem,
                    RecreateYamlEncoding::Yaml,
                ) {
                    Ok(new_content) => new_content,
                    Err(e) => {
                        return Err(e);
                    },
                };
                filesystem.write_file(&filelocation.path, new_content);
                Ok(())
            },
        }
    }

    /// Replays the key's new PEM into every recorded location, the store
    /// ones against the configuration store, the file ones against the
    /// filesystem, in order; the first failure stops the run and keeps what
    /// was already written, as `spec_commit_run` describes.
    #[verifier::loop_isolation(false)]
    pub fn commit_to_etcd_and_disk(
        &self,
        etcd_client: &mut InMemoryK8sEtcd,
        filesystem: &mut Filesystem,
    ) -> (r: Result<(), Error>)
        ensures
            ({
                let run = spec_commit_run(
                    old(etcd_client)@,
                    old(filesystem)@,
                    self.key,
                    self.locations.0@,
                );
                &&& final(etcd_client)@ == run.0
                &&& final(filesystem)@ == run.1
                &&& (match r {
                    Ok(_) => run.2 is None,
                    Err(e) => run.2 == Some(e),
                })
            }),
    {
        proof {
            assert(self.locations.0@.skip(0) =~= self.locations.0@);
        }
        let mut i: usize = 0;
        while i < self.locations.0.len()
            invariant
                i <= self.locations.0@.len(),
                spec_commit_run(old(etcd_client)@, old(filesystem)@, self.key, self.locations.0@)
                    == spec_commit_run(
                    etcd_client@,
                    filesystem@,
                    self.key,
                    self.locations.0@.skip(i as int),
                ),
            decreases self.locations.0@.len() - i,
        {
            proof {
                assert(self.locations.0@.skip(i as int)[0] == self.locations.0@[i as int]);
                assert(self.locations.0@.skip(i as int).skip(1) =~= self.locations.0@.skip(
                    i as int + 1,
                ));
            }
            match &self.locations.0[i] {
                Location::K8s(k8slocation) => {
                    match self.commit_k8s_private_key(etcd_client, k8slocation) {
                        Ok(_) => {},
                        Err(e) => {
                            return Err(e);
                        },
                    }
                },
                Location::Filesystem(filelocation) => {
                    match self.commit_filesystem_private_key(filesystem, filelocation) {
                        Ok(_) => {},
                        Err(e) => {
                            return Err(e);
                        },
                    }
                },
            }
            i = i + 1;
        }
        Ok(())
    }
}

} // verus!
