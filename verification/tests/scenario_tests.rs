use cluster_crypto::cnsanreplace::CnSanReplaceRules;
use cluster_crypto::distributed_private_key::DistributedPrivateKey;
use cluster_crypto::distributed_public_key::DistributedPublicKey;
use cluster_crypto::filesystem::Filesystem;
use cluster_crypto::k8s_etcd::InMemoryK8sEtcd;
use cluster_crypto::keys::{PrivateKey, PublicKey};
use cluster_crypto::locations::{
    FileContentLocation, FileLocation, Location, Locations, LocationValueType, PemLocationInfo,
};
use cluster_crypto::rsa_key_pool::RsaKeyPool;
use cluster_crypto::signee::Signee;

use rsa::pkcs1::EncodeRsaPrivateKey;
use rsa::pkcs8::EncodePublicKey;

fn fresh_rsa_der(bits: usize) -> (Vec<u8>, Vec<u8>) {
    let key = rsa::RsaPrivateKey::new(&mut rand::thread_rng(), bits).unwrap();
    let private_der = key.to_pkcs1_der().unwrap().as_bytes().to_vec();
    let public_spki = key
        .to_public_key()
        .to_public_key_der()
        .unwrap()
        .as_bytes()
        .to_vec();
    (private_der, public_spki)
}

#[test]
fn regenerate_then_commit_rewrites_block_zero_and_resigns_both_signees() {
    let (old_der, old_spki) = fresh_rsa_der(512);
    let (new_der, new_spki) = fresh_rsa_der(512);

    let old_block = pem::encode(&pem::Pem::new("RSA PRIVATE KEY", old_der.clone())).into_bytes();
    let cert_block = pem::encode(&pem::Pem::new("CERTIFICATE", b"cert".as_slice())).into_bytes();
    let mut bundle = old_block;
    bundle.extend_from_slice(&cert_block);

    let mut node = DistributedPrivateKey {
        key: PrivateKey::Rsa(old_der),
        locations: Locations(vec![Location::Filesystem(FileLocation {
            path: b"/etc/kubernetes/bundle.pem".to_vec(),
            content_location: FileContentLocation::Raw(LocationValueType::Pem(PemLocationInfo {
                pem_bundle_index: 0,
            })),
        })]),
        signees: vec![
            Signee {
                name: b"kube-apiserver".to_vec(),
                signed_by: old_spki.clone(),
            },
            Signee {
                name: b"kube-scheduler".to_vec(),
                signed_by: old_spki,
            },
        ],
        associated_distributed_public_key: None,
        regenerated: false,
    };

    let mut pool = RsaKeyPool::new();
    pool.add(new_der.clone()).unwrap();
    let rules = CnSanReplaceRules { rules: Vec::new() };
    let mut registry: Vec<DistributedPublicKey> = Vec::new();
    node.regenerate(&mut pool, &rules, &mut registry).unwrap();

    let mut etcd = InMemoryK8sEtcd::new();
    let mut fs = Filesystem::new();
    fs.write_file(&b"/etc/kubernetes/bundle.pem".to_vec(), bundle);
    node.commit_to_etcd_and_disk(&mut etcd, &mut fs).unwrap();

    // Block zero is a fresh PKCS#1 "RSA PRIVATE KEY" block; the other block
    // is untouched.
    let new_block = pem::encode(&pem::Pem::new("RSA PRIVATE KEY", new_der)).into_bytes();
    let mut expected = new_block;
    expected.extend_from_slice(&cert_block);
    assert_eq!(
        fs.read_file(&b"/etc/kubernetes/bundle.pem".to_vec()).unwrap(),
        expected
    );

    // Both signees report the new key's fingerprint.
    for signee in &node.signees {
        assert_eq!(signee.signed_by, new_spki);
    }
}

#[test]
fn regenerate_keeps_the_paired_public_key_in_step() {
    let (old_der, old_spki) = fresh_rsa_der(512);
    let (new_der, new_spki) = fresh_rsa_der(512);
    let mut pool = RsaKeyPool::new();
    pool.add(new_der).unwrap();

    let mut registry = vec![DistributedPublicKey {
        key: PublicKey::Rsa(old_spki),
        regenerated: false,
    }];
    let mut node = DistributedPrivateKey {
        key: PrivateKey::Rsa(old_der),
        locations: Locations(Vec::new()),
        signees: Vec::new(),
        associated_distributed_public_key: Some(0),
        regenerated: false,
    };

    let rules = CnSanReplaceRules { rules: Vec::new() };
    node.regenerate(&mut pool, &rules, &mut registry).unwrap();

    assert_eq!(registry[0].key, PublicKey::Rsa(new_spki));
    assert!(registry[0].regenerated);
}

#[test]
fn summary_renders_count_signees_and_association() {
    let node = DistributedPrivateKey {
        key: PrivateKey::Ec(b"k".to_vec()),
        locations: Locations(vec![
            Location::Filesystem(FileLocation {
                path: b"/a".to_vec(),
                content_location: FileContentLocation::Yaml(b"p".to_vec()),
            }),
            Location::Filesystem(FileLocation {
                path: b"/b".to_vec(),
                content_location: FileContentLocation::Yaml(b"p".to_vec()),
            }),
        ]),
        signees: vec![Signee {
            name: b"alpha".to_vec(),
            signed_by: b"s".to_vec(),
        }],
        associated_distributed_public_key: Some(3),
        regenerated: false,
    };

    let expected =
        b"Standalone priv 002 locations file:/a file:/b\n- alpha\n* Associated public key at 3\n";
    assert_eq!(node.summary(), expected.to_vec());
}
