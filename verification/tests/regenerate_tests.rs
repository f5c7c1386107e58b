use cluster_crypto::cnsanreplace::{CnSanReplace, CnSanReplaceRules};
use cluster_crypto::distributed_private_key::DistributedPrivateKey;
use cluster_crypto::distributed_public_key::DistributedPublicKey;
use cluster_crypto::errors::Error;
use cluster_crypto::keys::{derive_public_key, PrivateKey, PublicKey};
use cluster_crypto::locations::Locations;
use cluster_crypto::rsa_key_pool::RsaKeyPool;
use cluster_crypto::signee::Signee;

use rsa::pkcs1::EncodeRsaPrivateKey;
use rsa::pkcs8::EncodePublicKey;

fn fresh_rsa_der(bits: usize) -> (Vec<u8>, Vec<u8>) {
    let key = rsa::RsaPrivateKey::new(&mut rand::thread_rng(), bits).unwrap();
    let private_der = key.to_pkcs1_der().unwrap().as_bytes().to_vec();
    let public_spki = key
        .to_public_key()
        .to_public_key_der()
        .unwrap()
        .as_bytes()
        .to_vec();
    (private_der, public_spki)
}

fn empty_rules() -> CnSanReplaceRules {
    CnSanReplaceRules { rules: Vec::new() }
}

fn node_with(key: PrivateKey, signees: Vec<Signee>, assoc: Option<usize>) -> DistributedPrivateKey {
    DistributedPrivateKey {
        key,
        locations: Locations(Vec::new()),
        signees,
        associated_distributed_public_key: assoc,
        regenerated: false,
    }
}

#[test]
fn pool_add_recovers_nominal_bits_from_public_length() {
    let (private_der, public_spki) = fresh_rsa_der(512);
    let mut pool = RsaKeyPool::new();
    let bits = pool.add(private_der.clone()).unwrap();
    assert_eq!(bits, public_spki.len() * 8 - 304);
    let (drawn, handle) = pool.get(bits).unwrap();
    assert_eq!(drawn, private_der);
    assert_eq!(handle.public_der, public_spki);
    assert!(pool.get(bits).is_none());
}

#[test]
fn pool_add_rejects_garbage_material() {
    let mut pool = RsaKeyPool::new();
    assert_eq!(pool.add(vec![1, 2, 3]), Err(Error::DerivePublicKey));
}

#[test]
fn pool_add_rejects_a_key_too_small_to_size() {
    // A textbook-sized key: its public encoding is shorter than the fixed
    // overhead the size formula subtracts.
    let key = rsa::RsaPrivateKey::from_components(
        rsa::BigUint::from(3233u32),
        rsa::BigUint::from(17u32),
        rsa::BigUint::from(2753u32),
        vec![rsa::BigUint::from(61u32), rsa::BigUint::from(53u32)],
    )
    .unwrap();
    let tiny_der = key.to_pkcs1_der().unwrap().as_bytes().to_vec();
    let mut pool = RsaKeyPool::new();
    assert_eq!(pool.add(tiny_der), Err(Error::UnsupportedKeySize));
}

#[test]
fn regenerate_replaces_key_and_cascades() {
    let (old_der, old_spki) = fresh_rsa_der(512);
    let (new_der, new_spki) = fresh_rsa_der(512);
    assert_ne!(old_der, new_der);

    let mut pool = RsaKeyPool::new();
    pool.add(new_der.clone()).unwrap();

    let signees = vec![
        Signee {
            name: b"cert-a".to_vec(),
            signed_by: old_spki.clone(),
        },
        Signee {
            name: b"cert-b".to_vec(),
            signed_by: old_spki.clone(),
        },
    ];
    let mut registry = vec![DistributedPublicKey {
        key: PublicKey::Rsa(old_spki.clone()),
        regenerated: false,
    }];
    let mut node = node_with(PrivateKey::Rsa(old_der.clone()), signees, Some(0));

    node.regenerate(&mut pool, &empty_rules(), &mut registry)
        .unwrap();

    assert!(node.regenerated);
    match &node.key {
        PrivateKey::Rsa(der) => assert_eq!(der, &new_der),
        PrivateKey::Ec(_) => panic!("regeneration must produce RSA material"),
    }
    // Both signees report the new key's fingerprint.
    for signee in &node.signees {
        assert_eq!(signee.signed_by, new_spki);
    }
    // The associated public key holds the new key's public half.
    match &registry[0].key {
        PublicKey::Rsa(spki) => assert_eq!(spki, &new_spki),
        PublicKey::Ec(_) => panic!("associated public key must be RSA"),
    }
    assert!(registry[0].regenerated);
}

#[test]
fn regenerate_on_empty_pool_changes_nothing() {
    let (old_der, old_spki) = fresh_rsa_der(512);
    let mut pool = RsaKeyPool::new();
    let signees = vec![Signee {
        name: b"cert".to_vec(),
        signed_by: old_spki,
    }];
    let mut registry: Vec<DistributedPublicKey> = Vec::new();
    let mut node = node_with(PrivateKey::Rsa(old_der.clone()), signees, None);

    let outcome = node.regenerate(&mut pool, &empty_rules(), &mut registry);

    assert_eq!(outcome, Err(Error::RsaPoolEmpty));
    assert!(!node.regenerated);
    match &node.key {
        PrivateKey::Rsa(der) => assert_eq!(der, &old_der),
        PrivateKey::Ec(_) => panic!("key family must be unchanged"),
    }
    assert_eq!(node.signees[0].name, b"cert".to_vec());
}

#[test]
fn regenerate_stops_on_signer_mismatch() {
    let (old_der, _old_spki) = fresh_rsa_der(512);
    let (new_der, _) = fresh_rsa_der(512);
    let mut pool = RsaKeyPool::new();
    pool.add(new_der).unwrap();
    let signees = vec![Signee {
        name: b"cert".to_vec(),
        signed_by: b"someone else entirely".to_vec(),
    }];
    let mut registry: Vec<DistributedPublicKey> = Vec::new();
    let mut node = node_with(PrivateKey::Rsa(old_der.clone()), signees, None);

    let outcome = node.regenerate(&mut pool, &empty_rules(), &mut registry);

    assert_eq!(outcome, Err(Error::SigneeSignerMismatch));
    assert!(!node.regenerated);
    assert_eq!(node.signees[0].signed_by, b"someone else entirely".to_vec());
}

#[test]
fn regenerate_rewrites_subjects_through_rules() {
    let (old_der, old_spki) = fresh_rsa_der(512);
    let (new_der, _) = fresh_rsa_der(512);
    let mut pool = RsaKeyPool::new();
    pool.add(new_der).unwrap();
    let rules = CnSanReplaceRules {
        rules: vec![CnSanReplace {
            source: b"api.old.example".to_vec(),
            replacement: b"api.new.example".to_vec(),
        }],
    };
    let signees = vec![
        Signee {
            name: b"api.old.example".to_vec(),
            signed_by: old_spki.clone(),
        },
        Signee {
            name: b"untouched.example".to_vec(),
            signed_by: old_spki,
        },
    ];
    let mut registry: Vec<DistributedPublicKey> = Vec::new();
    let mut node = node_with(PrivateKey::Rsa(old_der), signees, None);

    node.regenerate(&mut pool, &rules, &mut registry).unwrap();

    assert_eq!(node.signees[0].name, b"api.new.example".to_vec());
    assert_eq!(node.signees[1].name, b"untouched.example".to_vec());
}

// SEC1 DER of a toy EC private key with an embedded public point [0x01, 0x02].
fn toy_sec1_der() -> Vec<u8> {
    vec![
        0x30, 0x10, 0x02, 0x01, 0x01, 0x04, 0x04, 0xaa, 0xbb, 0xcc, 0xdd, 0xa1, 0x05, 0x03, 0x03,
        0x00, 0x01, 0x02,
    ]
}

#[test]
fn ec_public_half_is_the_embedded_point() {
    let key = PrivateKey::Ec(toy_sec1_der());
    match derive_public_key(&key).unwrap() {
        PublicKey::Ec(point) => assert_eq!(point, vec![0x01, 0x02]),
        PublicKey::Rsa(_) => panic!("EC key must derive an EC public key"),
    }
}

#[test]
fn regenerate_of_ec_key_queries_the_pool_with_size_zero() {
    // An elliptic-curve key computes bit size zero; a pool holding only
    // real RSA material has no zero-sized bucket, so the draw fails.
    let (rsa_der, _) = fresh_rsa_der(512);
    let mut pool = RsaKeyPool::new();
    pool.add(rsa_der).unwrap();
    let mut registry: Vec<DistributedPublicKey> = Vec::new();
    let mut node = node_with(
        PrivateKey::Ec(toy_sec1_der()),
        vec![Signee {
            name: b"cert".to_vec(),
            signed_by: vec![0x01, 0x02],
        }],
        None,
    );

    let outcome = node.regenerate(&mut pool, &empty_rules(), &mut registry);

    assert_eq!(outcome, Err(Error::RsaPoolEmpty));
    assert!(!node.regenerated);
}

#[test]
fn derive_public_key_fails_on_garbage() {
    assert_eq!(
        derive_public_key(&PrivateKey::Rsa(vec![0, 1, 2])),
        Err(Error::DerivePublicKey)
    );
    assert_eq!(
        derive_public_key(&PrivateKey::Ec(vec![0, 1, 2])),
        Err(Error::DerivePublicKey)
    );
}
