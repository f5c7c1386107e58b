use cluster_crypto::distributed_private_key::DistributedPrivateKey;
use cluster_crypto::errors::Error;
use cluster_crypto::filesystem::Filesystem;
use cluster_crypto::k8s_etcd::InMemoryK8sEtcd;
use cluster_crypto::keys::{key_pem, PrivateKey};
use cluster_crypto::locations::{
    FileContentLocation, FileLocation, K8sLocation, Location, Locations, LocationValueType,
    PemLocationInfo,
};

fn escape(bytes: &[u8]) -> Vec<u8> {
    let mut out = Vec::new();
    for &b in bytes {
        match b {
            b'\\' => out.extend_from_slice(b"\\\\"),
            b'"' => out.extend_from_slice(b"\\\""),
            b'\n' => out.extend_from_slice(b"\\n"),
            b'\r' => out.extend_from_slice(b"\\r"),
            b'\t' => out.extend_from_slice(b"\\t"),
            other => out.push(other),
        }
    }
    out
}

fn yaml_line(key: &[u8], raw_value: &[u8]) -> Vec<u8> {
    let mut line = key.to_vec();
    line.extend_from_slice(b": \"");
    line.extend_from_slice(&escape(raw_value));
    line.extend_from_slice(b"\"\n");
    line
}

fn raw_pem_node(path: &[u8], index: usize, key: PrivateKey) -> DistributedPrivateKey {
    DistributedPrivateKey {
        key,
        locations: Locations(vec![Location::Filesystem(FileLocation {
            path: path.to_vec(),
            content_location: FileContentLocation::Raw(LocationValueType::Pem(PemLocationInfo {
                pem_bundle_index: index,
            })),
        })]),
        signees: Vec::new(),
        associated_distributed_public_key: None,
        regenerated: false,
    }
}

#[test]
fn commit_replaces_only_the_indexed_pem_block() {
    let block_a = pem::encode(&pem::Pem::new("CERTIFICATE", b"aaaa".as_slice())).into_bytes();
    let block_b = pem::encode(&pem::Pem::new("CERTIFICATE", b"bbbb".as_slice())).into_bytes();
    let mut bundle = block_a.clone();
    bundle.extend_from_slice(&block_b);

    let node = raw_pem_node(b"/etc/kubernetes/certs.pem", 1, PrivateKey::Ec(b"keybytes".to_vec()));
    let mut etcd = InMemoryK8sEtcd::new();
    let mut fs = Filesystem::new();
    fs.write_file(&b"/etc/kubernetes/certs.pem".to_vec(), bundle);

    node.commit_to_etcd_and_disk(&mut etcd, &mut fs).unwrap();

    let expected_block = pem::encode(&pem::Pem::new("EC PRIVATE KEY", b"keybytes".as_slice()))
        .into_bytes();
    let mut expected = block_a;
    expected.extend_from_slice(&expected_block);
    assert_eq!(
        fs.read_file(&b"/etc/kubernetes/certs.pem".to_vec()).unwrap(),
        expected
    );
}

#[test]
fn commit_rejects_non_pem_content_and_writes_nothing() {
    let node = raw_pem_node(b"/etc/pki/key.pem", 0, PrivateKey::Ec(b"key".to_vec()));
    let mut etcd = InMemoryK8sEtcd::new();
    let mut fs = Filesystem::new();
    fs.write_file(&b"/etc/pki/key.pem".to_vec(), b"this is not a bundle".to_vec());

    let outcome = node.commit_to_etcd_and_disk(&mut etcd, &mut fs);

    assert_eq!(outcome, Err(Error::CannotCommitNonPem));
    assert_eq!(
        fs.read_file(&b"/etc/pki/key.pem".to_vec()).unwrap(),
        b"this is not a bundle".to_vec()
    );
}

#[test]
fn commit_rejects_a_location_whose_declared_shape_is_not_pem() {
    let mut node = raw_pem_node(b"/etc/pki/key.pem", 0, PrivateKey::Ec(b"key".to_vec()));
    node.locations = Locations(vec![Location::Filesystem(FileLocation {
        path: b"/etc/pki/key.pem".to_vec(),
        content_location: FileContentLocation::Raw(LocationValueType::Unknown),
    })]);
    let mut etcd = InMemoryK8sEtcd::new();
    let mut fs = Filesystem::new();

    assert_eq!(
        node.commit_to_etcd_and_disk(&mut etcd, &mut fs),
        Err(Error::CannotCommitNonPem)
    );
}

#[test]
fn commit_rejects_an_index_past_the_last_block() {
    let bundle = pem::encode(&pem::Pem::new("CERTIFICATE", b"aaaa".as_slice())).into_bytes();
    let node = raw_pem_node(b"/f.pem", 3, PrivateKey::Ec(b"key".to_vec()));
    let mut etcd = InMemoryK8sEtcd::new();
    let mut fs = Filesystem::new();
    fs.write_file(&b"/f.pem".to_vec(), bundle);

    assert_eq!(
        node.commit_to_etcd_and_disk(&mut etcd, &mut fs),
        Err(Error::PemBundleIndexOutOfRange)
    );
}

#[test]
fn commit_store_location_reencodes_the_whole_resource_as_json() {
    let key = PrivateKey::Ec(b"fresh".to_vec());
    let node = DistributedPrivateKey {
        key: key.clone(),
        locations: Locations(vec![Location::K8s(K8sLocation {
            resource_key: b"/kubernetes.io/secrets/openshift/signer".to_vec(),
            yaml_path: b"tls.key".to_vec(),
        })]),
        signees: Vec::new(),
        associated_distributed_public_key: None,
        regenerated: false,
    };

    // The fetched resource is YAML-shaped text.
    let mut resource = yaml_line(b"kind", b"Secret");
    resource.extend_from_slice(&yaml_line(b"tls.key", b"OLD"));
    let mut etcd = InMemoryK8sEtcd::new();
    etcd.put(
        &b"/kubernetes.io/secrets/openshift/signer".to_vec(),
        resource,
    );
    let mut fs = Filesystem::new();

    node.commit_to_etcd_and_disk(&mut etcd, &mut fs).unwrap();

    let pem_text = key_pem(&key);
    let mut expected = b"{\"kind\":\"Secret\",\"tls.key\":\"".to_vec();
    expected.extend_from_slice(&escape(&pem_text));
    expected.extend_from_slice(b"\"}");
    assert_eq!(
        etcd.get(&b"/kubernetes.io/secrets/openshift/signer".to_vec())
            .unwrap(),
        expected
    );
}

#[test]
fn commit_filesystem_yaml_location_keeps_yaml_encoding() {
    let key = PrivateKey::Ec(b"fresh".to_vec());
    let node = DistributedPrivateKey {
        key: key.clone(),
        locations: Locations(vec![Location::Filesystem(FileLocation {
            path: b"/etc/kubernetes/secret.yaml".to_vec(),
            content_location: FileContentLocation::Yaml(b"tls.key".to_vec()),
        })]),
        signees: Vec::new(),
        associated_distributed_public_key: None,
        regenerated: false,
    };

    let mut content = yaml_line(b"kind", b"Secret");
    content.extend_from_slice(&yaml_line(b"tls.key", b"OLD"));
    content.extend_from_slice(&yaml_line(b"other", b"kept"));
    let mut etcd = InMemoryK8sEtcd::new();
    let mut fs = Filesystem::new();
    fs.write_file(&b"/etc/kubernetes/secret.yaml".to_vec(), content);

    node.commit_to_etcd_and_disk(&mut etcd, &mut fs).unwrap();

    let pem_text = key_pem(&key);
    let mut expected = yaml_line(b"kind", b"Secret");
    expected.extend_from_slice(&yaml_line(b"tls.key", &pem_text));
    expected.extend_from_slice(&yaml_line(b"other", b"kept"));
    assert_eq!(
        fs.read_file(&b"/etc/kubernetes/secret.yaml".to_vec()).unwrap(),
        expected
    );
}

#[test]
fn commit_two_store_locations_into_one_resource_succeeds() {
    // The first write re-encodes the resource as JSON; the second location's
    // fetch must parse that JSON form and still find its path.
    let key = PrivateKey::Ec(b"fresh".to_vec());
    let node = DistributedPrivateKey {
        key: key.clone(),
        locations: Locations(vec![
            Location::K8s(K8sLocation {
                resource_key: b"/kubernetes.io/secrets/signer".to_vec(),
                yaml_path: b"tls.key".to_vec(),
            }),
            Location::K8s(K8sLocation {
                resource_key: b"/kubernetes.io/secrets/signer".to_vec(),
                yaml_path: b"backup.key".to_vec(),
            }),
        ]),
        signees: Vec::new(),
        associated_distributed_public_key: None,
        regenerated: false,
    };

    let mut resource = yaml_line(b"tls.key", b"OLD");
    resource.extend_from_slice(&yaml_line(b"backup.key", b"OLD"));
    let mut etcd = InMemoryK8sEtcd::new();
    etcd.put(&b"/kubernetes.io/secrets/signer".to_vec(), resource);
    let mut fs = Filesystem::new();

    node.commit_to_etcd_and_disk(&mut etcd, &mut fs).unwrap();

    let pem_text = escape(&key_pem(&key));
    let mut expected = b"{\"tls.key\":\"".to_vec();
    expected.extend_from_slice(&pem_text);
    expected.extend_from_slice(b"\",\"backup.key\":\"");
    expected.extend_from_slice(&pem_text);
    expected.extend_from_slice(b"\"}");
    assert_eq!(
        etcd.get(&b"/kubernetes.io/secrets/signer".to_vec()).unwrap(),
        expected
    );
}

#[test]
fn commit_accepts_a_natively_json_encoded_store_resource() {
    let key = PrivateKey::Ec(b"fresh".to_vec());
    let node = DistributedPrivateKey {
        key: key.clone(),
        locations: Locations(vec![Location::K8s(K8sLocation {
            resource_key: b"/kubernetes.io/secrets/signer".to_vec(),
            yaml_path: b"tls.key".to_vec(),
        })]),
        signees: Vec::new(),
        associated_distributed_public_key: None,
        regenerated: false,
    };
    let mut etcd = InMemoryK8sEtcd::new();
    etcd.put(
        &b"/kubernetes.io/secrets/signer".to_vec(),
        b"{\"kind\":\"Secret\",\"tls.key\":\"OLD\"}".to_vec(),
    );
    let mut fs = Filesystem::new();

    node.commit_to_etcd_and_disk(&mut etcd, &mut fs).unwrap();

    let mut expected = b"{\"kind\":\"Secret\",\"tls.key\":\"".to_vec();
    expected.extend_from_slice(&escape(&key_pem(&key)));
    expected.extend_from_slice(b"\"}");
    assert_eq!(
        etcd.get(&b"/kubernetes.io/secrets/signer".to_vec()).unwrap(),
        expected
    );
}

#[test]
fn commit_reports_a_missing_store_resource() {
    let node = DistributedPrivateKey {
        key: PrivateKey::Ec(b"k".to_vec()),
        locations: Locations(vec![Location::K8s(K8sLocation {
            resource_key: b"/absent".to_vec(),
            yaml_path: b"tls.key".to_vec(),
        })]),
        signees: Vec::new(),
        associated_distributed_public_key: None,
        regenerated: false,
    };
    let mut etcd = InMemoryK8sEtcd::new();
    let mut fs = Filesystem::new();
    assert_eq!(
        node.commit_to_etcd_and_disk(&mut etcd, &mut fs),
        Err(Error::EtcdResourceMissing)
    );
}

#[test]
fn commit_reports_a_missing_file() {
    let node = raw_pem_node(b"/absent.pem", 0, PrivateKey::Ec(b"k".to_vec()));
    let mut etcd = InMemoryK8sEtcd::new();
    let mut fs = Filesystem::new();
    assert_eq!(
        node.commit_to_etcd_and_disk(&mut etcd, &mut fs),
        Err(Error::FileMissing)
    );
}

#[test]
fn commit_reports_a_missing_yaml_path_and_malformed_yaml() {
    let node = DistributedPrivateKey {
        key: PrivateKey::Ec(b"k".to_vec()),
        locations: Locations(vec![Location::Filesystem(FileLocation {
            path: b"/doc.yaml".to_vec(),
            content_location: FileContentLocation::Yaml(b"tls.key".to_vec()),
        })]),
        signees: Vec::new(),
        associated_distributed_public_key: None,
        regenerated: false,
    };
    let mut etcd = InMemoryK8sEtcd::new();
    let mut fs = Filesystem::new();

    fs.write_file(&b"/doc.yaml".to_vec(), yaml_line(b"other", b"x"));
    assert_eq!(
        node.commit_to_etcd_and_disk(&mut etcd, &mut fs),
        Err(Error::YamlPathMissing)
    );

    fs.write_file(&b"/doc.yaml".to_vec(), b"not: yaml at all".to_vec());
    assert_eq!(
        node.commit_to_etcd_and_disk(&mut etcd, &mut fs),
        Err(Error::MalformedYaml)
    );
}
