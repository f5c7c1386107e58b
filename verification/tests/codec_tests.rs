use cluster_crypto::errors::Error;
use cluster_crypto::file_utils::{
    emit_json, emit_yaml, parse_document, parse_json_resource, parse_yaml_resource,
    rewrite_value_at_path, YamlResource,
};
use cluster_crypto::keys::{key_pem, PrivateKey};
use cluster_crypto::pem_utils::{join_blocks, parse_pem_bundle, pem_bundle_replace_pem_at_index};

#[test]
fn pem_bundle_splits_into_its_blocks_and_rejoins() {
    let block_a = pem::encode(&pem::Pem::new("CERTIFICATE", b"one".as_slice())).into_bytes();
    let block_b = pem::encode(&pem::Pem::new("RSA PRIVATE KEY", b"two".as_slice())).into_bytes();
    let mut bundle = block_a.clone();
    bundle.extend_from_slice(&block_b);

    let blocks = parse_pem_bundle(&bundle).unwrap();
    assert_eq!(blocks.len(), 2);
    assert_eq!(blocks[0], block_a);
    assert_eq!(blocks[1], block_b);
    assert_eq!(join_blocks(&blocks), bundle);
}

#[test]
fn pem_bundle_rejects_stray_content() {
    assert!(parse_pem_bundle(&b"garbage".to_vec()).is_none());
    let mut with_prefix = b"junk\n".to_vec();
    with_prefix
        .extend_from_slice(&pem::encode(&pem::Pem::new("CERTIFICATE", b"x".as_slice())).into_bytes());
    assert!(parse_pem_bundle(&with_prefix).is_none());
}

#[test]
fn pem_replace_keeps_the_other_blocks_byte_identical() {
    let block_a = pem::encode(&pem::Pem::new("CERTIFICATE", b"one".as_slice())).into_bytes();
    let block_b = pem::encode(&pem::Pem::new("CERTIFICATE", b"two".as_slice())).into_bytes();
    let block_c = pem::encode(&pem::Pem::new("CERTIFICATE", b"three".as_slice())).into_bytes();
    let mut bundle = block_a.clone();
    bundle.extend_from_slice(&block_b);
    bundle.extend_from_slice(&block_c);

    let fresh = pem::encode(&pem::Pem::new("EC PRIVATE KEY", b"new".as_slice())).into_bytes();
    let replaced = pem_bundle_replace_pem_at_index(&bundle, 1, &fresh).unwrap();

    let mut expected = block_a;
    expected.extend_from_slice(&fresh);
    expected.extend_from_slice(&block_c);
    assert_eq!(replaced, expected);

    assert_eq!(
        pem_bundle_replace_pem_at_index(&bundle, 3, &fresh),
        Err(Error::PemBundleIndexOutOfRange)
    );
    assert_eq!(
        pem_bundle_replace_pem_at_index(&b"nope".to_vec(), 0, &fresh),
        Err(Error::CannotCommitNonPem)
    );
}

#[test]
fn yaml_text_parses_back_to_the_same_entries() {
    let text = b"kind: \"Secret\"\ntls.key: \"line one\\nline two\"\n".to_vec();
    let resource = parse_yaml_resource(&text).unwrap();
    assert_eq!(resource.entries.len(), 2);
    assert_eq!(resource.entries[0].key, b"kind".to_vec());
    assert_eq!(resource.entries[0].value, b"Secret".to_vec());
    assert_eq!(resource.entries[1].key, b"tls.key".to_vec());
    assert_eq!(resource.entries[1].value, b"line one\nline two".to_vec());

    // Emitting and re-parsing is the identity on the entries.
    let emitted = emit_yaml(&resource);
    assert_eq!(emitted, text);
    let reparsed = parse_yaml_resource(&emitted).unwrap();
    assert_eq!(reparsed.entries.len(), 2);
    assert_eq!(reparsed.entries[1].value, b"line one\nline two".to_vec());
}

#[test]
fn yaml_parse_rejects_what_is_not_a_flat_document() {
    assert!(parse_yaml_resource(&b"no colon here\n".to_vec()).is_err());
    assert!(parse_yaml_resource(&b"key: unquoted\n".to_vec()).is_err());
    assert!(parse_yaml_resource(&b"key: \"unterminated\n".to_vec()).is_err());
    // The empty document is a valid, empty mapping.
    assert!(parse_yaml_resource(&Vec::new()).unwrap().entries.is_empty());
}

#[test]
fn json_encoding_escapes_and_separates_members() {
    let resource = parse_yaml_resource(&b"a: \"1\"\nb: \"x\\\"y\"\n".to_vec()).unwrap();
    assert_eq!(emit_json(&resource), b"{\"a\":\"1\",\"b\":\"x\\\"y\"}".to_vec());

    let empty = parse_yaml_resource(&Vec::new()).unwrap();
    assert_eq!(emit_json(&empty), b"{}".to_vec());
}

#[test]
fn rewrite_replaces_exactly_the_targeted_path() {
    let resource = parse_yaml_resource(&b"a: \"1\"\nb: \"2\"\n".to_vec()).unwrap();
    let rewritten = rewrite_value_at_path(resource, &b"b".to_vec(), &b"9".to_vec()).unwrap();
    assert_eq!(emit_yaml(&rewritten), b"a: \"1\"\nb: \"9\"\n".to_vec());

    let resource2 = parse_yaml_resource(&b"a: \"1\"\n".to_vec()).unwrap();
    let missing = rewrite_value_at_path(resource2, &b"zz".to_vec(), &b"9".to_vec());
    assert!(matches!(missing, Err(Error::YamlPathMissing)));
}

#[test]
fn key_pem_labels_match_the_key_family() {
    let ec = key_pem(&PrivateKey::Ec(b"material".to_vec()));
    let expected_ec = pem::encode(&pem::Pem::new("EC PRIVATE KEY", b"material".as_slice()))
        .into_bytes();
    assert_eq!(ec, expected_ec);

    let rsa_block = key_pem(&PrivateKey::Rsa(b"material".to_vec()));
    let expected_rsa = pem::encode(&pem::Pem::new("RSA PRIVATE KEY", b"material".as_slice()))
        .into_bytes();
    assert_eq!(rsa_block, expected_rsa);
}

#[test]
fn json_text_parses_back_to_the_same_entries() {
    let resource = parse_yaml_resource(&b"kind: \"Secret\"\ntls.key: \"a\\nb\"\n".to_vec()).unwrap();
    let emitted = emit_json(&resource);
    let reparsed = parse_json_resource(&emitted).unwrap();
    assert_eq!(reparsed.entries.len(), 2);
    assert_eq!(reparsed.entries[0].key, b"kind".to_vec());
    assert_eq!(reparsed.entries[0].value, b"Secret".to_vec());
    assert_eq!(reparsed.entries[1].key, b"tls.key".to_vec());
    assert_eq!(reparsed.entries[1].value, b"a\nb".to_vec());

    assert!(parse_json_resource(&b"{}".to_vec()).unwrap().entries.is_empty());
    assert!(parse_json_resource(&b"{\"a\":\"1\"".to_vec()).is_err());
    assert!(parse_json_resource(&b"{\"a\":\"1\"}x".to_vec()).is_err());
    assert!(parse_json_resource(&b"not json".to_vec()).is_err());
}

#[test]
fn parse_document_dispatches_on_the_leading_brace() {
    let json = parse_document(&b"{\"a\":\"1\"}".to_vec()).unwrap();
    assert_eq!(json.entries[0].key, b"a".to_vec());
    let yaml = parse_document(&b"a: \"1\"\n".to_vec()).unwrap();
    assert_eq!(yaml.entries[0].value, b"1".to_vec());
}

#[test]
fn empty_yaml_resource_emits_nothing() {
    let empty = YamlResource { entries: Vec::new() };
    assert_eq!(emit_yaml(&empty), Vec::<u8>::new());
}
