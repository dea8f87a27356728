use pdf_to_markdown::auth::{
    delete_credential, derive_key, get_credential, ioreg_uuid, list_credentials, open_credentials,
    registry_guid,
    provider_key, seal_credentials, seal_with_nonce, set_credential, CredentialError, CredentialStore, NONCE_SIZE,
};
use pdf_to_markdown::cache::{is_cache_disabled, CacheEntry, CacheManager, CACHE_DISABLE_ENV_VAR};
use pdf_to_markdown::hash::{sha256_hex_of, to_hex_lower};

#[test]
fn cache_keys() {
    assert_eq!(CacheManager::generate_cache_key("h", "paddleocr", &None), "h:paddleocr");
    assert_eq!(
        CacheManager::generate_cache_key("h", "zhipu/lite", &Some(vec![(1, 5), (10, 10)])),
        "h:zhipu/lite:1-5,10-10"
    );
    assert_eq!(CacheManager::generate_cache_key("h", "p", &Some(vec![])), "h:p:");
}

#[test]
fn hashes_are_sha256_hex() {
    assert_eq!(
        CacheManager::compute_url_hash("abc"),
        "ba7816bf8f01cfea414140de5dae2223b00361a396177a9cb410ff61f20015ad"
    );
    assert_eq!(
        CacheManager::compute_file_hash(b""),
        "e3b0c44298fc1c149afbf4c8996fb92427ae41e4649b934ca495991b7852b855"
    );
    assert_eq!(CacheManager::image_cache_name(b"abc"), sha256_hex_of(b"abc"));
    assert_eq!(to_hex_lower(&[0x00, 0xab, 0x10, 0xff]), "00ab10ff");
}

#[test]
fn cache_switch() {
    assert_eq!(CACHE_DISABLE_ENV_VAR, "PDF_TO_MARKDOWN_NO_CACHE");
    assert!(is_cache_disabled(Some("1")));
    assert!(is_cache_disabled(Some("TRUE")));
    assert!(is_cache_disabled(Some("True")));
    assert!(!is_cache_disabled(Some("0")));
    assert!(!is_cache_disabled(Some("yes")));
    assert!(!is_cache_disabled(None));
}

#[test]
fn cache_get_after_put() {
    let mut c = CacheManager::new(false);
    assert!(c.get("h", "paddleocr", &None).is_none());
    c.put(
        "h".to_string(),
        "doc.pdf".to_string(),
        "paddleocr".to_string(),
        None,
        "# md".to_string(),
        vec![("a.png".to_string(), "abc".to_string())],
    );
    let e = c.get("h", "paddleocr", &None).unwrap();
    assert_eq!(e.markdown, "# md");
    assert_eq!(e.input, "doc.pdf");
    assert_eq!(e.images, vec![("a.png".to_string(), "abc".to_string())]);
    // other ranges and providers are other keys
    assert!(c.get("h", "paddleocr", &Some(vec![(1, 1)])).is_none());
    assert!(c.get("h", "zhipu/lite", &None).is_none());
    assert_eq!(c.entry_count(), 1);
}

#[test]
fn cache_entries_separate_providers_and_ranges() {
    let mut c = CacheManager::new(false);
    c.put("h".into(), "x".into(), "zhipu/lite".into(), Some(vec![(1, 2)]), "one".into(), vec![]);
    assert!(c.get("h", "zhipu/lite", &None).is_none());
    assert!(c.get("h", "zhipu/lite", &Some(vec![(1, 2), (3, 3)])).is_none());
    assert!(c.get("h", "zhipu/lite", &Some(vec![(12, 2)])).is_none());
    assert!(c.get("h", "paddleocr", &Some(vec![(1, 2)])).is_none());
    assert_eq!(c.get("h", "zhipu/lite", &Some(vec![(1, 2)])).unwrap().markdown, "one");
}

#[test]
fn cache_put_replaces_and_keeps_others() {
    let mut c = CacheManager::new(false);
    c.put("a".into(), "x".into(), "p".into(), None, "one".into(), vec![]);
    c.put("b".into(), "y".into(), "p".into(), None, "two".into(), vec![]);
    c.put("a".into(), "x".into(), "p".into(), None, "three".into(), vec![]);
    assert_eq!(c.entry_count(), 2);
    assert_eq!(c.get("a", "p", &None).unwrap().markdown, "three");
    assert_eq!(c.get("b", "p", &None).unwrap().markdown, "two");
}

#[test]
fn disabled_cache_answers_nothing() {
    let mut c = CacheManager::new(true);
    c.put("a".into(), "x".into(), "p".into(), None, "one".into(), vec![]);
    assert!(c.get("a", "p", &None).is_none());
    assert_eq!(c.entry_count(), 0);
    assert!(c.is_disabled());
}

#[test]
fn cache_from_entries_later_wins() {
    let e1 = CacheEntry::new("h".into(), "i".into(), "p".into(), None, "first".into(), vec![]);
    let e2 = CacheEntry::new("h".into(), "i".into(), "p".into(), None, "second".into(), vec![]);
    let c = CacheManager::from_entries(vec![("h:p".into(), e1), ("h:p".into(), e2)], false);
    assert_eq!(c.entry_count(), 1);
    assert_eq!(c.get("h", "p", &None).unwrap().markdown, "second");
    assert_eq!(c.index_entries().len(), 1);
}

#[test]
fn provider_keys() {
    assert_eq!(provider_key("zhipu/lite"), "zhipu");
    assert_eq!(provider_key("mineru"), "mineru");
    assert_eq!(provider_key("paddleocr"), "paddleocr");
    assert_eq!(provider_key("other"), "paddleocr");
}

#[test]
fn credentials_get_after_set_and_delete() {
    let mut s = CredentialStore::new();
    assert!(s.is_empty());
    assert_eq!(get_credential(&s, "zhipu"), None);
    set_credential(&mut s, "zhipu", "k1");
    set_credential(&mut s, "paddleocr", "k2");
    assert_eq!(get_credential(&s, "zhipu"), Some("k1".to_string()));
    set_credential(&mut s, "zhipu", "k3");
    assert_eq!(get_credential(&s, "zhipu"), Some("k3".to_string()));
    let mut keys = list_credentials(&s);
    keys.sort();
    assert_eq!(keys, vec!["paddleocr".to_string(), "zhipu".to_string()]);
    assert_eq!(delete_credential(&mut s, "zhipu"), Ok(()));
    assert_eq!(get_credential(&s, "zhipu"), None);
    let e = delete_credential(&mut s, "zhipu").unwrap_err();
    assert_eq!(e, CredentialError::NotFound("zhipu".to_string()));
    assert_eq!(e.message(), "No stored credential found for 'zhipu'");
    assert_eq!(get_credential(&s, "paddleocr"), Some("k2".to_string()));
}

#[test]
fn credential_store_from_entries() {
    let s = CredentialStore::from_entries(vec![
        ("a".to_string(), "1".to_string()),
        ("b".to_string(), "2".to_string()),
        ("a".to_string(), "3".to_string()),
    ]);
    assert_eq!(s.get("a"), Some("3".to_string()));
    assert_eq!(s.get("b"), Some("2".to_string()));
    assert_eq!(s.entries().len(), 2);
}

#[test]
fn key_derivation() {
    let k = derive_key("  abc \n");
    assert_eq!(k.len(), 32);
    assert_eq!(k, derive_key("abc"));
    assert_ne!(k, derive_key("abd"));
    let mut data = b"pdf-to-markdown-credential-v1".to_vec();
    data.extend_from_slice(b"abc");
    assert_eq!(to_hex_lower(&k), sha256_hex_of(&data));
}

#[test]
fn sealed_credentials_open_back() {
    let key = derive_key("machine");
    let plain = br#"{"entries":{"zhipu":"secret"}}"#;
    let sealed = seal_credentials(plain, &key).unwrap();
    assert_eq!(sealed.len(), NONCE_SIZE + plain.len() + 16);
    assert_eq!(open_credentials(&sealed, &key).unwrap(), plain.to_vec());
    let other = derive_key("other machine");
    assert_eq!(open_credentials(&sealed, &other), Err(CredentialError::DecryptFailed));
    let mut tampered = sealed.clone();
    let last = tampered.len() - 1;
    tampered[last] ^= 1;
    assert_eq!(open_credentials(&tampered, &key), Err(CredentialError::DecryptFailed));
    assert_eq!(open_credentials(&sealed[..5], &key), Err(CredentialError::Corrupted));
    // two seals use fresh nonces
    let again = seal_credentials(plain, &key).unwrap();
    assert_ne!(again[..NONCE_SIZE], sealed[..NONCE_SIZE]);
}

#[test]
fn sealing_with_a_given_nonce() {
    let key = derive_key("machine");
    let plain = br#"{"entries":{"zhipu":"secret"}}"#;
    let nonce = [7u8; 12];
    let sealed = seal_with_nonce(plain, &key, &nonce).unwrap();
    assert_eq!(sealed[..NONCE_SIZE], nonce);
    assert_eq!(sealed.len(), NONCE_SIZE + plain.len() + 16);
    assert_ne!(sealed[NONCE_SIZE..NONCE_SIZE + plain.len()], plain[..]);
    assert_eq!(open_credentials(&sealed, &key).unwrap(), plain.to_vec());
    assert_eq!(seal_with_nonce(plain, &key, &nonce).unwrap(), sealed);
    let other = seal_with_nonce(plain, &key, &[8u8; 12]).unwrap();
    assert_ne!(other[NONCE_SIZE..], sealed[NONCE_SIZE..]);
}

#[test]
fn sealing_matches_the_gcm_test_vector() {
    // AES-256-GCM, zero key and nonce, sixteen zero bytes
    let sealed = seal_with_nonce(&[0u8; 16], &[0u8; 32], &[0u8; 12]).unwrap();
    let expected: Vec<u8> = [
        0xce, 0xa7, 0x40, 0x3d, 0x4d, 0x60, 0x6b, 0x6e, 0x07, 0x4e, 0xc5, 0xd3, 0xba, 0xf3, 0x9d,
        0x18, 0xd0, 0xd1, 0xc8, 0xa7, 0x99, 0x99, 0x6b, 0xf0, 0x26, 0x5b, 0x98, 0xb5, 0xd4, 0x8a,
        0xb9, 0x19,
    ]
    .to_vec();
    assert_eq!(sealed[..NONCE_SIZE], [0u8; 12]);
    assert_eq!(sealed[NONCE_SIZE..].to_vec(), expected);
}

#[test]
fn machine_ids_from_command_output() {
    let ioreg = "+-o Root\n  | {\n  |   \"IOPlatformSerialNumber\" = \"X\"\n  |   \"IOPlatformUUID\" = \"1234-ABCD\"\n  | }\n";
    // the first quoted text on the matching line is the key's own name
    assert_eq!(ioreg_uuid(ioreg), Some("IOPlatformUUID".to_string()));
    let ioreg2 = "\"IOPlatformUUID\" = \"1234-ABCD\"\r\n";
    assert_eq!(ioreg_uuid(ioreg2), Some("IOPlatformUUID".to_string()));
    assert_eq!(ioreg_uuid("IOPlatformUUID = 12"), None);
    assert_eq!(ioreg_uuid("nothing here"), None);
    let reg = "\r\nHKEY_LOCAL_MACHINE\\SOFTWARE\\Microsoft\\Cryptography\r\n    MachineGuid    REG_SZ    5a1b-77\r\n\r\n";
    assert_eq!(registry_guid(reg), Some("5a1b-77".to_string()));
    assert_eq!(registry_guid("no value"), None);
}
