use base64::Engine;
use chacha20poly1305::aead::{Aead, KeyInit};
use chacha20poly1305::{ChaCha20Poly1305, Key, Nonce};
use relay::cred_encrypt::{decrypt_password, encrypt_password, encrypt_password_with_nonce, key_file_bytes, read_key_file, CredError, KeyFile};
use relay::local_proxy::{ct_str_eq, AuthKey};
use relay::proxy_instance::{ProxyInstance, SavedInstance};
use relay::proxy_type::{ProxyMode, ProxyProtocol};

fn b64(bytes: &[u8]) -> String {
    base64::engine::general_purpose::STANDARD.encode(bytes)
}

fn seal(key: &[u8; 32], nonce: &[u8; 12], plain: &[u8]) -> Vec<u8> {
    ChaCha20Poly1305::new(Key::from_slice(key)).encrypt(Nonce::from_slice(nonce), plain).unwrap()
}

#[test]
fn stored_password_is_standard_base64_of_nonce_and_sealed_text() {
    let key = [1u8; 32];
    let nonce = [2u8; 12];
    let stored = encrypt_password_with_nonce(&key, &nonce, "payload").unwrap();
    let mut expected = nonce.to_vec();
    expected.extend_from_slice(&seal(&key, &nonce, b"payload"));
    assert_eq!(stored, b64(&expected));
    // what another implementation of the same scheme stored reads back
    let mut other = [8u8; 12].to_vec();
    other.extend_from_slice(&seal(&key, &[8u8; 12], "Grüße".as_bytes()));
    assert_eq!(decrypt_password(&key, &b64(&other)), Ok("Grüße".to_string()));
}

#[test]
fn credential_comparison() {
    let key = AuthKey::new();
    assert!(ct_str_eq(&key, "alice", "alice"));
    assert!(!ct_str_eq(&key, "alice", "alicf"));
    assert!(!ct_str_eq(&key, "alice", "alic"));
    assert!(ct_str_eq(&key, "", ""));
}

#[test]
fn instance_identifiers_keep_their_text() {
    let text = "67e55044-10b1-426f-9247-bb680e5fe0c8";
    let key = [4u8; 32];
    let saved = SavedInstance {
        id: text.to_string(),
        name: "n".to_string(),
        bind_addr: "127.0.0.1".to_string(),
        port: 1080,
        mode: ProxyMode::Auto,
        local_protocol: ProxyProtocol::Socks5,
        auth_username: None,
        auth_password_encrypted: None,
        auth_password_legacy: None,
        auto_rotate: false,
        auto_rotate_minutes: None,
        proxy_list: "default".to_string(),
        created_at: 1,
        auto_start_on_boot: false,
        proxy_chain: None,
    };
    let inst = ProxyInstance::from_saved(saved, &key);
    assert_eq!(inst.id, 0x67e5_5044_10b1_426f_9247_bb68_0e5f_e0c8);
    assert_eq!(inst.to_saved(&key).id, text);
}

#[test]
fn password_round_trip() {
    let key = [42u8; 32];
    let stored = encrypt_password(&key, "hunter2").unwrap();
    assert_ne!(stored, "hunter2");
    assert_eq!(decrypt_password(&key, &stored), Ok("hunter2".to_string()));
    assert_eq!(decrypt_password(&key, &format!("  {}\n", stored)), Ok("hunter2".to_string()));
}

#[test]
fn stored_form_is_nonce_then_ciphertext() {
    let key = [3u8; 32];
    let stored = encrypt_password_with_nonce(&key, &[0u8; 12], "pw").unwrap();
    let bytes = base64::engine::general_purpose::STANDARD.decode(&stored).unwrap();
    assert_eq!(bytes.len(), 12 + 2 + 16);
    assert_eq!(&bytes[..12], &[0u8; 12]);
    assert!(stored.starts_with("AAAAAAAAAAAAAAAA"));
    // the same nonce gives the same text
    assert_eq!(encrypt_password_with_nonce(&key, &[0u8; 12], "pw").unwrap(), stored);
}

#[test]
fn decryption_errors() {
    let key = [5u8; 32];
    assert_eq!(decrypt_password(&key, "%%%"), Err(CredError::Base64));
    assert_eq!(decrypt_password(&key, &b64(&[1, 2, 3])), Err(CredError::InvalidPayload));
    let stored = encrypt_password(&key, "secret").unwrap();
    assert_eq!(decrypt_password(&[6u8; 32], &stored), Err(CredError::Decrypt));
    let nonce = [7u8; 12];
    let ct = seal(&key, &nonce, &[0xff, 0xfe]);
    let mut payload = nonce.to_vec();
    payload.extend_from_slice(&ct);
    assert_eq!(decrypt_password(&key, &b64(&payload)), Err(CredError::Utf8));
}

#[test]
fn key_file_forms() {
    let key = [9u8; 32];
    let plain = key_file_bytes(&key, None);
    assert_eq!(plain, key.to_vec());
    assert!(matches!(read_key_file(&plain, false), KeyFile::Plain(k) if k == key));
    assert!(matches!(read_key_file(&plain, true), KeyFile::Plain(k) if k == key));
    let protected = key_file_bytes(&key, Some(vec![1, 2, 3]));
    assert_eq!(protected, b"DPAPI\x01\x02\x03".to_vec());
    assert!(matches!(read_key_file(&protected, true), KeyFile::Protected(ref p) if p == &vec![1, 2, 3]));
    assert!(matches!(read_key_file(&protected, false), KeyFile::Unusable));
    assert!(matches!(read_key_file(&[1, 2, 3], false), KeyFile::Unusable));
    let mut long = vec![7u8; 40];
    long[0] = 1;
    assert!(matches!(read_key_file(&long, false), KeyFile::Plain(k) if k[0] == 1 && k[31] == 7));
}

#[test]
fn encryption_succeeds_with_a_fresh_nonce() {
    let key = [9u8; 32];
    let a = encrypt_password(&key, "pässword").unwrap();
    let b = encrypt_password(&key, "pässword").unwrap();
    let bytes = base64::engine::general_purpose::STANDARD.decode(&a).unwrap();
    assert_eq!(bytes.len(), 12 + "pässword".len() + 16);
    assert_ne!(a, b);
    assert_eq!(decrypt_password(&key, &b), Ok("pässword".to_string()));
    assert!(encrypt_password(&key, "").is_ok());
}
