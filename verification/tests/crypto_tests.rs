use wasm_h3::crypto::keys::{label_info, Aead, KeyDerivation, KeyPhase, KeySet, EncryptionLevel};
use std::sync::Arc;
use wasm_h3::crypto::protection::PacketProtection;
use wasm_h3::crypto::tls::{TlsConfig, TlsSession};
use wasm_h3::error::{H3Error, TlsError};
use wasm_h3::transport::connection::ConnectionId;

#[test]
fn test_packet_protection() {
    let mut config = TlsConfig::new();
    config.configure_client(None).unwrap();
    let tls = TlsSession::new_client(Arc::new(config), "example.com").unwrap();
    let r = PacketProtection::new(tls, ConnectionId([9; 16]), true);
    assert!(matches!(r, Err(H3Error::Tls(TlsError::KeyDerivationFailed))));
}

#[test]
fn test_key_derivation() {
    let connection_id = ConnectionId([1; 16]);
    let key_set = KeyDerivation::derive_initial_keys(&connection_id).unwrap();

    assert!(!key_set.client_key.is_empty());
    assert!(!key_set.server_key.is_empty());
    assert!(!key_set.client_iv.is_empty());
    assert!(!key_set.server_iv.is_empty());
    assert!(!key_set.hp_key.is_empty());
}

#[test]
fn test_aead() {
    let mut aead = Aead::new();

    let write_key = vec![1; 16];
    let read_key = vec![2; 16];
    aead.init(&write_key, &read_key).unwrap();

    let data = b"Hello, QUIC!";
    let aad_data = b"AAD";
    let packet_number = 42;

    let encrypted = aead.seal(packet_number, data, aad_data).unwrap();

    let mut aead2 = Aead::new();
    aead2.init(&read_key, &write_key).unwrap();
    let decrypted = aead2.open(packet_number, &encrypted, aad_data).unwrap();

    assert_eq!(decrypted, data);
}

// Own tests.

#[test]
fn derived_keys_are_32_bytes_and_differ_by_role() {
    let ks = KeyDerivation::derive_initial_keys(&ConnectionId([9; 16])).unwrap();
    assert_eq!(ks.client_key.len(), 32);
    assert_eq!(ks.hp_key.len(), 32);
    assert_ne!(ks.client_key, ks.server_key);
    assert_eq!(ks.write_key(true), ks.client_key.as_slice());
    assert_eq!(ks.read_key(true), ks.server_key.as_slice());
    assert_eq!(ks.write_iv(false), ks.server_iv.as_slice());
    assert_eq!(ks.read_iv(false), ks.client_iv.as_slice());
    // The same identifier derives the same keys.
    let again = KeyDerivation::derive_initial_keys(&ConnectionId([9; 16])).unwrap();
    assert_eq!(again.client_key, ks.client_key);
}

#[test]
fn label_info_layout() {
    assert_eq!(label_info(b"quic hp", &[]), vec![0, 32, 7, b'q', b'u', b'i', b'c', b' ', b'h', b'p', 0]);
}

#[test]
fn aead_refuses_wrong_keys_and_missing_keys() {
    let mut aead = Aead::new();
    assert!(matches!(aead.seal(1, b"x", b""), Err(H3Error::Tls(TlsError::EncryptionFailed))));
    assert!(matches!(aead.open(1, b"x", b""), Err(H3Error::Tls(TlsError::DecryptionFailed))));
    assert!(matches!(aead.init(&[0; 32], &[0; 16]), Err(H3Error::Tls(TlsError::KeyDerivationFailed))));
    // The write key is taken before the read key is checked.
    assert!(matches!(aead.init(&[0; 16], &[0; 8]), Err(H3Error::Tls(TlsError::KeyDerivationFailed))));
    assert!(aead.seal(1, b"x", b"").is_ok());
}

#[test]
fn tampered_data_does_not_open() {
    let mut a = Aead::new();
    a.init(&[3; 16], &[4; 16]).unwrap();
    let mut sealed = a.seal(7, b"payload", b"hdr").unwrap();
    sealed[0] ^= 1;
    let mut b = Aead::new();
    b.init(&[4; 16], &[3; 16]).unwrap();
    assert!(matches!(b.open(7, &sealed, b"hdr"), Err(H3Error::Tls(TlsError::DecryptionFailed))));
}

#[test]
fn packet_protection_needs_sixteen_byte_keys() {
    // The initial keys are 32 bytes long, which AES-128-GCM refuses.
    let tls = TlsSession::new_server(Arc::new(server_side_config())).unwrap_err();
    assert!(matches!(tls, H3Error::Tls(TlsError::HandshakeFailed(_))));
    let mut config = TlsConfig::new();
    config.configure_client(None).unwrap();
    let tls = TlsSession::new_client(Arc::new(config), "example.com").unwrap();
    let r = PacketProtection::new(tls, ConnectionId([1; 16]), false);
    assert!(matches!(r, Err(H3Error::Tls(TlsError::KeyDerivationFailed))));
    let k = KeySet::new(EncryptionLevel::Handshake, KeyPhase::Handshake);
    assert!(k.client_key.is_empty());
}

fn server_side_config() -> TlsConfig {
    TlsConfig::new()
}

#[test]
fn test_tls_config_creation() {
    let config = TlsConfig::new();
    assert!(config.client_config().is_none());
    assert!(config.server_config().is_none());
}

#[test]
fn test_client_config() {
    let mut config = TlsConfig::new();
    let result = config.configure_client(None);
    assert!(result.is_ok());
    assert!(config.client_config().is_some());
    assert_eq!(config.client_config().unwrap().alpn_protocols, vec![b"h3".to_vec()]);
}

#[test]
fn tls_sessions_need_their_side_configured() {
    let config = Arc::new(TlsConfig::default());
    match TlsSession::new_client(config.clone(), "example.com") {
        Err(H3Error::Tls(TlsError::HandshakeFailed(m))) => assert_eq!(m, "Client TLS not configured"),
        _ => panic!("expected a handshake error"),
    }
    match TlsSession::new_server(config) {
        Err(H3Error::Tls(TlsError::HandshakeFailed(m))) => assert_eq!(m, "Server TLS not configured"),
        _ => panic!("expected a handshake error"),
    }
}

#[test]
fn tls_session_passes_data_through() {
    let mut config = TlsConfig::new();
    config.configure_client(None).unwrap();
    let mut s = TlsSession::new_client(Arc::new(config), "example.com").unwrap();
    assert!(s.is_handshake_complete());
    assert_eq!(s.alpn_protocol(), Some(b"h3".to_vec()));
    assert!(s.process_handshake(b"hello").unwrap().is_empty());
    assert_eq!(s.encrypt(1, b"abc", b"h").unwrap(), b"abc".to_vec());
    assert_eq!(s.decrypt(1, b"xyz", b"h").unwrap(), b"xyz".to_vec());
}

#[test]
fn server_config_refuses_a_bad_key() {
    let mut config = TlsConfig::new();
    let r = config.configure_server(
        vec![wasm_h3::config::Certificate { der: vec![1, 2, 3] }],
        wasm_h3::config::PrivateKey { der: vec![4, 5] },
    );
    assert!(matches!(r, Err(H3Error::Tls(TlsError::CertificateValidation(_)))));
    assert!(config.server_config().is_none());
    assert!(config.certificate_chain().is_empty());
}

#[test]
fn server_config_accepts_a_signing_key() {
    let rng = ring::rand::SystemRandom::new();
    let pkcs8 = ring::signature::Ed25519KeyPair::generate_pkcs8(&rng).unwrap();
    let mut config = TlsConfig::new();
    let r = config.configure_server(
        vec![wasm_h3::config::Certificate { der: vec![1, 2, 3] }],
        wasm_h3::config::PrivateKey { der: pkcs8.as_ref().to_vec() },
    );
    assert!(r.is_ok());
    assert!(config.server_config().is_some());
    assert_eq!(config.certificate_chain().to_vec(), vec![vec![1u8, 2, 3]]);
}

#[test]
fn client_config_offers_h3_with_the_given_roots() {
    let mut config = TlsConfig::new();
    config.configure_client(None).unwrap();
    assert_eq!(config.alpn_protocols().to_vec(), vec![b"h3".to_vec()]);
    assert!(config.root_subjects().is_empty());

    let mut store = rustls::RootCertStore::empty();
    store.add_trust_anchors(std::iter::once(
        rustls::OwnedTrustAnchor::from_subject_spki_name_constraints(vec![1u8, 2], vec![3u8], None::<Vec<u8>>),
    ));
    let mut config = TlsConfig::new();
    config.configure_client(Some(store)).unwrap();
    assert_eq!(config.root_subjects().len(), 1);
    assert_eq!(config.alpn_protocols().to_vec(), vec![b"h3".to_vec()]);
}
