use shadomplexer::crypto::{buffer_len, AEADMethod, HANDSHAKE_LEN};
use shadomplexer::infra::InfraAlgorithm;

#[test]
fn config_test_method_deserialize_normal() {
    assert!(AEADMethod::from_name("aes-128-gcm")
        .unwrap()
        .eq(&AEADMethod::AES128GCM));
    assert!(AEADMethod::from_name("aes-256-gcm")
        .unwrap()
        .eq(&AEADMethod::AES256GCM));
    assert!(AEADMethod::from_name("chacha20-ietf-poly1305")
        .unwrap()
        .eq(&AEADMethod::CHACHA20POLY1305));
}

#[test]
fn config_test_method_deserialize_upper_case() {
    assert!(AEADMethod::from_name("AES-128-GCM")
        .unwrap()
        .eq(&AEADMethod::AES128GCM));
    assert!(AEADMethod::from_name("AES-256-GCM")
        .unwrap()
        .eq(&AEADMethod::AES256GCM));
    assert!(AEADMethod::from_name("CHACHA20-IETF-POLY1305")
        .unwrap()
        .eq(&AEADMethod::CHACHA20POLY1305));
}

#[test]
fn crypto_test_method_deserialize_normal() {
    assert!(AEADMethod::from_name("aes-128-gcm")
        .unwrap()
        .eq(&AEADMethod::AES128GCM));
    assert!(AEADMethod::from_name("aes-256-gcm")
        .unwrap()
        .eq(&AEADMethod::AES256GCM));
    assert!(AEADMethod::from_name("chacha20-ietf-poly1305")
        .unwrap()
        .eq(&AEADMethod::CHACHA20POLY1305));
}

#[test]
fn crypto_test_method_deserialize_upper_case() {
    assert!(AEADMethod::from_name("AES-128-GCM")
        .unwrap()
        .eq(&AEADMethod::AES128GCM));
    assert!(AEADMethod::from_name("AES-256-GCM")
        .unwrap()
        .eq(&AEADMethod::AES256GCM));
    assert!(AEADMethod::from_name("CHACHA20-IETF-POLY1305")
        .unwrap()
        .eq(&AEADMethod::CHACHA20POLY1305));
}

#[test]
fn method_name_trimmed_and_mixed_case() {
    assert_eq!(AEADMethod::from_name("  Aes-256-Gcm\n"), Some(AEADMethod::AES256GCM));
    assert_eq!(AEADMethod::from_name("\tchacha20-IETF-poly1305 "), Some(AEADMethod::CHACHA20POLY1305));
}

#[test]
fn method_name_unknown() {
    assert_eq!(AEADMethod::from_name("aes-192-gcm"), None);
    assert_eq!(AEADMethod::from_name(""), None);
    assert_eq!(AEADMethod::from_name("aes-128-gcm-x"), None);
    assert_eq!(AEADMethod::from_name_bytes(b" aes-128-gcm"), None);
}

#[test]
fn method_name_round_trip() {
    for m in [AEADMethod::AES128GCM, AEADMethod::AES256GCM, AEADMethod::CHACHA20POLY1305] {
        assert_eq!(AEADMethod::from_name(m.name()), Some(m));
    }
    assert_eq!(AEADMethod::CHACHA20POLY1305.name(), "chacha20-ietf-poly1305");
}

#[test]
fn method_lengths() {
    assert_eq!(AEADMethod::AES128GCM.salt_len(), 16);
    assert_eq!(AEADMethod::AES128GCM.key_len(), 16);
    assert_eq!(AEADMethod::AES128GCM.buffer_len(), 34);
    assert_eq!(AEADMethod::AES256GCM.salt_len(), 32);
    assert_eq!(AEADMethod::AES256GCM.key_len(), 32);
    assert_eq!(AEADMethod::AES256GCM.buffer_len(), 50);
    assert_eq!(AEADMethod::CHACHA20POLY1305.salt_len(), 32);
    assert_eq!(AEADMethod::CHACHA20POLY1305.key_len(), 32);
    assert_eq!(AEADMethod::CHACHA20POLY1305.buffer_len(), 50);
    assert_eq!(buffer_len(), 50);
    assert_eq!(HANDSHAKE_LEN, 50);
}

#[test]
fn algorithm_names() {
    assert_eq!(InfraAlgorithm::from_name("linear-scan"), Some(InfraAlgorithm::LinearScan));
    assert_eq!(
        InfraAlgorithm::from_name("linear-scan-with-lru"),
        Some(InfraAlgorithm::LinearScanWithLRU)
    );
    assert_eq!(InfraAlgorithm::from_name("concurrent-scan"), Some(InfraAlgorithm::ConcurrentScan));
    assert_eq!(InfraAlgorithm::from_name("Linear-Scan"), None);
    assert_eq!(InfraAlgorithm::from_name("linear-scan "), None);
    assert_eq!(InfraAlgorithm::LinearScanWithLRU.name(), "linear-scan-with-lru");
}
