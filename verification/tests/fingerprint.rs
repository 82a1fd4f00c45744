use proxy_state::certificate::{calculate_fingerprint, FingerprintError};

#[test]
fn fingerprint_of_a_pem_block_is_the_digest_of_its_contents() {
    let pem = "-----BEGIN CERTIFICATE-----\nAAEC\n-----END CERTIFICATE-----\n";
    let digest = calculate_fingerprint(pem.as_bytes()).unwrap();
    let expected: Vec<u8> = vec![
        0xae, 0x4b, 0x32, 0x80, 0xe5, 0x6e, 0x2f, 0xaf, 0x83, 0xf4, 0x14, 0xa6, 0xe3, 0xda, 0xbe,
        0x9d, 0x5f, 0xbe, 0x18, 0x97, 0x65, 0x44, 0xc0, 0x5f, 0xed, 0x12, 0x1a, 0xcc, 0xb8, 0x5b,
        0x53, 0xfc,
    ];
    assert_eq!(digest, expected);
}

#[test]
fn fingerprint_of_text_without_a_pem_block_fails() {
    let result = calculate_fingerprint(b"not a certificate");
    assert_eq!(result, Err(FingerprintError::MalformedPem));
}
