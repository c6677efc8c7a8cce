use codex_plus_core::crypto::{
    decrypt_mobile_relay_envelope, decrypt_mobile_relay_request, encode_mobile_relay_payload,
    encrypt_mobile_relay_payload, mobile_relay_cipher, mobile_relay_nonce, EnvelopeError,
    MobileRelayEnvelope, RelayRequestBody,
};
use codex_plus_core::json::JsonValue;

fn object(members: Vec<(&str, JsonValue)>) -> JsonValue {
    JsonValue::Object(members.into_iter().map(|(k, v)| (k.to_string(), v)).collect())
}

fn text(s: &str) -> JsonValue {
    JsonValue::Str(s.to_string())
}

#[test]
fn cipher_key_is_the_sha256_of_the_key_text() {
    let cipher = mobile_relay_cipher("abc");
    let hex: String = cipher.key.iter().map(|b| format!("{b:02x}")).collect();
    assert_eq!(hex, "ba7816bf8f01cfea414140de5dae2223b00361a396177a9cb410ff61f20015ad");
}

#[test]
fn nonce_is_time_little_endian_then_random_bytes() {
    let nonce = mobile_relay_nonce(0x0102030405060708, [9, 10, 11, 12]);
    assert_eq!(nonce, vec![8, 7, 6, 5, 4, 3, 2, 1, 9, 10, 11, 12]);
}

#[test]
fn sealed_payload_opens_to_the_plaintext() {
    let cipher = mobile_relay_cipher("test-key");
    let nonce = mobile_relay_nonce(1_700_000_000_000, [1, 2, 3, 4]);
    let plaintext = br#"{"type":"httpRequest","id":1}"#;
    let envelope = encrypt_mobile_relay_payload(&cipher, &nonce, plaintext).unwrap();
    assert!(!envelope.payload.contains('='));
    assert!(!envelope.payload.contains('+'));
    let json = envelope.to_json();
    assert_eq!(decrypt_mobile_relay_envelope(&cipher, &json).unwrap(), plaintext.to_vec());
}

#[test]
fn envelope_under_another_key_does_not_open() {
    let nonce = mobile_relay_nonce(5, [0, 0, 0, 0]);
    let envelope = encrypt_mobile_relay_payload(&mobile_relay_cipher("a"), &nonce, b"hi").unwrap();
    assert_eq!(
        decrypt_mobile_relay_envelope(&mobile_relay_cipher("b"), &envelope.to_json()),
        Err(EnvelopeError::DecryptFailed)
    );
}

#[test]
fn envelope_errors_name_the_missing_or_bad_part() {
    let cipher = mobile_relay_cipher("k");
    assert_eq!(
        decrypt_mobile_relay_envelope(&cipher, &object(vec![("type", text("plain"))])),
        Err(EnvelopeError::NotEncrypted)
    );
    assert_eq!(
        decrypt_mobile_relay_envelope(&cipher, &object(vec![("type", text("encrypted"))])),
        Err(EnvelopeError::MissingNonce)
    );
    assert_eq!(
        decrypt_mobile_relay_envelope(
            &cipher,
            &object(vec![("type", text("encrypted")), ("nonce", text("AAAA"))])
        ),
        Err(EnvelopeError::MissingPayload)
    );
    assert_eq!(
        decrypt_mobile_relay_envelope(
            &cipher,
            &object(vec![
                ("type", text("encrypted")),
                ("nonce", text("A=")),
                ("payload", text("AAAA"))
            ])
        ),
        Err(EnvelopeError::InvalidBase64)
    );
    assert_eq!(
        decrypt_mobile_relay_envelope(
            &cipher,
            &object(vec![
                ("type", text("encrypted")),
                ("nonce", text("AAAA")),
                ("payload", text("AAAA"))
            ])
        ),
        Err(EnvelopeError::InvalidNonceLength)
    );
    assert_eq!(
        decrypt_mobile_relay_envelope(
            &cipher,
            &object(vec![
                ("type", text("encrypted")),
                ("nonce", text("AAAAAAAAAAAAAAAA")),
                ("payload", text("AAAA"))
            ])
        ),
        Err(EnvelopeError::DecryptFailed)
    );
}

#[test]
fn plaintext_requests_pass_their_payload() {
    let cipher = mobile_relay_cipher("k");
    match decrypt_mobile_relay_request(
        &cipher,
        object(vec![("type", text("plaintext")), ("payload", text("x"))]),
    ) {
        Ok(RelayRequestBody::Plain(JsonValue::Str(s))) => assert_eq!(s, "x"),
        other => panic!("unexpected: {other:?}"),
    }
    assert!(matches!(
        decrypt_mobile_relay_request(&cipher, object(vec![("type", text("plaintext"))])),
        Err(EnvelopeError::MissingPlaintextPayload)
    ));
}

#[test]
fn replies_are_sealed_unless_in_plaintext_mode() {
    let cipher = mobile_relay_cipher("k");
    let nonce = vec![0u8; 12];
    assert!(matches!(
        encode_mobile_relay_payload(&cipher, true, &nonce, b"{}"),
        Ok(MobileRelayEnvelope::Plaintext)
    ));
    match encode_mobile_relay_payload(&cipher, false, &nonce, b"{}") {
        Ok(MobileRelayEnvelope::Encrypted(e)) => {
            assert_eq!(e.nonce, "AAAAAAAAAAAAAAAA");
            assert_eq!(decrypt_mobile_relay_envelope(&cipher, &e.to_json()).unwrap(), b"{}".to_vec());
        }
        _ => panic!("expected a sealed reply"),
    }
}
