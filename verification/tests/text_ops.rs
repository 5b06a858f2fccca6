use base64::engine::general_purpose::URL_SAFE_NO_PAD;
use base64::Engine;
use chacha20poly1305::aead::Aead;
use chacha20poly1305::KeyInit;
use rcli::{
    encrypt_with_nonce, process_decrypt, process_encrypt, process_generate, process_genpass,
    process_text_sign, process_text_verify, Blake3, Ed25519Signer, Ed25519Verifier, Error,
    KeyGenerator, KeyLoader, TextSign, TextSignFormat, TextVerify,
};

const KEY: &[u8] = b"01234567890123456789012345678901";

#[test]
fn test_blake3_sign_verify() {
    let blake3 = Blake3::load(KEY).unwrap();
    let data = b"hello world".to_vec();
    let sig = blake3.sign(&data).unwrap();
    println!("sig: {}", URL_SAFE_NO_PAD.encode(&sig));
    assert!(blake3.verify(&data, &sig).unwrap());
}

#[test]
fn test_ed25519_sign_verify() {
    let keys = Ed25519Signer::generate().unwrap();
    let signing_key = Ed25519Signer::load(&keys[0]).unwrap();
    let verifying_key = Ed25519Verifier::load(&keys[1]).unwrap();
    let data = b"hello world".to_vec();
    let sig = signing_key.sign(&data).unwrap();
    println!("sig: {}", URL_SAFE_NO_PAD.encode(&sig));
    assert!(verifying_key.verify(&data, &sig).unwrap());
}

#[test]
fn test_encrypt_decrypt() {
    let key = process_genpass(32, true, true, true, true).unwrap();
    let key = key.as_bytes().to_vec();
    let data = b"hello world".to_vec();
    let record = process_encrypt(&data, &key).unwrap();
    let plaintext = process_decrypt(&record, &key).unwrap();
    assert_eq!(data, plaintext);
}

#[test]
fn blake3_digest_is_deterministic_and_fixed_size() {
    let key = KEY.to_vec();
    let data = b"hello world".to_vec();
    let sig1 = process_text_sign(&data, &key, TextSignFormat::Blake3).unwrap();
    let sig2 = process_text_sign(&data, &key, TextSignFormat::Blake3).unwrap();
    assert_eq!(sig1, sig2);
    let raw = URL_SAFE_NO_PAD.decode(&sig1).unwrap();
    assert_eq!(raw.len(), 32);
    assert!(process_text_verify(&data, &key, TextSignFormat::Blake3, &sig1).unwrap());
    let mut flipped = data.clone();
    flipped[0] ^= 1;
    assert!(!process_text_verify(&flipped, &key, TextSignFormat::Blake3, &sig1).unwrap());
}

#[test]
fn blake3_digest_matches_reference_implementation() {
    let key: [u8; 32] = KEY.try_into().unwrap();
    let data = b"hello world".to_vec();
    let sig = process_text_sign(&data, &key.to_vec(), TextSignFormat::Blake3).unwrap();
    let raw = URL_SAFE_NO_PAD.decode(&sig).unwrap();
    let expected = blake3::keyed_hash(&key, &data);
    assert_eq!(raw.as_slice(), expected.as_bytes());
}

#[test]
fn blake3_verify_rejects_other_key() {
    let key = KEY.to_vec();
    let other = b"abcdefghijklmnopqrstuvwxyz012345".to_vec();
    let data = b"hello world".to_vec();
    let sig = process_text_sign(&data, &key, TextSignFormat::Blake3).unwrap();
    assert!(!process_text_verify(&data, &other, TextSignFormat::Blake3, &sig).unwrap());
}

#[test]
fn long_key_is_truncated_to_prefix() {
    let long: Vec<u8> = (0..48u8).collect();
    let prefix: Vec<u8> = (0..32u8).collect();
    let data = b"truncation check".to_vec();
    let s1 = process_text_sign(&data, &long, TextSignFormat::Blake3).unwrap();
    let s2 = process_text_sign(&data, &prefix, TextSignFormat::Blake3).unwrap();
    assert_eq!(s1, s2);
}

#[test]
fn short_key_is_a_key_format_error() {
    let short = b"too short".to_vec();
    let data = b"hello".to_vec();
    assert_eq!(
        process_text_sign(&data, &short, TextSignFormat::Blake3),
        Err(Error::KeyFormat)
    );
    assert_eq!(
        process_text_sign(&data, &short, TextSignFormat::Ed25519),
        Err(Error::KeyFormat)
    );
    assert_eq!(process_encrypt(&data, &short), Err(Error::KeyFormat));
    assert_eq!(process_decrypt(&data, &short), Err(Error::KeyFormat));
}

#[test]
fn ed25519_signature_matches_reference_implementation() {
    let keys = process_generate(TextSignFormat::Ed25519).unwrap();
    assert_eq!(keys.len(), 2);
    assert_eq!(keys[0].len(), 32);
    assert_eq!(keys[1].len(), 32);
    let data = b"hello world".to_vec();
    let sig = process_text_sign(&data, &keys[0], TextSignFormat::Ed25519).unwrap();
    let raw = URL_SAFE_NO_PAD.decode(&sig).unwrap();
    let seed: [u8; 32] = keys[0].as_slice().try_into().unwrap();
    let sk = ed25519_dalek::SigningKey::from_bytes(&seed);
    let reference = ed25519_dalek::Signer::sign(&sk, &data).to_bytes().to_vec();
    assert_eq!(raw, reference);
    assert_eq!(
        sk.verifying_key().to_bytes().to_vec(),
        keys[1],
        "derived public key accompanies the seed"
    );
}

#[test]
fn ed25519_sign_then_verify_and_reject_unrelated_key() {
    let keys = process_generate(TextSignFormat::Ed25519).unwrap();
    let data = b"hello world".to_vec();
    let sig = process_text_sign(&data, &keys[0], TextSignFormat::Ed25519).unwrap();
    assert!(process_text_verify(&data, &keys[1], TextSignFormat::Ed25519, &sig).unwrap());
    let unrelated = process_generate(TextSignFormat::Ed25519).unwrap();
    assert!(!process_text_verify(&data, &unrelated[1], TextSignFormat::Ed25519, &sig).unwrap());
}

#[test]
fn ed25519_malformed_signature_length_is_an_error() {
    let keys = process_generate(TextSignFormat::Ed25519).unwrap();
    let data = b"hello".to_vec();
    let short_sig = URL_SAFE_NO_PAD.encode(b"way too short");
    assert_eq!(
        process_text_verify(&data, &keys[1], TextSignFormat::Ed25519, &short_sig),
        Err(Error::Decode)
    );
}

#[test]
fn signature_that_is_not_base64_is_rejected_before_any_check() {
    let key = KEY.to_vec();
    let data = b"hello".to_vec();
    assert_eq!(
        process_text_verify(&data, &key, TextSignFormat::Blake3, "!!not base64!!"),
        Err(Error::Decode)
    );
}

#[test]
fn encrypt_decrypt_round_trip_including_empty() {
    let key = KEY.to_vec();
    for msg in [b"hello world".to_vec(), Vec::new(), vec![0u8, 255, 10, 13, 61]] {
        let record = process_encrypt(&msg, &key).unwrap();
        assert_eq!(process_decrypt(&record, &key).unwrap(), msg);
    }
}

#[test]
fn encrypt_twice_gives_fresh_nonces() {
    let key = KEY.to_vec();
    let msg = b"hello world".to_vec();
    let r1 = process_encrypt(&msg, &key).unwrap();
    let r2 = process_encrypt(&msg, &key).unwrap();
    assert_ne!(r1, r2, "a fresh nonce must be drawn for every encryption");
}

#[test]
fn record_has_the_two_line_text_form() {
    let key = KEY.to_vec();
    let msg = b"hello world".to_vec();
    let record = process_encrypt(&msg, &key).unwrap();
    let text = String::from_utf8(record).unwrap();
    let mut lines = text.lines();
    let l1 = lines.next().unwrap();
    let l2 = lines.next().unwrap();
    assert!(l1.starts_with("nonce: "));
    assert!(l2.starts_with("ciphertext: "));
    let nonce = URL_SAFE_NO_PAD.decode(&l1["nonce: ".len()..]).unwrap();
    let ct = URL_SAFE_NO_PAD.decode(&l2["ciphertext: ".len()..]).unwrap();
    assert_eq!(nonce.len(), 12);
    assert_eq!(ct.len(), msg.len() + 16);
}

#[test]
fn ciphertext_matches_reference_implementation() {
    let key = KEY.to_vec();
    let nonce: Vec<u8> = (1..13u8).collect();
    let msg = b"hello world".to_vec();
    let ct = encrypt_with_nonce(&key, &nonce, &msg).unwrap();
    let cipher =
        chacha20poly1305::ChaCha20Poly1305::new(chacha20poly1305::Key::from_slice(&key));
    let reference = cipher
        .encrypt(chacha20poly1305::Nonce::from_slice(&nonce), msg.as_slice())
        .unwrap();
    assert_eq!(ct, reference);
}

#[test]
fn bit_flip_in_ciphertext_or_nonce_fails_integrity() {
    let key = KEY.to_vec();
    let nonce: Vec<u8> = (1..13u8).collect();
    let msg = b"hello world".to_vec();
    let ct = encrypt_with_nonce(&key, &nonce, &msg).unwrap();
    let render = |nonce: &[u8], ct: &[u8]| -> Vec<u8> {
        format!(
            "nonce: {}\nciphertext: {}\n",
            URL_SAFE_NO_PAD.encode(nonce),
            URL_SAFE_NO_PAD.encode(ct)
        )
        .into_bytes()
    };
    assert_eq!(
        process_decrypt(&render(&nonce, &ct), &key).unwrap(),
        msg,
        "untampered record decrypts"
    );
    for byte in 0..ct.len() {
        for bit in [1u8, 128u8] {
            let mut bad = ct.clone();
            bad[byte] ^= bit;
            assert_eq!(
                process_decrypt(&render(&nonce, &bad), &key),
                Err(Error::AeadIntegrity)
            );
        }
    }
    let mut bad_nonce = nonce.clone();
    bad_nonce[0] ^= 1;
    assert_eq!(
        process_decrypt(&render(&bad_nonce, &ct), &key),
        Err(Error::AeadIntegrity)
    );
}

#[test]
fn malformed_records_are_format_errors() {
    let key = KEY.to_vec();
    for bad in [
        &b""[..],
        &b"nonce: AAAA"[..],
        &b"nonce: AAAA\n"[..],
        &b"garbage: AAAA\nciphertext: AAAA\n"[..],
        &b"nonce: !!!\nciphertext: AAAA\n"[..],
        &b"ciphertext: AAAA\nnonce: AAAA\n"[..],
    ] {
        assert_eq!(
            process_decrypt(&bad.to_vec(), &key),
            Err(Error::Decode),
            "record {:?}",
            String::from_utf8_lossy(bad)
        );
    }
}

#[test]
fn record_with_carriage_return_line_endings_decrypts() {
    let key = KEY.to_vec();
    let nonce: Vec<u8> = (1..13u8).collect();
    let msg = b"hello world".to_vec();
    let ct = encrypt_with_nonce(&key, &nonce, &msg).unwrap();
    let record = format!(
        "nonce: {}\r\nciphertext: {}\r\n",
        URL_SAFE_NO_PAD.encode(&nonce),
        URL_SAFE_NO_PAD.encode(&ct)
    )
    .into_bytes();
    assert_eq!(process_decrypt(&record, &key).unwrap(), msg);
}

#[test]
fn wrong_nonce_length_is_a_format_error() {
    let key = KEY.to_vec();
    let record = format!(
        "nonce: {}\nciphertext: {}\n",
        URL_SAFE_NO_PAD.encode(b"short"),
        URL_SAFE_NO_PAD.encode([0u8; 27])
    )
    .into_bytes();
    assert_eq!(process_decrypt(&record, &key), Err(Error::Decode));
}

#[test]
fn generated_blake3_key_is_a_printable_shared_key() {
    let keys = process_generate(TextSignFormat::Blake3).unwrap();
    assert_eq!(keys.len(), 1);
    assert_eq!(keys[0].len(), 32);
    assert!(keys[0].iter().all(|b| (33..127).contains(b)));
    let data = b"generated key works".to_vec();
    let sig = process_text_sign(&data, &keys[0], TextSignFormat::Blake3).unwrap();
    assert!(process_text_verify(&data, &keys[0], TextSignFormat::Blake3, &sig).unwrap());
}

#[test]
fn encrypt_with_nonce_checks_key_and_nonce_sizes() {
    let msg = b"hello".to_vec();
    assert_eq!(
        encrypt_with_nonce(&b"short".to_vec(), &vec![0u8; 12], &msg),
        Err(Error::KeyFormat)
    );
    assert_eq!(
        encrypt_with_nonce(&KEY.to_vec(), &vec![0u8; 11], &msg),
        Err(Error::Decode)
    );
}

#[test]
fn error_messages_name_each_failure() {
    assert_eq!(
        Error::KeyFormat.message(),
        "key material is malformed or too short"
    );
    assert_eq!(
        Error::Decode.message(),
        "input is not a well-formed encoded value"
    );
    assert_eq!(
        Error::AeadIntegrity.message(),
        "ciphertext integrity check failed"
    );
    assert_eq!(Error::Format.message(), "invalid format");
}
