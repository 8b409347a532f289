use aes_gcm::aead::Aead;
use aes_gcm::{Aes256Gcm, Key, KeyInit, Nonce};
use omega_bench_suite::cipher::{accept_plaintext, check_reply_body, open_reply_body, write_payload, PayloadError};

fn reference_ciphertext() -> Vec<u8> {
    let cipher = Aes256Gcm::new(Key::<Aes256Gcm>::from_slice(b"an-incredibly-secure-32-byte-key"));
    cipher.encrypt(Nonce::from_slice(b"unique-nonce"), [b'A'; 64].as_slice()).unwrap()
}

#[test]
fn plain_payload_is_64_a() {
    assert_eq!(write_payload(false), vec![b'A'; 64]);
}

#[test]
fn encrypted_payload_is_lowercase_hex_of_the_ciphertext() {
    let payload = write_payload(true);
    assert_eq!(payload.len(), 160);
    assert!(payload.iter().all(|b| b.is_ascii_digit() || (b'a'..=b'f').contains(b)));
    assert_eq!(payload, hex::encode(reference_ciphertext()).into_bytes());
}

#[test]
fn encrypted_reply_opens_to_the_payload() {
    let mut body = write_payload(true);
    body.extend_from_slice(b"\r\n");
    assert_eq!(open_reply_body(&body, 160), Ok(vec![b'A'; 64]));
    assert_eq!(check_reply_body(true, &body, 160), Ok(()));
    let upper = String::from_utf8(body.clone()).unwrap().to_uppercase().into_bytes();
    assert_eq!(open_reply_body(&upper, 160), Ok(vec![b'A'; 64]));
}

#[test]
fn reply_errors() {
    let mut body = write_payload(true);
    body[0] = if body[0] == b'0' { b'1' } else { b'0' };
    assert_eq!(open_reply_body(&body, 160), Err(PayloadError::Rejected));
    assert_eq!(open_reply_body(b"zz", 2), Err(PayloadError::NotHex));
    assert_eq!(open_reply_body(b"abc", 3), Err(PayloadError::NotHex));
    assert_eq!(open_reply_body(b"00", 2), Err(PayloadError::Rejected));
    assert_eq!(check_reply_body(true, b"zz", 2), Err(PayloadError::NotHex));
    assert_eq!(check_reply_body(false, b"zz", 2), Ok(()));
}

#[test]
fn plaintexts_of_other_lengths_are_refused() {
    assert_eq!(accept_plaintext(vec![0; 63]), Err(PayloadError::WrongLength));
    assert_eq!(accept_plaintext(vec![1; 64]), Ok(vec![1; 64]));
    let short = Aes256Gcm::new(Key::<Aes256Gcm>::from_slice(b"an-incredibly-secure-32-byte-key"))
        .encrypt(Nonce::from_slice(b"unique-nonce"), [b'A'; 10].as_slice())
        .unwrap();
    let text = hex::encode(short).into_bytes();
    assert_eq!(open_reply_body(&text, text.len()), Err(PayloadError::WrongLength));
}
