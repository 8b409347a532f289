//! The client-side encryption path of the encrypted-payload benchmark:
//! AES-256-GCM under a fixed key and nonce, with the ciphertext sent as
//! lowercase hex.

use vstd::prelude::*;
use aes_gcm::aead::Aead;
use aes_gcm::{Aes256Gcm, Key, KeyInit, Nonce};
use crate::workload::repeated;
use crate::roundtrip::ascii_text;

verus! {

#[verifier::external_type_specification]
#[verifier::external_body]
pub struct ExAeadError(aes_gcm::Error);

#[verifier::external_type_specification]
#[verifier::external_body]
pub struct ExFromHexError(hex::FromHexError);

/// The ciphertext (with its 16-byte tag) that AES-256-GCM produces for
/// `plaintext` under `key` and `nonce`, with no associated data.
pub uninterp spec fn aes256gcm_seal(key: Seq<u8>, nonce: Seq<u8>, plaintext: Seq<u8>) -> Seq<u8>;

/// The plaintext that AES-256-GCM recovers from `ciphertext` under `key` and
/// `nonce`, with no associated data; `None` when the tag does not verify.
pub uninterp spec fn aes256gcm_open(key: Seq<u8>, nonce: Seq<u8>, ciphertext: Seq<u8>) -> Option<Seq<u8>>;

/// The longest plaintext AES-GCM encrypts: 2^36 bytes.
pub open spec fn max_plaintext_len() -> nat {
    0x10_0000_0000
}

/// Trusted: `Aes256Gcm::new(key).encrypt(nonce, plaintext)` of the `aes-gcm`
/// crate. Claimed: it fails exactly when the plaintext is longer than 2^36
/// bytes; otherwise it returns the sealed text named by `aes256gcm_seal`, 16
/// bytes (the tag) longer than the plaintext, which decryption under the same
/// key and nonce opens to the plaintext again (the round trip the crate's
/// documentation shows). Nothing is claimed of the ciphertext's bytes.
#[verifier::external_body]
fn aes256gcm_encrypt(key: &[u8], nonce: &[u8], plaintext: &[u8]) -> (sealed: Result<Vec<u8>, aes_gcm::Error>)
    requires
        key@.len() == 32,
        nonce@.len() == 12,
    ensures
        sealed is Ok <==> plaintext@.len() <= max_plaintext_len(),
        sealed matches Ok(c) ==> c@ == aes256gcm_seal(key@, nonce@, plaintext@),
        sealed matches Ok(c) ==> c@.len() == plaintext@.len() + 16,
        sealed matches Ok(c) ==> aes256gcm_open(key@, nonce@, c@) == Some(plaintext@),
{
    Aes256Gcm::new(Key::<Aes256Gcm>::from_slice(key)).encrypt(Nonce::from_slice(nonce), plaintext)
}

/// Trusted: `Aes256Gcm::new(key).decrypt(nonce, ciphertext)` of the `aes-gcm`
/// crate. Claimed: it succeeds exactly when `aes256gcm_open` gives a plaintext,
/// returns that plaintext, which is 16 bytes (the tag) shorter than the
/// ciphertext, and fails on a ciphertext shorter than a tag.
#[verifier::external_body]
fn aes256gcm_decrypt(key: &[u8], nonce: &[u8], ciphertext: &[u8]) -> (opened: Result<Vec<u8>, aes_gcm::Error>)
    requires
        key@.len() == 32,
        nonce@.len() == 12,
    ensures
        opened is Ok <==> aes256gcm_open(key@, nonce@, ciphertext@) is Some,
        opened matches Ok(p) ==> aes256gcm_open(key@, nonce@, ciphertext@) == Some(p@),
        opened matches Ok(p) ==> p@.len() + 16 == ciphertext@.len(),
        ciphertext@.len() < 16 ==> opened is Err,
{
    Aes256Gcm::new(Key::<Aes256Gcm>::from_slice(key)).decrypt(Nonce::from_slice(nonce), ciphertext)
}

/// The lowercase hex digit of `v` (below 16).
pub open spec fn hex_digit(v: nat) -> u8 {
    if v < 10 {
        (48 + v) as u8
    } else {
        (87 + v) as u8
    }
}

/// `data` in lowercase hex: two digits per byte, high nibble first.
pub open spec fn hex_lower(data: Seq<u8>) -> Seq<u8> {
    Seq::new(
        2 * data.len(),
        |i: int|
            if i % 2 == 0 {
                hex_digit((data[i / 2] / 16) as nat)
            } else {
                hex_digit((data[i / 2] % 16) as nat)
            },
    )
}

/// The value of a hex digit of either case.
pub open spec fn hex_value(c: u8) -> Option<nat> {
    if 48 <= c <= 57 {
        Some((c - 48) as nat)
    } else if 97 <= c <= 102 {
        Some((c - 87) as nat)
    } else if 65 <= c <= 70 {
        Some((c - 55) as nat)
    } else {
        None
    }
}

/// The bytes that the hex text `text` stands for: `None` unless its length is
/// even and every character is a hex digit.
pub open spec fn hex_decoded(text: Seq<u8>) -> Option<Seq<u8>> {
    if text.len() % 2 == 0 && forall|i: int| 0 <= i < text.len() ==> (#[trigger] hex_value(text[i])) is Some {
        Some(
            Seq::new(
                text.len() / 2,
                |i: int| (hex_value(text[2 * i]).unwrap() * 16 + hex_value(text[2 * i + 1]).unwrap()) as u8,
            ),
        )
    } else {
        None
    }
}

/// Law: the hex digits of the values 0 to 15 are `0123456789abcdef`, lowercase.
pub proof fn law_hex_digits(v: nat)
    requires
        v < 16,
    ensures
        hex_digit(v) as char == "0123456789abcdef"@[v as int],
        hex_value(hex_digit(v)) == Some(v),
{
    reveal_strlit("0123456789abcdef");
}

/// Law: decoding the hex text of some bytes gives those bytes back.
pub proof fn law_hex_round_trip(data: Seq<u8>)
    ensures
        hex_decoded(hex_lower(data)) == Some(data),
{
    let text = hex_lower(data);
    assert forall|i: int| 0 <= i < text.len() implies (#[trigger] hex_value(text[i])) is Some by {
        let b = data[i / 2];
        if i % 2 == 0 {
            assert(text[i] == hex_digit((b / 16) as nat));
        } else {
            assert(text[i] == hex_digit((b % 16) as nat));
        }
    }
    let decoded = hex_decoded(text).unwrap();
    assert forall|i: int| 0 <= i < data.len() implies #[trigger] decoded[i] == data[i] by {
        let b = data[i];
        assert((2 * i) / 2 == i);
        assert((2 * i + 1) / 2 == i);
        assert(text[2 * i] == hex_digit((b / 16) as nat));
        assert(text[2 * i + 1] == hex_digit((b % 16) as nat));
        assert(hex_value(hex_digit((b / 16) as nat)) == Some((b / 16) as nat));
        assert(hex_value(hex_digit((b % 16) as nat)) == Some((b % 16) as nat));
    }
    assert(decoded =~= data);
}

/// Trusted: `hex::encode(data)` of the `hex` crate, as bytes. Claimed: the
/// lowercase hex text of `data`, two digits per byte, high nibble first.
#[verifier::external_body]
fn hex_encode(data: &[u8]) -> (text: Vec<u8>)
    ensures
        text@ == hex_lower(data@),
{
    hex::encode(data).into_bytes()
}

/// Trusted: `hex::decode(text)` of the `hex` crate. Claimed: it succeeds
/// exactly when `text` has even length and only hex digits of either case, and
/// then returns the bytes the digit pairs stand for.
#[verifier::external_body]
fn hex_decode(text: &[u8]) -> (bytes: Result<Vec<u8>, hex::FromHexError>)
    ensures
        bytes is Ok <==> hex_decoded(text@) is Some,
        bytes matches Ok(b) ==> hex_decoded(text@) == Some(b@),
{
    hex::decode(text)
}

/// The benchmark's key: `an-incredibly-secure-32-byte-key`.
pub open spec fn bench_key() -> Seq<u8> {
    seq![
        97u8, 110u8, 45u8, 105u8, 110u8, 99u8, 114u8, 101u8, 100u8, 105u8, 98u8, 108u8, 121u8,
        45u8, 115u8, 101u8, 99u8, 117u8, 114u8, 101u8, 45u8, 51u8, 50u8, 45u8, 98u8, 121u8,
        116u8, 101u8, 45u8, 107u8, 101u8, 121u8,
    ]
}

/// The benchmark's nonce: `unique-nonce`.
pub open spec fn bench_nonce() -> Seq<u8> {
    seq![117u8, 110u8, 105u8, 113u8, 117u8, 101u8, 45u8, 110u8, 111u8, 110u8, 99u8, 101u8]
}

/// The plaintext every write carries: 64 bytes `A`.
pub open spec fn plain_payload() -> Seq<u8> {
    repeated(65u8, 64)
}

/// Law: the benchmark encrypts under the key `an-incredibly-secure-32-byte-key`
/// and the nonce `unique-nonce`, and every write carries 64 bytes `A`.
pub proof fn law_bench_secrets()
    ensures
        ascii_text(bench_key()) == "an-incredibly-secure-32-byte-key"@,
        ascii_text(bench_nonce()) == "unique-nonce"@,
        ascii_text(plain_payload()) == Seq::new(64, |i: int| 'A'),
{
    reveal_strlit("an-incredibly-secure-32-byte-key");
    reveal_strlit("unique-nonce");
    assert(ascii_text(bench_key()) =~= "an-incredibly-secure-32-byte-key"@);
    assert(ascii_text(bench_nonce()) =~= "unique-nonce"@);
    assert(ascii_text(plain_payload()) =~= Seq::new(64, |i: int| 'A'));
}

fn key_bytes() -> (key: [u8; 32])
    ensures
        key@ == bench_key(),
{
    let key: [u8; 32] = [
        97u8, 110u8, 45u8, 105u8, 110u8, 99u8, 114u8, 101u8, 100u8, 105u8, 98u8, 108u8, 121u8,
        45u8, 115u8, 101u8, 99u8, 117u8, 114u8, 101u8, 45u8, 51u8, 50u8, 45u8, 98u8, 121u8,
        116u8, 101u8, 45u8, 107u8, 101u8, 121u8,
    ];
    assert(key@ =~= bench_key());
    key
}

fn nonce_bytes() -> (nonce: [u8; 12])
    ensures
        nonce@ == bench_nonce(),
{
    let nonce: [u8; 12] = [117u8, 110u8, 105u8, 113u8, 117u8, 101u8, 45u8, 110u8, 111u8, 110u8, 99u8, 101u8];
    assert(nonce@ =~= bench_nonce());
    nonce
}

/// The value the encrypted-payload benchmark writes: the 64 bytes `A` as they
/// are, or, with encryption, their AES-256-GCM sealing in lowercase hex. The
/// encrypted value, read back from a reply, opens to the 64 bytes `A` again.
pub fn write_payload(use_aes: bool) -> (payload: Vec<u8>)
    ensures
        !use_aes ==> payload@ == plain_payload(),
        use_aes ==> payload@ == hex_lower(aes256gcm_seal(bench_key(), bench_nonce(), plain_payload())),
        use_aes ==> payload@.len() == 160,
        use_aes ==> opened_reply(payload@) == Ok::<Seq<u8>, PayloadError>(plain_payload()),
{
    let plain: Vec<u8> = vec![65u8; 64];
    assert(plain@ =~= plain_payload());
    if !use_aes {
        return plain;
    }
    let key = key_bytes();
    let nonce = nonce_bytes();
    match aes256gcm_encrypt(&key, &nonce, plain.as_slice()) {
        Ok(sealed) => {
            let text = hex_encode(sealed.as_slice());
            proof {
                law_hex_round_trip(sealed@);
            }
            text
        },
        Err(_) => {
            assert(false);
            plain
        },
    }
}

/// Why a reply body does not hold the expected payload.
#[derive(Clone, Copy, Debug, PartialEq, Eq, Structural)]
pub enum PayloadError {
    /// The body is not hex text.
    NotHex,
    /// The ciphertext does not authenticate under the benchmark's key and nonce.
    Rejected,
    /// The plaintext is not 64 bytes long.
    WrongLength,
}

/// What a decrypted reply must be: the 64-byte payload the benchmark wrote.
pub open spec fn accepted_plaintext(plain: Seq<u8>) -> Result<Seq<u8>, PayloadError> {
    if plain.len() == 64 {
        Ok(plain)
    } else {
        Err(PayloadError::WrongLength)
    }
}

/// Accepts a decrypted reply when it has the length of the payload written.
pub fn accept_plaintext(plain: Vec<u8>) -> (checked: Result<Vec<u8>, PayloadError>)
    ensures
        checked is Ok <==> accepted_plaintext(plain@) is Ok,
        checked matches Ok(p) ==> p@ == plain@,
        checked is Err ==> checked == Err::<Vec<u8>, _>(PayloadError::WrongLength),
{
    if plain.len() == 64 {
        Ok(plain)
    } else {
        Err(PayloadError::WrongLength)
    }
}

/// What the first `length` bytes of a reply body give: hex-decoded, opened
/// under the benchmark's key and nonce, and held to the payload's length.
pub open spec fn opened_reply(text: Seq<u8>) -> Result<Seq<u8>, PayloadError> {
    match hex_decoded(text) {
        None => Err(PayloadError::NotHex),
        Some(sealed) => match aes256gcm_open(bench_key(), bench_nonce(), sealed) {
            None => Err(PayloadError::Rejected),
            Some(plain) => accepted_plaintext(plain),
        },
    }
}

/// Decrypts the bulk string of `length` bytes at the start of `body`.
pub fn open_reply_body(body: &[u8], length: usize) -> (plain: Result<Vec<u8>, PayloadError>)
    requires
        length <= body@.len(),
    ensures
        plain is Ok <==> opened_reply(body@.take(length as int)) is Ok,
        plain matches Ok(p) ==> opened_reply(body@.take(length as int)) == Ok::<_, PayloadError>(p@),
        plain matches Err(e) ==> opened_reply(body@.take(length as int)) == Err::<Seq<u8>, _>(e),
{
    let text = vstd::slice::slice_subrange(body, 0, length);
    assert(text@ =~= body@.take(length as int));
    let sealed = match hex_decode(text) {
        Ok(s) => s,
        Err(_) => return Err(PayloadError::NotHex),
    };
    let key = key_bytes();
    let nonce = nonce_bytes();
    match aes256gcm_decrypt(&key, &nonce, sealed.as_slice()) {
        Ok(p) => accept_plaintext(p),
        Err(_) => Err(PayloadError::Rejected),
    }
}

/// Checks a reply body read by the encrypted-payload benchmark: with
/// encryption on, its first `length` bytes must open to the 64-byte payload;
/// without it, any body is accepted.
pub fn check_reply_body(use_aes: bool, body: &[u8], length: usize) -> (checked: Result<(), PayloadError>)
    requires
        length <= body@.len(),
    ensures
        !use_aes ==> checked is Ok,
        use_aes ==> (checked is Ok <==> opened_reply(body@.take(length as int)) is Ok),
        use_aes ==> (checked matches Err(e) ==> opened_reply(body@.take(length as int)) == Err::<Seq<u8>, _>(e)),
{
    if !use_aes {
        return Ok(());
    }
    match open_reply_body(body, length) {
        Ok(_) => Ok(()),
        Err(e) => Err(e),
    }
}

} // verus!
