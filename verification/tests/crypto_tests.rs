use aes::cipher::{BlockEncryptMut, KeyIvInit, block_padding::Pkcs7};
use sha2::{Digest, Sha256};
use xcli::credentials::crypto::{decrypt_v24, derive_key};
use xcli::credentials::{Session, valid_cookie};
use xcli::error::Kind;

fn encrypt_fixture(host: &str, value: &[u8], key: &[u8; 16]) -> Vec<u8> {
    let iv = [b' '; 16];
    let mut data = Sha256::digest(host.as_bytes()).to_vec();
    data.extend_from_slice(value);
    let len = data.len();
    data.resize(len + 16, 0);
    let encrypted = cbc::Encryptor::<aes::Aes128>::new(key.into(), (&iv).into())
        .encrypt_padded_mut::<Pkcs7>(&mut data, len)
        .unwrap();
    [b"v10".as_slice(), encrypted].concat()
}

#[test]
fn pbkdf2_known_answer_uses_text_bytes() {
    // Independently generated using Python hashlib.pbkdf2_hmac.
    assert_eq!(
        &derive_key(b"synthetic-password").unwrap(),
        &[
            0xad, 0x47, 0xd0, 0x40, 0xc1, 0x84, 0xe4, 0x03, 0xf3, 0xaf, 0xc7, 0xb0, 0x40, 0x54,
            0xec, 0x52,
        ]
    );
    assert!(derive_key(b"").is_err());
}

#[test]
fn independently_generated_openssl_ciphertext() {
    // Python hashlib KDF/digest + OpenSSL enc -aes-128-cbc, synthetic only.
    let hex = "7631302e7f3d285c73ae062629059333c36f44ae8a7e04f854eda3f997fbc615a600a4e8d3487de103cd7928324e835b19d75847fb720e259be3af8e4766c2872bf25a";
    let encrypted: Vec<u8> = (0..hex.len())
        .step_by(2)
        .map(|i| u8::from_str_radix(&hex[i..i + 2], 16).unwrap())
        .collect();
    let key = derive_key(b"synthetic-password").unwrap();
    assert_eq!(
        decrypt_v24(&encrypted, ".x.com", &key).unwrap(),
        "synthetic-cookie"
    );
}

#[test]
fn exact_stored_host_digest_is_required() {
    let key = derive_key(b"synthetic-password").unwrap();
    for host in [".x.com", "x.com"] {
        let encrypted = encrypt_fixture(host, b"synthetic-cookie", &key);
        assert_eq!(
            decrypt_v24(&encrypted, host, &key).unwrap(),
            "synthetic-cookie"
        );
        let other = if host.starts_with('.') {
            "x.com"
        } else {
            ".x.com"
        };
        assert!(decrypt_v24(&encrypted, other, &key).is_err());
    }
}

#[test]
fn malformed_protected_and_invalid_plaintext_fail_closed() {
    let key = derive_key(b"synthetic-password").unwrap();
    for value in [b"".as_slice(), b"a\r\nb", b"bad;cookie", &[0xff]] {
        let encrypted = encrypt_fixture(".x.com", value, &key);
        assert!(decrypt_v24(&encrypted, ".x.com", &key).is_err());
    }
    for encrypted in [
        b"".as_slice(),
        b"v10",
        b"v10abc",
        b"v20protected",
        b"APPBprotected",
        b"plaintext",
    ] {
        assert!(decrypt_v24(encrypted, ".x.com", &key).is_err());
    }
    let mut encrypted = encrypt_fixture(".x.com", b"synthetic-cookie", &key);
    // Value length 16 gives a full block of 0x10 padding. Flipping the
    // preceding block's last byte makes the last padding byte zero.
    let i = encrypted.len() - 17;
    encrypted[i] ^= 0x10;
    assert!(decrypt_v24(&encrypted, ".x.com", &key).is_err());
    let encrypted = encrypt_fixture(".x.com", b"synthetic-cookie", &key);
    assert!(decrypt_v24(&encrypted, ".x.com", &[0; 16]).is_err());
}

#[test]
fn decrypt_errors_are_unsupported_storage() {
    let key = derive_key(b"synthetic-password").unwrap();
    assert_eq!(decrypt_v24(b"v10abc", ".x.com", &key).unwrap_err().kind, Kind::Unsupported);
    assert_eq!(derive_key(b"").unwrap_err().kind, Kind::Unsupported);
    let oversized = encrypt_fixture(".x.com", &vec![b'a'; 4097], &key);
    assert!(decrypt_v24(&oversized, ".x.com", &key).is_err());
    let largest = encrypt_fixture(".x.com", &vec![b'a'; 4096], &key);
    assert_eq!(decrypt_v24(&largest, ".x.com", &key).unwrap().len(), 4096);
}

#[test]
fn session_headers_are_minimal() {
    let session = Session::new("synthetic-auth".into(), "synthetic-csrf".into()).unwrap();
    let headers = session.headers();
    assert_eq!(headers.len(), 2);
    assert_eq!(headers[0].0, "cookie");
    assert_eq!(headers[0].1, "auth_token=synthetic-auth; ct0=synthetic-csrf");
    assert_eq!(headers[1].0, "x-csrf-token");
    assert_eq!(headers[1].1, "synthetic-csrf");
}

#[test]
fn rejects_empty_oversize_and_all_non_cookie_octets() {
    for b in 0u8..=127 {
        let s = String::from_utf8(vec![b]).unwrap();
        let expected = matches!(b, 0x21 | 0x23..=0x2b | 0x2d..=0x3a | 0x3c..=0x5b | 0x5d..=0x7e);
        assert_eq!(Session::new(s.clone(), "ok".into()).is_ok(), expected);
        assert_eq!(Session::new("ok".into(), s).is_ok(), expected);
    }
    for s in [
        String::new(),
        "a".repeat(4097),
        "café".into(),
        "a\r\nx-evil: true".into(),
    ] {
        assert!(Session::new(s, "ok".into()).is_err());
    }
    assert!(valid_cookie(&"a".repeat(4096)));
    assert_eq!(
        Session::new(String::new(), "ok".into()).err().unwrap().kind,
        Kind::Authentication
    );
}
