//! Chrome cookie protection for storage version 24: a PBKDF2 key, AES-128-CBC with
//! PKCS#7 padding, and a SHA-256 digest of the host that binds a value to its cookie.
use vstd::prelude::*;
use aes::cipher::{BlockDecryptMut, KeyIvInit, block_padding::Pkcs7};
use super::{is_cookie_char, unsupported, unsupported_error};
use crate::error::Error;
use crate::hashing::{sha256, sha256_digest};

verus! {

/// The largest protected value: prefix, host digest, a maximal cookie and padding.
pub const MAX_ENCRYPTED: usize = 3 + 32 + 4096 + 16;

/// The 16-byte PBKDF2-HMAC-SHA1 output for a password, a salt and a round count.
pub uninterp spec fn pbkdf2_hmac_sha1_16(password: Seq<u8>, salt: Seq<u8>, rounds: u32) -> Seq<u8>;

/// AES-128-CBC decryption followed by PKCS#7 unpadding; `None` when the input is not a
/// whole number of blocks or the padding is malformed.
pub uninterp spec fn aes128_cbc_pkcs7_decrypt(key: Seq<u8>, iv: Seq<u8>, data: Seq<u8>) -> Option<Seq<u8>>;

/// Calls `pbkdf2::pbkdf2_hmac_array::<sha1::Sha1, 16>`, which never fails for HMAC;
/// the contract names its result.
#[verifier::external_body]
fn pbkdf2_sha1(password: &[u8], salt: &[u8], rounds: u32) -> (key: [u8; 16])
    ensures
        key@ == pbkdf2_hmac_sha1_16(password@, salt@, rounds),
{
    pbkdf2::pbkdf2_hmac_array::<sha1::Sha1, 16>(password, salt, rounds)
}

/// Calls `cbc::Decryptor::<aes::Aes128>::decrypt_padded_mut::<Pkcs7>` on a copy of the
/// data held in a zeroizing buffer; an unpadding error becomes `None`. The contract
/// names the result and, as the `cipher` documentation states, fails on input that is
/// not a whole number of 16-byte blocks.
#[verifier::external_body]
fn aes128_cbc_decrypt(key: &[u8; 16], iv: &[u8; 16], data: &[u8]) -> (r: Option<Vec<u8>>)
    ensures
        match r {
            Some(p) => aes128_cbc_pkcs7_decrypt(key@, iv@, data@) == Some(p@),
            None => aes128_cbc_pkcs7_decrypt(key@, iv@, data@) is None,
        },
        data@.len() % 16 != 0 ==> r is None,
{
    let mut buffer = zeroize::Zeroizing::new(data.to_vec());
    cbc::Decryptor::<aes::Aes128>::new(key.into(), iv.into())
        .decrypt_padded_mut::<Pkcs7>(&mut buffer)
        .ok()
        .map(|p| p.to_vec())
}

/// The fixed salt of Chrome's key derivation, `saltysalt`.
pub open spec fn chrome_salt() -> Seq<u8> {
    seq![0x73u8, 0x61, 0x6c, 0x74, 0x79, 0x73, 0x61, 0x6c, 0x74]
}

/// The fixed initialization vector: sixteen spaces.
pub open spec fn chrome_iv() -> Seq<u8> {
    Seq::new(16, |_i: int| 0x20u8)
}

/// The key for a Safe Storage password: 1003 rounds of PBKDF2-HMAC-SHA1 over the fixed
/// salt. An empty password is refused; there is no fallback key.
pub open spec fn chrome_key(password: Seq<u8>) -> Option<Seq<u8>> {
    if password.len() == 0 {
        None
    } else {
        Some(pbkdf2_hmac_sha1_16(password, chrome_salt(), 1003))
    }
}

/// Derives the cookie key from the Safe Storage password.
pub fn derive_key(password: &[u8]) -> (r: Result<[u8; 16], Error>)
    ensures
        match r {
            Ok(k) => chrome_key(password@) == Some(k@),
            Err(e) => chrome_key(password@) is None && e == unsupported_error(),
        },
{
    if password.len() == 0 {
        return Err(unsupported());
    }
    let salt: [u8; 9] = [0x73, 0x61, 0x6c, 0x74, 0x79, 0x73, 0x61, 0x6c, 0x74];
    assert(salt@ == chrome_salt());
    Ok(pbkdf2_sha1(password, salt.as_slice(), 1003))
}

/// `v10` followed by a whole number of blocks, within the size bound.
pub open spec fn protected_v24(e: Seq<u8>) -> bool {
    &&& 3 < e.len() <= MAX_ENCRYPTED
    &&& e[0] == 0x76 && e[1] == 0x31 && e[2] == 0x30
    &&& (e.len() - 3) % 16 == 0
}

/// A nonempty cookie value of at most 4096 cookie octets, as bytes.
pub open spec fn cookie_bytes(b: Seq<u8>) -> bool {
    &&& 0 < b.len() <= 4096
    &&& forall|i: int| 0 <= i < b.len() ==> #[trigger] is_cookie_char(b[i] as char)
}

pub open spec fn bytes_text(b: Seq<u8>) -> Seq<char> {
    b.map_values(|x: u8| x as char)
}

/// The cookie value protected in `e` for `host` under `key`: the plaintext must start
/// with the digest of the exact stored host, and the rest must be a cookie value.
pub open spec fn decrypted_cookie(e: Seq<u8>, host: Seq<u8>, key: Seq<u8>) -> Option<Seq<char>> {
    if !protected_v24(e) {
        None
    } else {
        match aes128_cbc_pkcs7_decrypt(key, chrome_iv(), e.skip(3)) {
            None => None,
            Some(p) => if p.len() > 32 && p.take(32) == sha256(host) && cookie_bytes(p.skip(32)) {
                Some(bytes_text(p.skip(32)))
            } else {
                None
            },
        }
    }
}

/// Decrypts one protected cookie value stored for `host`. Every malformed, foreign or
/// invalid value fails closed with the same error.
pub fn decrypt_v24(encrypted: &[u8], host: &str, key: &[u8; 16]) -> (r: Result<String, Error>)
    ensures
        match r {
            Ok(v) => decrypted_cookie(encrypted@, vstd::utf8::encode_utf8(host@), key@) == Some(v@),
            Err(e) => decrypted_cookie(encrypted@, vstd::utf8::encode_utf8(host@), key@) is None && e == unsupported_error(),
        },
{
    let n = encrypted.len();
    if n <= 3 || n > MAX_ENCRYPTED || encrypted[0] != 0x76 || encrypted[1] != 0x31 || encrypted[2] != 0x30
        || (n - 3) % 16 != 0 {
        return Err(unsupported());
    }
    let body = vstd::slice::slice_subrange(encrypted, 3, n);
    assert(body@ == encrypted@.skip(3));
    let iv: [u8; 16] = [0x20; 16];
    assert(iv@ =~= chrome_iv());
    let plaintext = match aes128_cbc_decrypt(key, &iv, body) {
        Some(p) => p,
        None => return Err(unsupported()),
    };
    let digest = sha256_digest(host.as_bytes());
    if plaintext.len() <= 32 {
        return Err(unsupported());
    }
    let mut i: usize = 0;
    while i < 32
        invariant
            i <= 32,
            plaintext@.len() > 32,
            digest@.len() == 32,
            protected_v24(encrypted@),
            aes128_cbc_pkcs7_decrypt(key@, chrome_iv(), encrypted@.skip(3)) == Some(plaintext@),
            digest@ == sha256(vstd::utf8::encode_utf8(host@)),
            forall|k: int| 0 <= k < i ==> plaintext@[k] == digest@[k],
        decreases 32 - i,
    {
        if plaintext[i] != digest[i] {
            assert(plaintext@.take(32)[i as int] != digest@[i as int]);
            return Err(unsupported());
        }
        i = i + 1;
    }
    assert(plaintext@.take(32) =~= digest@);
    let m = plaintext.len() - 32;
    if m > 4096 {
        return Err(unsupported());
    }
    let ghost rest = plaintext@.skip(32);
    let mut value = String::new();
    let mut j: usize = 32;
    while j < plaintext.len()
        invariant
            32 <= j <= plaintext@.len(),
            plaintext@.len() <= 32 + 4096,
            rest == plaintext@.skip(32),
            protected_v24(encrypted@),
            aes128_cbc_pkcs7_decrypt(key@, chrome_iv(), encrypted@.skip(3)) == Some(plaintext@),
            plaintext@.take(32) == sha256(vstd::utf8::encode_utf8(host@)),
            value@ == bytes_text(rest.take(j - 32)),
            forall|k: int| 0 <= k < j - 32 ==> #[trigger] is_cookie_char(rest[k] as char),
        decreases plaintext@.len() - j,
    {
        let c = plaintext[j] as char;
        if !super::is_cookie_char_exec(c) {
            assert(rest[j - 32] == plaintext@[j as int]);
            assert(!is_cookie_char(rest[j - 32] as char));
            return Err(unsupported());
        }
        value.push(c);
        assert(bytes_text(rest.take(j + 1 - 32)) =~= bytes_text(rest.take(j - 32)).push(c));
        j = j + 1;
    }
    assert(rest.take(j - 32) =~= rest);
    Ok(value)
}

} // verus!
