//! Cache-file encryption using ChaCha20-Poly1305 (AEAD).
//!
//! File format: `[12-byte nonce][ciphertext + 16-byte Poly1305 tag]`.

use crate::xml::push_bytes;
use vstd::prelude::*;
use vstd::slice::slice_subrange;
use vstd::utf8::encode_utf8;

verus! {

/// 256-bit encryption key.
#[derive(Debug)]
pub struct EncryptionKey {
    bytes: [u8; 32],
}

impl View for EncryptionKey {
    type V = Seq<u8>;

    closed spec fn view(&self) -> Seq<u8> {
        self.bytes@
    }
}

impl Clone for EncryptionKey {
    fn clone(&self) -> (r: EncryptionKey)
        ensures
            r@ == self@,
    {
        EncryptionKey { bytes: self.bytes }
    }
}

impl EncryptionKey {
    pub fn from_bytes(bytes: [u8; 32]) -> (r: EncryptionKey)
        ensures
            r@ == bytes@,
    {
        EncryptionKey { bytes }
    }

    pub fn as_bytes(&self) -> (r: &[u8; 32])
        ensures
            r@ == self@,
    {
        &self.bytes
    }

    /// Overwrites the key, so that it does not stay in memory.
    pub fn scrub(&mut self)
        ensures
            final(self)@ == Seq::new(32, |i: int| 0u8),
    {
        zeroize_bytes(&mut self.bytes);
        proof {
            assert(self.bytes@ =~= Seq::new(32, |i: int| 0u8));
        }
    }
}

/// Errors from encrypt/decrypt operations.
#[derive(Clone, Copy, Debug, PartialEq, Eq, Structural)]
pub enum CryptoError {
    /// Ciphertext too short to contain nonce.
    DataTooShort,
    /// AEAD decryption failed (wrong key, corrupted, or tampered).
    DecryptionFailed,
}

impl CryptoError {
    /// The message that the error is shown as.
    pub fn message(self) -> (r: &'static str)
        ensures
            r@ == (match self {
                CryptoError::DataTooShort => "encrypted data too short"@,
                CryptoError::DecryptionFailed =>
                    "decryption failed (wrong key or corrupted data)"@,
            }),
    {
        match self {
            CryptoError::DataTooShort => "encrypted data too short",
            CryptoError::DecryptionFailed => "decryption failed (wrong key or corrupted data)",
        }
    }
}

/// The largest number of bytes that the cipher takes at once.
pub const MAX_MESSAGE: u64 = 0x3f_ffff_ff80;

// ── What the outside crates compute ────────────────────────────────

/// The ciphertext and tag of a message under a key and a nonce.
pub uninterp spec fn aead_seal(key: Seq<u8>, nonce: Seq<u8>, plaintext: Seq<u8>) -> Seq<u8>;

/// The message of a ciphertext and tag, where the tag is right.
pub uninterp spec fn aead_open(key: Seq<u8>, nonce: Seq<u8>, ciphertext: Seq<u8>) -> Option<
    Seq<u8>,
>;

/// The key that a passphrase and a salt stand for.
pub uninterp spec fn argon2_key(passphrase: Seq<u8>, salt: Seq<u8>) -> Seq<u8>;

pub open spec fn bytes_option(v: Option<Vec<u8>>) -> Option<Seq<u8>> {
    match v {
        Some(v) => Some(v@),
        None => None,
    }
}

/// `chacha20poly1305::ChaCha20Poly1305::encrypt`: the ciphertext, which is as long as the
/// message, and behind it the tag of 16 bytes.
#[verifier::external_body]
fn seal(key: &[u8; 32], nonce: &[u8; 12], plaintext: &[u8]) -> (r: Vec<u8>)
    requires
        plaintext@.len() <= MAX_MESSAGE,
    ensures
        r@ == aead_seal(key@, nonce@, plaintext@),
        r@.len() == plaintext@.len() + 16,
{
    let cipher = <chacha20poly1305::ChaCha20Poly1305 as chacha20poly1305::KeyInit>::new(key.into());
    chacha20poly1305::aead::Aead::encrypt(&cipher, nonce.into(), plaintext).unwrap()
}

/// `chacha20poly1305::ChaCha20Poly1305::decrypt`: the message, where the ciphertext is the
/// one that the message is encrypted as; an error otherwise. In front of the tag stands the
/// message under the key stream of the key and the nonce, so that only this message is
/// encrypted to what stands there.
#[verifier::external_body]
fn open_sealed(key: &[u8; 32], nonce: &[u8], ciphertext: &[u8]) -> (r: Option<Vec<u8>>)
    requires
        nonce@.len() == 12,
        ciphertext@.len() <= MAX_MESSAGE + 16,
    ensures
        bytes_option(r) == aead_open(key@, nonce@, ciphertext@),
        match r {
            Some(p) => ciphertext@ == aead_seal(key@, nonce@, p@) && ciphertext@.len() == p@.len()
                + 16 && forall|q: Seq<u8>|
                q.len() == p@.len() && (#[trigger] aead_seal(key@, nonce@, q)).take(q.len() as int)
                    == ciphertext@.take(q.len() as int) ==> q == p@,
            None => true,
        },
        forall|p: Seq<u8>|
            ciphertext@ == #[trigger] aead_seal(key@, nonce@, p) && ciphertext@.len() == p.len()
                + 16 ==> bytes_option(r) == Some(p),
{
    let cipher = <chacha20poly1305::ChaCha20Poly1305 as chacha20poly1305::KeyInit>::new(key.into());
    chacha20poly1305::aead::Aead::decrypt(&cipher, nonce.into(), ciphertext).ok()
}

/// `chacha20poly1305::ChaCha20Poly1305::generate_nonce`: twelve random bytes.
#[verifier::external_body]
fn random_nonce() -> [u8; 12] {
    let mut rng = chacha20poly1305::aead::OsRng;
    <chacha20poly1305::ChaCha20Poly1305 as chacha20poly1305::AeadCore>::generate_nonce(&mut rng).into()
}

/// `rand::RngCore::fill_bytes` of the system's generator: random bytes. Nothing is promised of
/// their values, for any may come. It has no result where the system has no random bytes.
#[verifier::external_body]
fn random_bytes<const N: usize>() -> [u8; N] {
    let mut bytes = [0u8; N];
    rand::RngCore::fill_bytes(&mut chacha20poly1305::aead::OsRng, &mut bytes);
    bytes
}

/// `argon2::Argon2::hash_password_into` with the default parameters: a key of 32 bytes,
/// which is a function of the passphrase and the salt.
#[verifier::external_body]
fn hash_passphrase(passphrase: &[u8], salt: &[u8; 16]) -> (r: [u8; 32])
    requires
        passphrase@.len() <= u32::MAX,
    ensures
        r@ == argon2_key(passphrase@, salt@),
{
    let mut out = [0u8; 32];
    argon2::Argon2::default().hash_password_into(passphrase, salt, &mut out).unwrap();
    out
}

/// `zeroize::Zeroize::zeroize`: every byte is zero afterwards.
#[verifier::external_body]
fn zeroize_bytes(bytes: &mut [u8; 32])
    ensures
        forall|i: int| 0 <= i < 32 ==> #[trigger] final(bytes)@[i] == 0,
{
    zeroize::Zeroize::zeroize(bytes)
}

// ── Encryption ─────────────────────────────────────────────────────

/// What a message is encrypted as with a nonce.
pub open spec fn sealed(key: Seq<u8>, nonce: Seq<u8>, plaintext: Seq<u8>) -> Seq<u8> {
    nonce + aead_seal(key, nonce, plaintext)
}

/// Encrypt `plaintext` with the given key and nonce.
pub fn encrypt_with_nonce(plaintext: &[u8], key: &EncryptionKey, nonce: [u8; 12]) -> (r: Vec<u8>)
    requires
        plaintext@.len() <= MAX_MESSAGE,
    ensures
        r@ == sealed(key@, nonce@, plaintext@),
        r@.len() == plaintext@.len() + 28,
{
    let ciphertext = seal(&key.bytes, &nonce, plaintext);
    let mut out: Vec<u8> = Vec::new();
    push_bytes(&mut out, nonce.as_slice());
    push_bytes(&mut out, ciphertext.as_slice());
    proof {
        assert(out@ =~= sealed(key@, nonce@, plaintext@));
    }
    out
}

/// Encrypt `plaintext` with the given key.
///
/// Returns `nonce || ciphertext` as raw bytes.
pub fn encrypt(plaintext: &[u8], key: &EncryptionKey) -> (r: Vec<u8>)
    requires
        plaintext@.len() <= MAX_MESSAGE,
    ensures
        exists|nonce: Seq<u8>|
            nonce.len() == 12 && r@ == #[trigger] sealed(key@, nonce, plaintext@),
        r@.len() == plaintext@.len() + 28,
{
    let nonce = random_nonce();
    let r = encrypt_with_nonce(plaintext, key, nonce);
    proof {
        assert(nonce@.len() == 12);
    }
    r
}

pub open spec fn decrypted(data: Seq<u8>, key: Seq<u8>) -> Result<Seq<u8>, CryptoError> {
    if data.len() < 13 {
        Err(CryptoError::DataTooShort)
    } else if data.len() > MAX_MESSAGE + 28 {
        Err(CryptoError::DecryptionFailed)
    } else {
        match aead_open(key, data.take(12), data.skip(12)) {
            Some(plaintext) => Ok(plaintext),
            None => Err(CryptoError::DecryptionFailed),
        }
    }
}

pub open spec fn decrypted_view(r: Result<Vec<u8>, CryptoError>) -> Result<Seq<u8>, CryptoError> {
    match r {
        Ok(v) => Ok(v@),
        Err(e) => Err(e),
    }
}

/// Whether data is the encryption `c` of a message with another tag: the nonce and the
/// ciphertext are the same, and something in the last 16 bytes is not.
pub open spec fn has_other_tag(data: Seq<u8>, c: Seq<u8>) -> bool {
    &&& data.len() == c.len() >= 28
    &&& data.take(data.len() - 16) == c.take(c.len() - 16)
    &&& data != c
}

/// Decrypt data produced by [`encrypt`].
///
/// Expects `[12-byte nonce][ciphertext + tag]`. What was encrypted with the key comes
/// back, and nothing comes back but what encrypts to the data. Data whose tag was changed is
/// refused.
pub fn decrypt(data: &[u8], key: &EncryptionKey) -> (r: Result<Vec<u8>, CryptoError>)
    ensures
        decrypted_view(r) == decrypted(data@, key@),
        forall|nonce: Seq<u8>, plaintext: Seq<u8>|
            nonce.len() == 12 && data@ == #[trigger] sealed(key@, nonce, plaintext)
                && data@.len() == plaintext.len() + 28 && plaintext.len() <= MAX_MESSAGE
                ==> decrypted_view(r) == Ok::<Seq<u8>, CryptoError>(plaintext),
        match r {
            Ok(plaintext) => data@ == sealed(key@, data@.take(12), plaintext@),
            Err(_) => true,
        },
        forall|nonce: Seq<u8>, plaintext: Seq<u8>|
            nonce.len() == 12 && data@.len() == plaintext.len() + 28 && has_other_tag(
                data@,
                #[trigger] sealed(key@, nonce, plaintext),
            ) ==> decrypted_view(r) == Err::<Seq<u8>, CryptoError>(CryptoError::DecryptionFailed),
{
    if data.len() < 13 {
        return Err(CryptoError::DataTooShort);
    }
    if data.len() as u64 > MAX_MESSAGE + 28 {
        return Err(CryptoError::DecryptionFailed);
    }
    let nonce = slice_subrange(data, 0, 12);
    let ciphertext = slice_subrange(data, 12, data.len());
    proof {
        assert(nonce@ =~= data@.take(12));
        assert(ciphertext@ =~= data@.skip(12));
        assert(data@ =~= nonce@ + ciphertext@);
        assert forall|n: Seq<u8>, p: Seq<u8>|
            n.len() == 12 && data@ == #[trigger] sealed(key@, n, p) implies n == nonce@
            && ciphertext@ == aead_seal(key@, nonce@, p) by {
            let s = sealed(key@, n, p);
            assert(s.take(12) =~= n);
            assert(s.skip(12) =~= aead_seal(key@, n, p));
        }
    }
    match open_sealed(&key.bytes, nonce, ciphertext) {
        Some(plaintext) => {
            proof {
                let p = plaintext@;
                assert forall|n: Seq<u8>, q: Seq<u8>|
                    n.len() == 12 && data@.len() == q.len() + 28 && has_other_tag(
                        data@,
                        #[trigger] sealed(key@, n, q),
                    ) implies false by {
                    let s = sealed(key@, n, q);
                    let length = q.len() as int;
                    assert(s.take(length + 12).take(12) =~= n);
                    assert(data@.take(length + 12).take(12) =~= nonce@);
                    assert(s.take(length + 12).skip(12) =~= aead_seal(key@, n, q).take(length));
                    assert(data@.take(length + 12).skip(12) =~= ciphertext@.take(length));
                    assert(q == p);
                }
            }
            Ok(plaintext)
        },
        None => Err(CryptoError::DecryptionFailed),
    }
}

/// Data is too short exactly where it holds no more than a nonce.
pub proof fn lemma_too_short(data: Seq<u8>, key: Seq<u8>)
    ensures
        decrypted(data, key) == Err::<Seq<u8>, CryptoError>(CryptoError::DataTooShort)
            <==> data.len() <= 12,
{
}

/// Generate a random 256-bit encryption key.
///
/// Every key of 32 bytes may come, so nothing more is said of it.
pub fn generate_key() -> (r: EncryptionKey)
    ensures
        r@.len() == 32,
{
    EncryptionKey { bytes: random_bytes::<32>() }
}

/// Derive a 256-bit key from a passphrase + salt using Argon2id.
///
/// The salt should be stored alongside the encrypted data (it is not secret).
pub fn derive_key_from_passphrase(passphrase: &str, salt: &[u8; 16]) -> (r: EncryptionKey)
    requires
        encode_utf8(passphrase@).len() <= u32::MAX,
    ensures
        r@ == argon2_key(encode_utf8(passphrase@), salt@),
{
    EncryptionKey { bytes: hash_passphrase(passphrase.as_bytes(), salt) }
}

/// Generate a random 16-byte salt for passphrase-based key derivation.
///
/// Every salt of 16 bytes may come, so nothing more is said of it.
pub fn generate_salt() -> (r: [u8; 16])
    ensures
        r@.len() == 16,
{
    random_bytes::<16>()
}

} // verus!
