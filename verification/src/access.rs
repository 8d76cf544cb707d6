//! Gateway keys, administrator passwords and credential encryption.
use vstd::prelude::*;
use crate::ids::hex_char;
use crate::text::len_bytes;
use crate::text::byte_len;
use crate::time::Timestamp;
use crate::types::{Error, Result, plain_error};
use vstd::string::StringExecFns;
use vstd::utf8::encode_utf8;

verus! {

/// What `base64`'s URL-safe alphabet without padding gives for some bytes.
pub uninterp spec fn base64_url(bytes: Seq<u8>) -> Seq<char>;

/// What `sha2::Sha256::digest` gives for some bytes.
pub uninterp spec fn sha256(bytes: Seq<u8>) -> Seq<u8>;

/// Whether `argon2`'s default verifier accepts a password for a PHC hash string.
pub uninterp spec fn argon2_accepts(password: Seq<u8>, hash: Seq<char>) -> bool;

/// The ChaCha20-Poly1305 ciphertext (with its tag) of a message, by key, nonce
/// and associated data.
pub uninterp spec fn aead_seal(key: Seq<u8>, nonce: Seq<u8>, aad: Seq<u8>, msg: Seq<u8>) -> Seq<u8>;

/// `rand::rngs::OsRng::fill_bytes` into `n` fresh bytes. The value is random;
/// only the length is promised. OsRng panics when the operating system has no
/// randomness source.
#[verifier::external_body]
fn os_random(n: usize) -> (r: Vec<u8>)
    ensures
        r@.len() == n,
{
    let mut buf = vec![0u8; n];
    rand::RngCore::fill_bytes(&mut rand::rngs::OsRng, &mut buf);
    buf
}

/// `base64::engine::general_purpose::URL_SAFE_NO_PAD.encode`.
#[verifier::external_body]
pub(crate) fn encode_base64_url(bytes: &[u8]) -> (r: String)
    ensures
        r@ == base64_url(bytes@),
{
    base64::Engine::encode(&base64::engine::general_purpose::URL_SAFE_NO_PAD, bytes)
}

/// `sha2::Sha256::digest`: 32 bytes, a function of the input alone.
#[verifier::external_body]
pub(crate) fn sha256_digest(bytes: &[u8]) -> (r: Vec<u8>)
    ensures
        r@ == sha256(bytes@),
        r@.len() == 32,
{
    <sha2::Sha256 as sha2::Digest>::digest(bytes).to_vec()
}

/// `argon2::Argon2::default().hash_password` with a random salt from OsRng:
/// a PHC string, or `None` where argon2 reports an error. The string carries
/// the salt and parameters, so the default verifier accepts the same password
/// for it; which salt was drawn is not stated.
#[verifier::external_body]
fn argon2_hash(password: &[u8]) -> (r: Option<String>)
    ensures
        r matches Some(h) ==> argon2_accepts(password@, h@),
{
    let salt = argon2::password_hash::SaltString::generate(&mut rand::rngs::OsRng);
    argon2::PasswordHasher::hash_password(&argon2::Argon2::default(), password, &salt).ok().map(
        |h| h.to_string(),
    )
}

/// `argon2::PasswordHash::new` followed by `Argon2::default().verify_password`.
#[verifier::external_body]
fn argon2_verify(password: &[u8], hash: &str) -> (r: bool)
    ensures
        r == argon2_accepts(password@, hash@),
{
    match argon2::PasswordHash::new(hash) {
        Ok(h) => argon2::PasswordVerifier::verify_password(&argon2::Argon2::default(), password, &h).is_ok(),
        Err(_) => false,
    }
}

/// `chacha20poly1305::ChaCha20Poly1305::encrypt` with associated data: the
/// sealed form of the message, or `None` where the crate reports an error,
/// which it does only for messages of some 2^38 bytes and more.
#[verifier::external_body]
fn aead_encrypt(key: &[u8; 32], nonce: &[u8], aad: &[u8], msg: &[u8]) -> (r: Option<Vec<u8>>)
    requires
        nonce@.len() == 12,
    ensures
        r matches Some(c) ==> c@ == aead_seal(key@, nonce@, aad@, msg@),
        r matches Some(c) ==> c@.len() == msg@.len() + 16,
        msg@.len() < 0x1_0000_0000 ==> r is Some,
{
    let cipher = <chacha20poly1305::ChaCha20Poly1305 as chacha20poly1305::KeyInit>::new(
        chacha20poly1305::Key::from_slice(key),
    );
    let payload = chacha20poly1305::aead::Payload { msg, aad };
    chacha20poly1305::aead::Aead::encrypt(&cipher, chacha20poly1305::Nonce::from_slice(nonce), payload).ok()
}

/// `chacha20poly1305::ChaCha20Poly1305::decrypt` with associated data. It
/// succeeds exactly on a ciphertext that is the sealing of some message under
/// the same key, nonce and associated data, and gives back that message; for a
/// fixed key and nonce the cipher is a keystream XOR, so no two messages seal
/// alike.
#[verifier::external_body]
fn aead_decrypt(key: &[u8; 32], nonce: &[u8], aad: &[u8], ciphertext: &[u8]) -> (r: Option<Vec<u8>>)
    requires
        nonce@.len() == 12,
    ensures
        r matches Some(p) ==> ciphertext@ == aead_seal(key@, nonce@, aad@, p@),
        r matches Some(p) ==> forall|msg: Seq<u8>|
            msg.len() < 0x1_0000_0000 && ciphertext@ == aead_seal(key@, nonce@, aad@, msg) ==> msg
                == p@,
        r is None ==> forall|msg: Seq<u8>|
            msg.len() < 0x1_0000_0000 ==> ciphertext@ != aead_seal(key@, nonce@, aad@, msg),
{
    let cipher = <chacha20poly1305::ChaCha20Poly1305 as chacha20poly1305::KeyInit>::new(
        chacha20poly1305::Key::from_slice(key),
    );
    let payload = chacha20poly1305::aead::Payload { msg: ciphertext, aad };
    chacha20poly1305::aead::Aead::decrypt(&cipher, chacha20poly1305::Nonce::from_slice(nonce), payload).ok()
}

/// A random secret of `bytes` bytes from the OS, in URL-safe Base64 without padding.
pub fn random_secret(bytes: usize) -> (r: String)
    ensures
        exists|b: Seq<u8>| b.len() == bytes && r@ == base64_url(b),
{
    let buf = os_random(bytes);
    encode_base64_url(buf.as_slice())
}

/// Lower-case hexadecimal text of some bytes, two digits per byte.
pub open spec fn hex_bytes(b: Seq<u8>) -> Seq<char>
    decreases b.len(),
{
    if b.len() == 0 {
        Seq::empty()
    } else {
        hex_bytes(b.drop_last()) + seq![hex_char((b.last() / 16) as nat), hex_char((b.last() % 16) as nat)]
    }
}

fn hex_digit_str(d: u8) -> (r: &'static str)
    requires
        d < 16,
    ensures
        r@ == seq![hex_char(d as nat)],
{
    proof {
        reveal_strlit("0");
        reveal_strlit("1");
        reveal_strlit("2");
        reveal_strlit("3");
        reveal_strlit("4");
        reveal_strlit("5");
        reveal_strlit("6");
        reveal_strlit("7");
        reveal_strlit("8");
        reveal_strlit("9");
        reveal_strlit("a");
        reveal_strlit("b");
        reveal_strlit("c");
        reveal_strlit("d");
        reveal_strlit("e");
        reveal_strlit("f");
    }
    match d {
        0 => "0",
        1 => "1",
        2 => "2",
        3 => "3",
        4 => "4",
        5 => "5",
        6 => "6",
        7 => "7",
        8 => "8",
        9 => "9",
        10 => "a",
        11 => "b",
        12 => "c",
        13 => "d",
        14 => "e",
        _ => "f",
    }
}

fn hex_encode(b: &[u8]) -> (r: String)
    ensures
        r@ == hex_bytes(b@),
{
    let mut out = String::new();
    let mut i: usize = 0;
    while i < b.len()
        invariant
            i <= b@.len(),
            out@ == hex_bytes(b@.take(i as int)),
        decreases b@.len() - i,
    {
        let x = b[i];
        out.append(hex_digit_str(x / 16));
        out.append(hex_digit_str(x % 16));
        proof {
            assert(b@.take(i + 1).drop_last() =~= b@.take(i as int));
        }
        i = i + 1;
    }
    proof {
        assert(b@.take(b@.len() as int) =~= b@);
    }
    out
}

/// The stored form of a key or session secret: SHA-256 in lower-case hex.
pub fn secret_hash(value: &str) -> (r: String)
    ensures
        r@ == hex_bytes(sha256(encode_utf8(value@))),
{
    let digest = sha256_digest(value.as_bytes());
    hex_encode(digest.as_slice())
}

/// Hashes an administrator password of 12 to 1024 bytes with Argon2.
pub fn hash_password(password: &str) -> (r: Result<String>)
    ensures
        byte_len(password@) < 12 || byte_len(password@) > 1024 ==> (r matches Err(e) && plain_error(
            e,
            400,
            "invalid_request"@,
            "Password must contain 12 to 1024 bytes"@,
        )),
        12 <= byte_len(password@) <= 1024 ==> (r matches Err(e) ==> plain_error(
            e,
            500,
            "password_hash_failed"@,
            "Unable to hash password"@,
        )),
        r matches Ok(h) ==> 12 <= byte_len(password@) <= 1024 && argon2_accepts(encode_utf8(password@), h@),
{
    let n = len_bytes(password);
    if n < 12 || n > 1024 {
        return Err(Error::invalid("Password must contain 12 to 1024 bytes"));
    }
    match argon2_hash(password.as_bytes()) {
        Some(h) => Ok(h),
        None => Err(Error::new(500, "password_hash_failed", "Unable to hash password")),
    }
}

/// Whether a password of at most 1024 bytes matches a stored Argon2 hash.
pub fn verify_password(password: &str, hash: &str) -> (r: bool)
    ensures
        r == (byte_len(password@) <= 1024 && argon2_accepts(encode_utf8(password@), hash@)),
{
    if len_bytes(password) > 1024 {
        return false;
    }
    argon2_verify(password.as_bytes(), hash)
}

/// The stored form of credentials: a random 12-byte nonce followed by the
/// ciphertext, with the account identifier (big-endian) as associated data.
pub open spec fn sealed_for(key: Seq<u8>, account: u128, nonce: Seq<u8>, plaintext: Seq<u8>) -> Seq<u8> {
    nonce + aead_seal(key, nonce, account_bytes(account), plaintext)
}

/// The 16 bytes of an identifier, most significant first.
pub open spec fn account_bytes(account: u128) -> Seq<u8> {
    Seq::new(16, |i: int| ((account as nat / pow256((15 - i) as nat)) % 256) as u8)
}

pub open spec fn pow256(n: nat) -> nat
    decreases n,
{
    if n == 0 {
        1
    } else {
        256 * pow256((n - 1) as nat)
    }
}

fn id_bytes(account: u128) -> (r: Vec<u8>)
    ensures
        r@ == account_bytes(account),
{
    let mut out: Vec<u8> = vec![0u8; 16];
    let mut x = account;
    let mut k: usize = 16;
    proof {
        assert(pow256(0) == 1);
        assert(account as nat / 1 == account as nat);
    }
    while k > 0
        invariant
            k <= 16,
            out@.len() == 16,
            x as nat == account as nat / pow256((16 - k) as nat),
            forall|i: int| k <= i < 16 ==> #[trigger] out@[i] == account_bytes(account)[i],
        decreases k,
    {
        let b = (x % 256) as u8;
        proof {
            let n = (16 - k) as nat;
            assert(pow256(n + 1) == 256 * pow256(n));
            assert(pow256(n) > 0) by {
                lemma_pow_positive(n);
            }
            vstd::arithmetic::div_mod::lemma_div_denominator(account as int, pow256(n) as int, 256);
            assert(account_bytes(account)[k - 1] == ((account as nat / pow256(n)) % 256) as u8);
        }
        out.set(k - 1, b);
        x = x / 256;
        k = k - 1;
    }
    proof {
        assert(out@ =~= account_bytes(account));
    }
    out
}

proof fn lemma_pow_positive(n: nat)
    ensures
        pow256(n) > 0,
    decreases n,
{
    if n > 0 {
        lemma_pow_positive((n - 1) as nat);
    }
}

/// Encrypts account credentials under a 32-byte master key; each ciphertext
/// is bound to its account.
pub struct CredentialCipher {
    key: [u8; 32],
}

impl CredentialCipher {
    pub closed spec fn key(self) -> Seq<u8> {
        self.key@
    }

    pub fn new(key: &[u8; 32]) -> (r: Self)
        ensures
            r.key() == key@,
    {
        CredentialCipher { key: *key }
    }

    /// Seals serialized credentials for one account under a fresh random nonce.
    pub fn encrypt(&self, account_id: u128, plaintext: &[u8]) -> (r: Result<Vec<u8>>)
        ensures
            r matches Ok(c) ==> exists|nonce: Seq<u8>|
                nonce.len() == 12 && c@ == sealed_for(self.key(), account_id, nonce, plaintext@),
            plaintext@.len() < 0x1_0000_0000 ==> r is Ok,
            r matches Ok(c) ==> c@.len() == plaintext@.len() + 28,
            r matches Err(e) ==> plain_error(
                e,
                500,
                "encryption_failed"@,
                "Unable to encrypt credentials"@,
            ),
    {
        let nonce = os_random(12);
        let aad = id_bytes(account_id);
        match aead_encrypt(&self.key, nonce.as_slice(), aad.as_slice(), plaintext) {
            Some(sealed) => {
                let mut out = nonce.clone();
                out.extend_from_slice(sealed.as_slice());
                proof {
                    assert(out@ =~= sealed_for(self.key(), account_id, nonce@, plaintext@));
                }
                Ok(out)
            },
            None => Err(Error::new(500, "encryption_failed", "Unable to encrypt credentials")),
        }
    }

    /// Opens stored credentials of an account. Data shorter than a nonce and
    /// a tag is a storage failure; data sealed for this account under this key
    /// opens to the serialized credentials.
    pub fn decrypt(&self, account_id: u128, encrypted: &[u8]) -> (r: Result<Vec<u8>>)
        ensures
            encrypted@.len() < 28 ==> (r matches Err(e) && plain_error(
                e,
                503,
                "storage_unavailable"@,
                "Persistent storage is unavailable"@,
            )),
            encrypted@.len() >= 28 ==> forall|msg: Seq<u8>|
                msg.len() < 0x1_0000_0000 && encrypted@ == sealed_for(
                    self.key(),
                    account_id,
                    encrypted@.take(12),
                    msg,
                ) ==> (r matches Ok(p) && p@ == msg),
            r matches Ok(p) ==> encrypted@ == sealed_for(
                self.key(),
                account_id,
                encrypted@.take(12),
                p@,
            ),
            encrypted@.len() >= 28 ==> (r matches Err(e) ==> plain_error(
                e,
                500,
                "credential_decryption_failed"@,
                "Credential key does not match stored data"@,
            )),
    {
        if encrypted.len() < 28 {
            return Err(Error::storage());
        }
        let nonce = crate::bytes::slice_range(encrypted, 0, 12);
        let body = crate::bytes::slice_range(encrypted, 12, encrypted.len());
        let aad = id_bytes(account_id);
        proof {
            assert(nonce@ =~= encrypted@.take(12));
            assert(encrypted@ =~= nonce@ + body@);
            assert forall|msg: Seq<u8>|
                encrypted@ == sealed_for(self.key(), account_id, encrypted@.take(12), msg) implies body@
                == aead_seal(self.key(), nonce@, aad@, msg) by {
                assert(body@ =~= encrypted@.skip(12));
                assert(sealed_for(self.key(), account_id, nonce@, msg).skip(12) =~= aead_seal(
                    self.key(),
                    nonce@,
                    aad@,
                    msg,
                ));
            }
        }
        match aead_decrypt(&self.key, nonce.as_slice(), aad.as_slice(), body.as_slice()) {
            Some(p) => {
                proof {
                    assert(encrypted@ =~= sealed_for(self.key(), account_id, encrypted@.take(12), p@));
                }
                Ok(p)
            },
            None => Err(
                Error::new(
                    500,
                    "credential_decryption_failed",
                    "Credential key does not match stored data",
                ),
            ),
        }
    }
}

/// A gateway API key: only its hash is stored; the secret is shown once.
#[derive(Debug, Clone)]
pub struct GatewayKey {
    pub id: u128,
    pub group_id: u128,
    pub name: String,
    pub prefix: String,
    pub enabled: bool,
    pub created_at: Timestamp,
    pub last_used_at: Option<Timestamp>,
}

#[derive(Debug, Clone, Copy)]
pub struct AdminSession {
    pub id: u128,
    pub expires_at: Timestamp,
}

} // verus!
