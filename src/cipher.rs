//! Optional encryption at rest: a key derived from a passphrase and a stored
//! salt, authenticated encryption with a fresh random nonce per blob, and the
//! record codec that pipes stored bytes through it.

use vstd::prelude::*;
use vstd::slice::slice_to_vec;
use aes_gcm::aead::{Aead, KeyInit};
use rand::RngCore;

verus! {

/// Work factor of the key derivation.
pub const KDF_ROUNDS: u32 = 100_000;

/// Bytes of a nonce, which heads each sealed blob.
pub const NONCE_LEN: usize = 12;

/// Bytes of a fresh salt.
pub const SALT_LEN: usize = 32;

/// The longest plaintext that AES-GCM accepts.
pub const MAX_PLAINTEXT: u64 = 68_719_476_736;

/// Why bytes could not be sealed or opened.
#[derive(Clone, Copy, Debug, PartialEq, Eq, Structural)]
pub enum CodecError {
    /// The blob is too short, was tampered with, or belongs to another key.
    CryptoFailure,
    /// The plaintext is longer than the cipher accepts.
    TooLong,
}

/// The 32-byte key that PBKDF2-HMAC-SHA256 derives from `password` and `salt` in `rounds` rounds.
pub uninterp spec fn pbkdf2_sha256_key(password: Seq<u8>, salt: Seq<u8>, rounds: u32) -> Seq<u8>;

/// What AES-256-GCM decryption under `key` and `nonce` makes of `sealed`
/// (ciphertext followed by tag): the plaintext, or nothing when the tag does not match.
pub uninterp spec fn aes256gcm_open(key: Seq<u8>, nonce: Seq<u8>, sealed: Seq<u8>) -> Option<Seq<u8>>;

/// What AES-256-GCM encryption under `key` and `nonce` makes of `plain`:
/// the ciphertext followed by the 16-byte tag.
pub uninterp spec fn aes256gcm_sealed(key: Seq<u8>, nonce: Seq<u8>, plain: Seq<u8>) -> Seq<u8>;

/// The lowercase hexadecimal digit of `n` (0 to 15).
pub open spec fn hex_digit(n: int) -> char {
    seq!['0', '1', '2', '3', '4', '5', '6', '7', '8', '9', 'a', 'b', 'c', 'd', 'e', 'f'][n]
}

/// The value of hexadecimal digit `c`, either case.
pub open spec fn hex_value(c: char) -> Option<int> {
    if c == '0' { Some(0) } else if c == '1' { Some(1) } else if c == '2' { Some(2) } else if c == '3' { Some(3) }
    else if c == '4' { Some(4) } else if c == '5' { Some(5) } else if c == '6' { Some(6) } else if c == '7' { Some(7) }
    else if c == '8' { Some(8) } else if c == '9' { Some(9) } else if c == 'a' || c == 'A' { Some(10) }
    else if c == 'b' || c == 'B' { Some(11) } else if c == 'c' || c == 'C' { Some(12) } else if c == 'd' || c == 'D' { Some(13) }
    else if c == 'e' || c == 'E' { Some(14) } else if c == 'f' || c == 'F' { Some(15) } else { None }
}

/// The lowercase hexadecimal text of `bytes`: two digits per byte, high first.
pub open spec fn hex_text(bytes: Seq<u8>) -> Seq<char>
    decreases bytes.len(),
{
    if bytes.len() == 0 {
        Seq::empty()
    } else {
        hex_text(bytes.drop_last()) + seq![hex_digit(bytes.last() as int / 16), hex_digit(bytes.last() as int % 16)]
    }
}

/// The bytes that hexadecimal text `text` stands for: none when its length
/// is odd or a character is not a hexadecimal digit.
pub open spec fn hex_decoded(text: Seq<char>) -> Option<Seq<u8>>
    decreases text.len(),
{
    if text.len() == 0 {
        Some(Seq::empty())
    } else if text.len() < 2 {
        None
    } else {
        let n = text.len();
        match (hex_decoded(text.subrange(0, n - 2)), hex_value(text[n - 2]), hex_value(text[n - 1])) {
            (Some(front), Some(hi), Some(lo)) => Some(front.push((hi * 16 + lo) as u8)),
            _ => None,
        }
    }
}

/// A digit reads back as its value.
proof fn lemma_digit_value(n: int)
    requires
        0 <= n < 16,
    ensures
        hex_value(hex_digit(n)) == Some(n),
{
    if n == 0 {} else if n == 1 {} else if n == 2 {} else if n == 3 {} else if n == 4 {} else if n == 5 {}
    else if n == 6 {} else if n == 7 {} else if n == 8 {} else if n == 9 {} else if n == 10 {} else if n == 11 {}
    else if n == 12 {} else if n == 13 {} else if n == 14 {} else {}
}

/// Decoding the hexadecimal text of `bytes` gives `bytes` back.
pub proof fn lemma_hex_round_trip(bytes: Seq<u8>)
    ensures
        hex_text(bytes).len() == 2 * bytes.len(),
        hex_decoded(hex_text(bytes)) == Some(bytes),
    decreases bytes.len(),
{
    if bytes.len() > 0 {
        let front = bytes.drop_last();
        let b = bytes.last() as int;
        lemma_hex_round_trip(front);
        let t = hex_text(bytes);
        let n = t.len();
        assert(t.subrange(0, n - 2) =~= hex_text(front));
        assert(t[n - 2] == hex_digit(b / 16));
        assert(t[n - 1] == hex_digit(b % 16));
        lemma_digit_value(b / 16);
        lemma_digit_value(b % 16);
        assert((b / 16) * 16 + b % 16 == b);
        assert(front.push(b as u8) =~= bytes);
    }
}

/// Relies on pbkdf2::pbkdf2_hmac with sha2::Sha256, writing a 32-byte key.
#[verifier::external_body]
fn pbkdf2_key(password: &[u8], salt: &[u8], rounds: u32) -> (r: Vec<u8>)
    ensures
        r@ == pbkdf2_sha256_key(password@, salt@, rounds),
        r@.len() == 32,
{
    let mut key = [0u8; 32];
    pbkdf2::pbkdf2_hmac::<sha2::Sha256>(password, salt, rounds, &mut key);
    key.to_vec()
}

/// Relies on aes_gcm's Aes256Gcm::encrypt (no associated data): it fails only
/// above its plaintext limit, appends a 16-byte tag, and its output decrypts
/// back to the plaintext under the same key and nonce.
#[verifier::external_body]
fn aes256gcm_seal(key: &[u8], nonce: &[u8], plain: &[u8]) -> (r: Option<Vec<u8>>)
    requires
        key@.len() == 32,
        nonce@.len() == 12,
    ensures
        plain@.len() <= MAX_PLAINTEXT ==> r is Some,
        r matches Some(c) ==> c@ == aes256gcm_sealed(key@, nonce@, plain@) && c@.len() == plain@.len() + 16
            && aes256gcm_open(key@, nonce@, c@) == Some(plain@),
{
    let cipher = aes_gcm::Aes256Gcm::new_from_slice(key).ok()?;
    cipher.encrypt(aes_gcm::Nonce::from_slice(nonce), plain).ok()
}

/// Relies on aes_gcm's Aes256Gcm::decrypt (no associated data).
#[verifier::external_body]
fn aes256gcm_decrypt(key: &[u8], nonce: &[u8], sealed: &[u8]) -> (r: Option<Vec<u8>>)
    requires
        key@.len() == 32,
        nonce@.len() == 12,
    ensures
        match r {
            Some(p) => aes256gcm_open(key@, nonce@, sealed@) == Some(p@),
            None => aes256gcm_open(key@, nonce@, sealed@) is None,
        },
{
    let cipher = aes_gcm::Aes256Gcm::new_from_slice(key).ok()?;
    cipher.decrypt(aes_gcm::Nonce::from_slice(nonce), sealed).ok()
}

/// Relies on rand::thread_rng().fill_bytes: `n` bytes from the thread's
/// cryptographically secure generator. Nothing is promised of their values.
#[verifier::external_body]
pub(crate) fn random_bytes(n: usize) -> (r: Vec<u8>)
    ensures
        r@.len() == n,
{
    let mut buf = vec![0u8; n];
    rand::thread_rng().fill_bytes(&mut buf);
    buf
}

/// Relies on hex::encode: two lowercase digits per byte, high first.
#[verifier::external_body]
pub(crate) fn hex_encode(bytes: &[u8]) -> (r: String)
    ensures
        r@ == hex_text(bytes@),
{
    hex::encode(bytes)
}

/// Relies on hex::decode: pairs of digits of either case, high first; an
/// odd length or any other character is an error.
#[verifier::external_body]
pub(crate) fn hex_decode(text: &str) -> (r: Option<Vec<u8>>)
    ensures
        match r {
            Some(b) => hex_decoded(text@) == Some(b@),
            None => hex_decoded(text@) is None,
        },
{
    hex::decode(text).ok()
}

/// What opening `blob` under `key` gives: the nonce is its first 12 bytes.
pub open spec fn opens(key: Seq<u8>, blob: Seq<u8>) -> Option<Seq<u8>> {
    if blob.len() < 12 {
        None
    } else {
        aes256gcm_open(key, blob.subrange(0, 12), blob.subrange(12, blob.len() as int))
    }
}

/// A derived key, held in memory only.
pub struct Cipher {
    key: Vec<u8>,
}

impl Cipher {
    /// The key bytes.
    pub closed spec fn key(&self) -> Seq<u8> {
        self.key@
    }

    /// The key has 32 bytes.
    pub closed spec fn wf(&self) -> bool {
        self.key@.len() == 32
    }

    /// Derives the key from `passphrase` and `salt`.
    pub fn new(passphrase: &String, salt: &[u8]) -> (r: Self)
        ensures
            r.wf(),
            r.key() == pbkdf2_sha256_key(vstd::utf8::encode_utf8(passphrase@), salt@, KDF_ROUNDS),
    {
        let key = pbkdf2_key(passphrase.as_str().as_bytes(), salt, KDF_ROUNDS);
        Cipher { key }
    }

    /// Encrypts `plain` under `nonce`; the blob is the nonce followed by
    /// ciphertext and tag.
    pub fn encrypt_with_nonce(&self, nonce: &[u8], plain: &[u8]) -> (r: Result<Vec<u8>, CodecError>)
        requires
            self.wf(),
            nonce@.len() == NONCE_LEN,
        ensures
            plain@.len() <= MAX_PLAINTEXT <==> r is Ok,
            r is Err ==> r == Err::<Vec<u8>, CodecError>(CodecError::TooLong),
            r matches Ok(blob) ==> blob@ == nonce@ + aes256gcm_sealed(self.key(), nonce@, plain@)
                && blob@.len() == plain@.len() + 28 && opens(self.key(), blob@) == Some(plain@),
    {
        if plain.len() as u64 > MAX_PLAINTEXT {
            return Err(CodecError::TooLong);
        }
        let mut blob = slice_to_vec(nonce);
        let sealed = aes256gcm_seal(self.key.as_slice(), nonce, plain);
        match sealed {
            Some(mut c) => {
                let ghost body = c@;
                blob.append(&mut c);
                assert(blob@.subrange(0, 12) =~= nonce@);
                assert(blob@.subrange(12, blob@.len() as int) =~= body);
                Ok(blob)
            },
            None => Err(CodecError::TooLong),
        }
    }

    /// Encrypts `plain` under a fresh random nonce; the blob is the nonce
    /// followed by ciphertext and tag, so the key alone opens it.
    pub fn encrypt(&self, plain: &[u8]) -> (r: Result<Vec<u8>, CodecError>)
        requires
            self.wf(),
        ensures
            plain@.len() <= MAX_PLAINTEXT <==> r is Ok,
            r is Err ==> r == Err::<Vec<u8>, CodecError>(CodecError::TooLong),
            r matches Ok(blob) ==> blob@.len() == plain@.len() + 28
                && blob@.subrange(12, blob@.len() as int) == aes256gcm_sealed(self.key(), blob@.subrange(0, 12), plain@)
                && opens(self.key(), blob@) == Some(plain@),
    {
        let nonce = random_bytes(NONCE_LEN);
        let r = self.encrypt_with_nonce(nonce.as_slice(), plain);
        proof {
            if r is Ok {
                let blob = r->Ok_0;
                assert(blob@.subrange(0, 12) =~= nonce@);
                assert(blob@.subrange(12, blob@.len() as int) =~= aes256gcm_sealed(self.key(), nonce@, plain@));
            }
        }
        r
    }

    /// Opens a blob made by `encrypt`; a short, altered or foreign blob fails
    /// with `CryptoFailure`.
    pub fn decrypt(&self, blob: &[u8]) -> (r: Result<Vec<u8>, CodecError>)
        requires
            self.wf(),
        ensures
            match r {
                Ok(p) => opens(self.key(), blob@) == Some(p@),
                Err(e) => opens(self.key(), blob@) is None && e == CodecError::CryptoFailure,
            },
    {
        if blob.len() < NONCE_LEN {
            return Err(CodecError::CryptoFailure);
        }
        let nonce = slice_subrange(blob, 0, NONCE_LEN);
        let sealed = slice_subrange(blob, NONCE_LEN, blob.len());
        match aes256gcm_decrypt(self.key.as_slice(), nonce.as_slice(), sealed.as_slice()) {
            Some(p) => Ok(p),
            None => Err(CodecError::CryptoFailure),
        }
    }
}

/// A copy of `s[from..to]`.
fn slice_subrange(s: &[u8], from: usize, to: usize) -> (r: Vec<u8>)
    requires
        from <= to <= s@.len(),
    ensures
        r@ == s@.subrange(from as int, to as int),
{
    let mut out: Vec<u8> = Vec::new();
    let mut i: usize = from;
    while i < to
        invariant
            from <= i <= to <= s@.len(),
            out@ == s@.subrange(from as int, i as int),
        decreases to - i,
    {
        out.push(s[i]);
        assert(out@ =~= s@.subrange(from as int, i + 1));
        i = i + 1;
    }
    out
}

/// What the codec makes of stored bytes: the bytes themselves without a
/// cipher, else what the cipher opens.
pub open spec fn decoded(cipher: Option<Seq<u8>>, stored: Seq<u8>) -> Option<Seq<u8>> {
    match cipher {
        None => Some(stored),
        Some(k) => opens(k, stored),
    }
}

/// The record codec: encoded records are stored as they are, or sealed when
/// encryption is configured.
pub struct Codec {
    pub cipher: Option<Cipher>,
}

impl Codec {
    /// The key in use, if encryption is configured.
    pub open spec fn key(&self) -> Option<Seq<u8>> {
        match self.cipher {
            Some(c) => Some(c.key()),
            None => None,
        }
    }

    /// A configured cipher has a well-formed key.
    pub open spec fn wf(&self) -> bool {
        self.cipher matches Some(c) ==> c.wf()
    }

    /// Whether stored bytes are encrypted.
    pub fn is_encrypted(&self) -> (r: bool)
        ensures
            r == self.cipher is Some,
    {
        self.cipher.is_some()
    }

    /// Turns encoded record bytes into stored bytes.
    pub fn serialize(&self, plain: &[u8]) -> (r: Result<Vec<u8>, CodecError>)
        requires
            self.wf(),
        ensures
            self.cipher is None ==> (r matches Ok(b) && b@ == plain@),
            plain@.len() <= MAX_PLAINTEXT ==> r is Ok,
            r matches Ok(b) ==> decoded(self.key(), b@) == Some(plain@),
            r is Err ==> r == Err::<Vec<u8>, CodecError>(CodecError::TooLong),
    {
        match &self.cipher {
            Some(c) => c.encrypt(plain),
            None => Ok(slice_to_vec(plain)),
        }
    }

    /// Turns stored bytes back into encoded record bytes; with a cipher, a
    /// blob that fails authentication gives `CryptoFailure`.
    pub fn deserialize(&self, stored: &[u8]) -> (r: Result<Vec<u8>, CodecError>)
        requires
            self.wf(),
        ensures
            match r {
                Ok(p) => decoded(self.key(), stored@) == Some(p@),
                Err(e) => decoded(self.key(), stored@) is None && e == CodecError::CryptoFailure,
            },
    {
        match &self.cipher {
            Some(c) => c.decrypt(stored),
            None => Ok(slice_to_vec(stored)),
        }
    }
}

/// Round trip, with or without a cipher: whatever `deserialize` answers on
/// bytes that `serialize` produced from `plain` (which it promises decode to
/// `plain`) is `plain` itself, never a failure.
pub proof fn lemma_round_trip(key: Option<Seq<u8>>, plain: Seq<u8>, stored: Seq<u8>, out: Result<Seq<u8>, CodecError>)
    requires
        decoded(key, stored) == Some(plain),
        match out {
            Ok(p) => decoded(key, stored) == Some(p),
            Err(e) => decoded(key, stored) is None && e == CodecError::CryptoFailure,
        },
    ensures
        out == Ok::<Seq<u8>, CodecError>(plain),
{
}

} // verus!
