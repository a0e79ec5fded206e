//! Authenticated encryption of embedded data and the salted hash of a code section.

use vstd::prelude::*;
use vstd::pervasive::unreached;
use crate::random::random_bytes;
use blake2::Blake2b512;
use blake2::Digest;
use chacha20poly1305::aead::Aead;
use chacha20poly1305::aead::NewAead;
use chacha20poly1305::Key;
use chacha20poly1305::XChaCha20Poly1305;
use chacha20poly1305::XNonce;

verus! {

/// Bytes in a key of the cipher.
pub const KEY_SIZE: usize = 32;

/// Bytes in a nonce of the cipher.
pub const NONCE_SIZE: usize = 24;

/// Bytes that the authentication tag adds to a ciphertext.
pub const TAG_SIZE: usize = 16;

/// Bytes in a hash.
pub const HASH_SIZE: usize = 64;

/// Bytes in the salt of an integrity check.
pub const SALT_SIZE: usize = 32;

/// The ciphertext, tag included, that XChaCha20-Poly1305 gives for a key, a nonce and a
/// plaintext, with no associated data.
pub uninterp spec fn sealed(key: Seq<u8>, nonce: Seq<u8>, plaintext: Seq<u8>) -> Seq<u8>;

/// The plaintext that XChaCha20-Poly1305 recovers from a ciphertext under a key and a nonce,
/// or `None` where the ciphertext does not authenticate.
pub uninterp spec fn opened(key: Seq<u8>, nonce: Seq<u8>, ciphertext: Seq<u8>) -> Option<Seq<u8>>;

/// The BLAKE2b-512 digest of `salt` followed by `data`.
pub uninterp spec fn salted_digest(salt: Seq<u8>, data: Seq<u8>) -> Seq<u8>;

/// True where a plaintext of this length is short enough for the cipher's block counter.
pub open spec fn fits_cipher(len: nat) -> bool {
    len / 64 < 0xffff_ffff
}

/// One encrypted datum with what is needed to decrypt it.
#[derive(Debug, PartialEq, Eq, Hash)]
pub struct MemoryEncryptionCtx {
    pub key: [u8; 32],
    pub nonce: [u8; 24],
    pub ciphertext: Vec<u8>,
}

impl MemoryEncryptionCtx {
    /// What decrypting this record gives.
    pub open spec fn plaintext(&self) -> Option<Seq<u8>> {
        opened(self.key@, self.nonce@, self.ciphertext@)
    }

    /// True where this record holds the encryption of `data`.
    pub open spec fn holds(&self, data: Seq<u8>) -> bool {
        &&& self.ciphertext@ == sealed(self.key@, self.nonce@, data)
        &&& self.ciphertext@.len() == data.len() + TAG_SIZE
        &&& self.plaintext() == Some(data)
    }
}

/// `Aead::encrypt` of `XChaCha20Poly1305` under `key` and `nonce`, without associated data.
/// The cipher refuses a plaintext of `u32::MAX` blocks of 64 bytes or more and nothing else;
/// the ciphertext is the plaintext's length plus the tag, and decrypts to the plaintext.
#[verifier::external_body]
pub(crate) fn seal(key: &[u8; 32], nonce: &[u8; 24], plaintext: &[u8]) -> (r: Option<Vec<u8>>)
    ensures
        r is Some <==> fits_cipher(plaintext@.len()),
        r matches Some(c) ==> c@ == sealed(key@, nonce@, plaintext@),
        r matches Some(c) ==> c@.len() == plaintext@.len() + TAG_SIZE,
        r matches Some(c) ==> opened(key@, nonce@, c@) == Some(plaintext@),
{
    let cipher = XChaCha20Poly1305::new(Key::from_slice(key));
    cipher.encrypt(XNonce::from_slice(nonce), plaintext).ok()
}

/// `Aead::decrypt` of `XChaCha20Poly1305` under `key` and `nonce`, without associated data:
/// the plaintext, which is shorter than the ciphertext by the tag, or `None` where the
/// ciphertext does not authenticate.
#[verifier::external_body]
pub(crate) fn open(key: &[u8; 32], nonce: &[u8; 24], ciphertext: &[u8]) -> (r: Option<Vec<u8>>)
    ensures
        r is Some <==> opened(key@, nonce@, ciphertext@) is Some,
        r matches Some(p) ==> opened(key@, nonce@, ciphertext@) == Some(p@),
        r matches Some(p) ==> p@.len() + TAG_SIZE == ciphertext@.len(),
{
    let cipher = XChaCha20Poly1305::new(Key::from_slice(key));
    cipher.decrypt(XNonce::from_slice(nonce), ciphertext).ok()
}

/// `Digest::finalize` of `Blake2b512` after `update` with `salt` and then with `data`: the
/// 64 bytes of the digest.
#[verifier::external_body]
fn blake2b512(salt: &[u8], data: &[u8]) -> (r: Vec<u8>)
    ensures
        r@ == salted_digest(salt@, data@),
        r@.len() == HASH_SIZE,
{
    let mut hasher = Blake2b512::new();
    hasher.update(salt);
    hasher.update(data);
    hasher.finalize().to_vec()
}

/// The first 32 bytes of `bytes` as a key.
fn key_from(bytes: &Vec<u8>) -> (key: [u8; 32])
    requires
        bytes@.len() == 32,
    ensures
        key@ == bytes@,
{
    let mut key = [0u8; 32];
    let mut i: usize = 0;
    while i < 32
        invariant
            i <= 32,
            bytes@.len() == 32,
            key@.len() == 32,
            forall|j: int| 0 <= j < i ==> key@[j] == bytes@[j],
        decreases 32 - i,
    {
        key[i] = bytes[i];
        i = i + 1;
    }
    assert(key@ =~= bytes@);
    key
}

/// The first 24 bytes of `bytes` as a nonce.
fn nonce_from(bytes: &Vec<u8>) -> (nonce: [u8; 24])
    requires
        bytes@.len() == 24,
    ensures
        nonce@ == bytes@,
{
    let mut nonce = [0u8; 24];
    let mut i: usize = 0;
    while i < 24
        invariant
            i <= 24,
            bytes@.len() == 24,
            nonce@.len() == 24,
            forall|j: int| 0 <= j < i ==> nonce@[j] == bytes@[j],
        decreases 24 - i,
    {
        nonce[i] = bytes[i];
        i = i + 1;
    }
    assert(nonce@ =~= bytes@);
    nonce
}

/// Encrypts `data` under the given key and nonce.
pub fn encrypt_memory_with(key: [u8; 32], nonce: [u8; 24], data: &[u8]) -> (ctx: MemoryEncryptionCtx)
    requires
        fits_cipher(data@.len()),
    ensures
        ctx.key == key,
        ctx.nonce == nonce,
        ctx.holds(data@),
{
    match seal(&key, &nonce, data) {
        Some(ciphertext) => MemoryEncryptionCtx { key, nonce, ciphertext },
        None => unreached(),
    }
}

/// A key drawn afresh from the operating system's generator.
pub(crate) fn fresh_key() -> (key: [u8; 32]) {
    key_from(&random_bytes(KEY_SIZE))
}

/// A nonce drawn afresh from the operating system's generator.
pub(crate) fn fresh_nonce() -> (nonce: [u8; 24]) {
    nonce_from(&random_bytes(NONCE_SIZE))
}

/// Encrypts `data` under a key and a nonce that are drawn afresh, each call its own.
pub fn encrypt_memory(data: &[u8]) -> (ctx: MemoryEncryptionCtx)
    requires
        fits_cipher(data@.len()),
    ensures
        ctx.holds(data@),
{
    encrypt_memory_with(fresh_key(), fresh_nonce(), data)
}

/// Decrypts a record that authenticates.
pub fn decrypt_memory(ctx: MemoryEncryptionCtx) -> (data: Vec<u8>)
    requires
        ctx.plaintext() is Some,
    ensures
        Some(data@) == ctx.plaintext(),
        data@.len() + TAG_SIZE == ctx.ciphertext@.len(),
{
    match open(&ctx.key, &ctx.nonce, ctx.ciphertext.as_slice()) {
        Some(data) => data,
        None => unreached(),
    }
}

/// Decrypts a record, or says that it does not authenticate.
pub fn try_decrypt_memory(ctx: MemoryEncryptionCtx) -> (r: Option<Vec<u8>>)
    ensures
        r is Some <==> ctx.plaintext() is Some,
        r matches Some(data) ==> Some(data@) == ctx.plaintext(),
{
    let authentic = open(&ctx.key, &ctx.nonce, ctx.ciphertext.as_slice()).is_some();
    if authentic {
        Some(decrypt_memory(ctx))
    } else {
        None
    }
}

/// The hash of `data`, salted with `salt` where one is given.
pub fn hash(data: &[u8], salt: Option<&[u8]>) -> (digest: Vec<u8>)
    ensures
        digest@ == salted_digest(
            match salt {
                Some(s) => s@,
                None => Seq::empty(),
            },
            data@,
        ),
        digest@.len() == HASH_SIZE,
{
    match salt {
        Some(s) => blake2b512(s, data),
        None => {
            let empty: Vec<u8> = Vec::new();
            blake2b512(empty.as_slice(), data)
        },
    }
}

/// Encryption followed by decryption gives the data back: a record that holds the
/// encryption of `data` decrypts to `data`, whatever key and nonce it was made with.
pub proof fn lemma_encrypt_then_decrypt(ctx: MemoryEncryptionCtx, data: Seq<u8>)
    requires
        ctx.holds(data),
    ensures
        ctx.plaintext() == Some(data),
{
}

} // verus!
