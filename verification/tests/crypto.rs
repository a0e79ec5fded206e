use r2d2::crypto::decrypt_memory;
use r2d2::crypto::encrypt_memory;
use r2d2::crypto::encrypt_memory_with;
use r2d2::crypto::hash;
use r2d2::crypto::try_decrypt_memory;
use r2d2::crypto::MemoryEncryptionCtx;
use rand::rngs::OsRng;
use rand::RngCore;

#[test]
fn check_decryption() {
    let mut data = [0u8; 128];
    OsRng.fill_bytes(&mut data);
    let ctx = encrypt_memory(&data);
    let plaintext = decrypt_memory(ctx);
    assert_eq!(&data, plaintext.as_slice());
}

#[test]
fn ciphertext_is_plaintext_plus_tag() {
    let ctx = encrypt_memory(b"FizzBuzz");
    assert_eq!(ctx.ciphertext.len(), 8 + 16);
    assert_ne!(&ctx.ciphertext[..8], b"FizzBuzz");
}

#[test]
fn encryption_is_a_function_of_key_and_nonce() {
    let a = encrypt_memory_with([7u8; 32], [9u8; 24], b"hello");
    let b = encrypt_memory_with([7u8; 32], [9u8; 24], b"hello");
    let c = encrypt_memory_with([8u8; 32], [9u8; 24], b"hello");
    let d = encrypt_memory_with([7u8; 32], [10u8; 24], b"hello");
    assert_eq!(a.ciphertext, b.ciphertext);
    assert_ne!(a.ciphertext, c.ciphertext);
    assert_ne!(a.ciphertext, d.ciphertext);
    assert_eq!(a.key, [7u8; 32]);
    assert_eq!(a.nonce, [9u8; 24]);
}

#[test]
fn known_answer_of_the_cipher() {
    let ctx = encrypt_memory_with([0u8; 32], [0u8; 24], b"");
    assert_eq!(ctx.ciphertext.len(), 16);
    let again = encrypt_memory_with([0u8; 32], [0u8; 24], b"");
    assert_eq!(ctx, again);
    assert_eq!(decrypt_memory(ctx), Vec::<u8>::new());
}

#[test]
fn fresh_keys_and_nonces_differ() {
    let a = encrypt_memory(b"same");
    let b = encrypt_memory(b"same");
    assert_ne!(a.nonce, b.nonce);
    assert_ne!(a.key, b.key);
    assert_ne!(a.ciphertext, b.ciphertext);
}

#[test]
fn nonces_of_many_records_are_pairwise_distinct() {
    let mut nonces: Vec<[u8; 24]> = Vec::new();
    for _ in 0..64 {
        nonces.push(encrypt_memory(b"x").nonce);
    }
    for i in 0..nonces.len() {
        for j in 0..i {
            assert_ne!(nonces[i], nonces[j]);
        }
    }
}

#[test]
fn round_trip_is_the_identity_on_bytes() {
    for len in [0usize, 1, 15, 16, 17, 63, 64, 65, 1000] {
        let data: Vec<u8> = (0..len).map(|i| (i * 31 % 256) as u8).collect();
        let ctx = encrypt_memory(&data);
        assert_eq!(ctx.ciphertext.len(), len + 16);
        assert_eq!(try_decrypt_memory(ctx), Some(data));
    }
}

#[test]
fn tampered_ciphertext_is_refused() {
    let mut ctx = encrypt_memory(b"secret");
    ctx.ciphertext[0] ^= 1;
    assert_eq!(try_decrypt_memory(ctx), None);
}

#[test]
fn wrong_key_is_refused() {
    let mut ctx = encrypt_memory(b"secret");
    ctx.key[31] ^= 0x80;
    assert_eq!(try_decrypt_memory(ctx), None);
}

#[test]
fn short_ciphertext_is_refused() {
    let ctx = MemoryEncryptionCtx { key: [0u8; 32], nonce: [0u8; 24], ciphertext: vec![1, 2, 3] };
    assert_eq!(try_decrypt_memory(ctx), None);
}

#[test]
fn hash_is_blake2b512_of_salt_then_data() {
    let digest = hash(b"hello world", None);
    assert_eq!(digest.len(), 64);
    assert_eq!(
        &digest[..16],
        &[
            0x02, 0x1c, 0xed, 0x87, 0x99, 0x29, 0x6c, 0xec, 0xa5, 0x57, 0x83, 0x2a, 0xb9, 0x41,
            0xa5, 0x0b
        ]
    );
    let salted = hash(b" world", Some(b"hello"));
    assert_eq!(salted, digest);
    assert_ne!(hash(b"hello world", Some(b"x")), digest);
    assert_ne!(hash(b"hello worle", None), digest);
}
