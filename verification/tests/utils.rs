use r2d2::crypto::encrypt_memory_with;
use r2d2::utils::decrypt_message;
use r2d2::utils::encrypt_message;
use r2d2::utils::nonce_for;
use r2d2::utils::try_decrypt_message;
use r2d2::utils::CryptoCtx;
use r2d2::utils::MAX_COUNTER;
use r2d2::workspace::build_dir_name;
use r2d2::workspace::has_prefix;
use r2d2::workspace::has_suffix;
use r2d2::workspace::is_copied;
use r2d2::workspace::is_hidden;
use r2d2::workspace::is_source_file;
use r2d2::workspace::obfuscated_root;

#[test]
fn a_fresh_context_counts_from_nought_under_zero_keys() {
    let ctx = CryptoCtx::default();
    assert_eq!(ctx.tx_key, [0u8; 32]);
    assert_eq!(ctx.rx_key, [0u8; 32]);
    assert_eq!(ctx.tx_counter, 0);
    assert_eq!(ctx.rx_counter, 0);
}

#[test]
fn the_nonce_spells_the_counter() {
    assert_eq!(&nonce_for(0), b"Nonce0000000000000000000");
    assert_eq!(&nonce_for(7), b"Nonce0000000000000000007");
    assert_eq!(&nonce_for(1234567890), b"Nonce0000000001234567890");
    assert_eq!(&nonce_for(MAX_COUNTER), b"Nonce9999999999999999999");
    assert_eq!(MAX_COUNTER, 9_999_999_999_999_999_999);
}

#[test]
fn messages_go_from_one_party_to_the_other() {
    let mut sender = CryptoCtx::default();
    sender.tx_key = [3u8; 32];
    let mut receiver = CryptoCtx::default();
    receiver.rx_key = [3u8; 32];
    let first = encrypt_message(&mut sender, b"one");
    let second = encrypt_message(&mut sender, b"two");
    assert_eq!(sender.tx_counter, 2);
    assert_eq!(sender.rx_counter, 0);
    assert_eq!(first.len(), 3 + 16);
    assert_eq!(first, encrypt_memory_with([3u8; 32], nonce_for(0), b"one").ciphertext);
    assert_eq!(second, encrypt_memory_with([3u8; 32], nonce_for(1), b"two").ciphertext);
    assert_eq!(decrypt_message(&mut receiver, &first), b"one");
    assert_eq!(receiver.rx_counter, 1);
    assert_eq!(try_decrypt_message(&mut receiver, &second), Some(b"two".to_vec()));
    assert_eq!(receiver.rx_counter, 2);
    assert_eq!(receiver.tx_counter, 0);
}

#[test]
fn a_message_out_of_turn_is_refused_and_the_counter_stays() {
    let mut sender = CryptoCtx::default();
    let mut receiver = CryptoCtx::default();
    let first = encrypt_message(&mut sender, b"one");
    let second = encrypt_message(&mut sender, b"two");
    assert_eq!(try_decrypt_message(&mut receiver, &second), None);
    assert_eq!(receiver.rx_counter, 0);
    assert_eq!(try_decrypt_message(&mut receiver, &first), Some(b"one".to_vec()));
    assert_eq!(try_decrypt_message(&mut receiver, &first), None);
    assert_eq!(receiver.rx_counter, 1);
    receiver.rx_counter = MAX_COUNTER + 1;
    assert_eq!(try_decrypt_message(&mut receiver, &first), None);
    assert_eq!(receiver.rx_counter, MAX_COUNTER + 1);
}

#[test]
fn prefixes_and_suffixes() {
    assert!(has_prefix("target/debug", "target"));
    assert!(has_prefix("target", "target"));
    assert!(has_prefix("anything", ""));
    assert!(!has_prefix("targe", "target"));
    assert!(!has_prefix("src/target", "target"));
    assert!(has_suffix("main.rs", ".rs"));
    assert!(has_suffix(".rs", ".rs"));
    assert!(has_suffix("błąd.rs", ".rs"));
    assert!(!has_suffix("main.rs.bak", ".rs"));
    assert!(!has_suffix("rs", ".rs"));
    assert!(has_suffix("", ""));
}

#[test]
fn which_files_are_obfuscated_and_copied() {
    assert!(is_source_file("src/main.rs"));
    assert!(!is_source_file("Cargo.toml"));
    assert!(!is_source_file("src/main.rs~"));
    assert!(is_hidden(".git"));
    assert!(is_hidden("."));
    assert!(!is_hidden("src"));
    assert!(!is_hidden(""));
    assert!(is_copied("src/lib.rs"));
    assert!(is_copied("Cargo.toml"));
    assert!(!is_copied(""));
    assert!(!is_copied("target"));
    assert!(!is_copied("target/debug/build"));
    assert!(!is_copied("targets.txt"));
}

#[test]
fn where_the_copy_goes() {
    assert_eq!(build_dir_name(None), ".r2d2_build_dir");
    assert_eq!(build_dir_name(Some(".r2d2_test_dir")), ".r2d2_test_dir");
    assert_eq!(obfuscated_root("/tmp/copy", None), "/tmp/copy");
    assert_eq!(
        obfuscated_root("/tmp/copy", Some("tests/single/01-hello_world")),
        "/tmp/copy/tests/single/01-hello_world"
    );
}
