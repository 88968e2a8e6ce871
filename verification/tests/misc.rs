use chacha20::cipher::KeyIvInit;
use chacha20::cipher::StreamCipher;
use selective_privacy::cipher::chacha20_encrypt;
use selective_privacy::cipher::chacha20_encrypt_checked;
use selective_privacy::cipher::xchacha20_encrypt;
use selective_privacy::error::Error;
use selective_privacy::nexus::alloc_vec;
use selective_privacy::nexus::dyn_alloc_vec;
use selective_privacy::nexus::hept;
use selective_privacy::nexus::pop_vec;
use selective_privacy::nexus::push_vec;
use selective_privacy::nexus::vec_alloc;
use selective_privacy::nexus::CAP_LIM;

#[test]
fn chacha20_matches_the_crate_and_round_trips() {
    let key = [0x42u8; 32];
    let nonce = [0x24u8; 12];
    let plaintext = b"Hello, RISC Zero ChaCha20 demo!".to_vec();
    let ct = chacha20_encrypt(key, nonce, plaintext.clone());
    let mut host = plaintext.clone();
    chacha20::ChaCha20::new(&key.into(), &nonce.into()).apply_keystream(&mut host);
    assert_eq!(ct, host);
    assert_ne!(ct, plaintext);
    assert_eq!(chacha20_encrypt(key, nonce, ct), plaintext);
}

#[test]
fn chacha20_zero_key_keystream() {
    // RFC 8439, appendix A.1, test vector 1: all-zero key and nonce, block 0.
    let ks = chacha20_encrypt([0u8; 32], [0u8; 12], vec![0u8; 16]);
    assert_eq!(
        ks,
        vec![0x76, 0xb8, 0xe0, 0xad, 0xa0, 0xf1, 0x3d, 0x90, 0x40, 0x5d, 0x6a, 0xe5, 0x53, 0x86, 0xbd, 0x28]
    );
    assert!(chacha20_encrypt([0u8; 32], [0u8; 12], vec![]).is_empty());
}

#[test]
fn chacha20_checked_refuses_all_ff_key() {
    let plaintext = b"panic please".to_vec();
    assert_eq!(chacha20_encrypt_checked([0xFFu8; 32], [0u8; 12], plaintext.clone()), None);
    let mut almost = [0xFFu8; 32];
    almost[31] = 0xFE;
    assert_eq!(
        chacha20_encrypt_checked(almost, [0u8; 12], plaintext.clone()),
        Some(chacha20_encrypt(almost, [0u8; 12], plaintext))
    );
}

#[test]
fn xchacha20_round_trips() {
    let key = [1u8; 32];
    let nonce = [2u8; 24];
    let msg = b"zk-encrypted hello world!".to_vec();
    let ct = xchacha20_encrypt(key, nonce, msg.clone());
    assert_eq!(ct.len(), msg.len());
    assert_ne!(ct, msg);
    assert_eq!(xchacha20_encrypt(key, nonce, ct), msg);
}

#[test]
fn error_message() {
    assert_eq!(Error::Generic.message(), "An unexpected error occurred");
}

#[test]
fn nexus_workloads() {
    assert_eq!(vec_alloc(7), 0);
    assert_eq!(hept(7), 0);
    let mut v = alloc_vec();
    assert!(v.is_empty());
    push_vec(&mut v);
    assert_eq!(v.len(), CAP_LIM - 1);
    assert!(v.iter().all(|x| *x == 145));
    dyn_alloc_vec(&mut v);
    assert_eq!(v.len(), 2 * CAP_LIM);
    pop_vec(&mut v);
    assert_eq!(v.len(), CAP_LIM + 1);
    pop_vec(&mut v);
    pop_vec(&mut v);
    assert!(v.is_empty());
}
