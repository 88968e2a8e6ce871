//! Encryption of a message under ChaCha20 or XChaCha20, as the encryption guests
//! do it: the keystream for the key and nonce is XORed into the message.
use vstd::prelude::*;
use chacha20::cipher::KeyIvInit;
use chacha20::cipher::StreamCipher;
use chacha20::ChaCha20;
use chacha20::XChaCha20;

verus! {

/// Byte `position` of the ChaCha20 keystream for `key` and `nonce`, starting at block 0.
pub uninterp spec fn chacha20_keystream_byte(key: Seq<u8>, nonce: Seq<u8>, position: nat) -> u8;

/// Byte `position` of the XChaCha20 keystream for `key` and `nonce`, starting at block 0.
pub uninterp spec fn xchacha20_keystream_byte(key: Seq<u8>, nonce: Seq<u8>, position: nat) -> u8;

/// The data XORed with the ChaCha20 keystream.
pub open spec fn chacha20_xor(key: Seq<u8>, nonce: Seq<u8>, data: Seq<u8>) -> Seq<u8> {
    Seq::new(data.len(), |i: int| data[i] ^ chacha20_keystream_byte(key, nonce, i as nat))
}

/// The data XORed with the XChaCha20 keystream.
pub open spec fn xchacha20_xor(key: Seq<u8>, nonce: Seq<u8>, data: Seq<u8>) -> Seq<u8> {
    Seq::new(data.len(), |i: int| data[i] ^ xchacha20_keystream_byte(key, nonce, i as nat))
}

/// The longest message a fresh cipher can process: its 32-bit block counter runs
/// through `u32::MAX` blocks of 64 bytes.
pub open spec fn max_message_len() -> int {
    64 * 0xffff_ffffint
}

/// Calls `ChaCha20::new` and `StreamCipher::apply_keystream` of `chacha20`.
/// Trusted: byte `i` of the result is byte `i` of `data` XORed with byte `i` of the
/// keystream that `chacha20_keystream_byte` names, which depends on the key, the
/// nonce and the position alone. The cipher panics when the message outruns its
/// block counter; `requires` leaves those lengths out.
#[verifier::external_body]
fn chacha20_apply_keystream(key: [u8; 32], nonce: [u8; 12], data: Vec<u8>) -> (r: Vec<u8>)
    requires
        data@.len() <= max_message_len(),
    ensures
        r@.len() == data@.len(),
        forall|i: int|
            0 <= i < data@.len() ==> #[trigger] r@[i] == data@[i] ^ chacha20_keystream_byte(
                key@,
                nonce@,
                i as nat,
            ),
{
    let mut buf = data;
    let mut cipher = ChaCha20::new(&key.into(), &nonce.into());
    cipher.apply_keystream(&mut buf);
    buf
}

/// Calls `XChaCha20::new` and `StreamCipher::apply_keystream` of `chacha20`.
/// Trusted: byte `i` of the result is byte `i` of `data` XORed with byte `i` of the
/// keystream that `xchacha20_keystream_byte` names, which depends on the key, the
/// nonce and the position alone. The cipher panics when the message outruns its
/// block counter; `requires` leaves those lengths out.
#[verifier::external_body]
fn xchacha20_apply_keystream(key: [u8; 32], nonce: [u8; 24], data: Vec<u8>) -> (r: Vec<u8>)
    requires
        data@.len() <= max_message_len(),
    ensures
        r@.len() == data@.len(),
        forall|i: int|
            0 <= i < data@.len() ==> #[trigger] r@[i] == data@[i] ^ xchacha20_keystream_byte(
                key@,
                nonce@,
                i as nat,
            ),
{
    let mut buf = data;
    let mut cipher = XChaCha20::new(&key.into(), &nonce.into());
    cipher.apply_keystream(&mut buf);
    buf
}

/// Encrypts (or decrypts) a message in place with ChaCha20.
pub fn chacha20_encrypt(key: [u8; 32], nonce: [u8; 12], plaintext: Vec<u8>) -> (r: Vec<u8>)
    requires
        plaintext@.len() <= max_message_len(),
    ensures
        r@ == chacha20_xor(key@, nonce@, plaintext@),
{
    let r = chacha20_apply_keystream(key, nonce, plaintext);
    assert(r@ =~= chacha20_xor(key@, nonce@, plaintext@));
    r
}

/// The key the ChaCha20 demo guest refuses: every byte `0xFF`.
pub open spec fn is_refused_key(key: Seq<u8>) -> bool {
    key == Seq::new(32, |i: int| 0xFFu8)
}

/// A key is refused exactly when it is 32 bytes that are all `0xFF`: one byte
/// other than `0xFF` anywhere makes the key acceptable.
pub proof fn lemma_refused_key_is_all_ff(key: Seq<u8>)
    ensures
        is_refused_key(key) <==> (key.len() == 32 && forall|i: int| 0 <= i < 32 ==> key[i] == 0xFFu8),
{
    if key.len() == 32 && forall|i: int| 0 <= i < 32 ==> key[i] == 0xFFu8 {
        assert(key =~= Seq::new(32, |i: int| 0xFFu8));
    }
}

/// Whether every byte of the key is `0xFF`.
fn key_is_refused(key: &[u8; 32]) -> (r: bool)
    ensures
        r == is_refused_key(key@),
{
    let mut i: usize = 0;
    while i < 32
        invariant
            0 <= i <= 32,
            forall|j: int| 0 <= j < i ==> key@[j] == 0xFFu8,
        decreases 32 - i,
    {
        if key[i] != 0xFF {
            assert(key@[i as int] != Seq::new(32, |i: int| 0xFFu8)[i as int]);
            return false;
        }
        i += 1;
    }
    assert(key@ =~= Seq::new(32, |i: int| 0xFFu8));
    true
}

/// The ChaCha20 demo guest's encryption: it refuses the all-`0xFF` key (`None`)
/// and otherwise encrypts the message with ChaCha20.
pub fn chacha20_encrypt_checked(key: [u8; 32], nonce: [u8; 12], plaintext: Vec<u8>) -> (r: Option<Vec<u8>>)
    requires
        plaintext@.len() <= max_message_len(),
    ensures
        r is None <==> is_refused_key(key@),
        r is None <==> (forall|i: int| 0 <= i < 32 ==> key@[i] == 0xFFu8),
        r matches Some(c) ==> c@ == chacha20_xor(key@, nonce@, plaintext@),
{
    proof {
        lemma_refused_key_is_all_ff(key@);
    }
    if key_is_refused(&key) {
        return None;
    }
    Some(chacha20_encrypt(key, nonce, plaintext))
}

/// Encrypts (or decrypts) a message in place with XChaCha20.
pub fn xchacha20_encrypt(key: [u8; 32], nonce: [u8; 24], plaintext: Vec<u8>) -> (r: Vec<u8>)
    requires
        plaintext@.len() <= max_message_len(),
    ensures
        r@ == xchacha20_xor(key@, nonce@, plaintext@),
{
    let r = xchacha20_apply_keystream(key, nonce, plaintext);
    assert(r@ =~= xchacha20_xor(key@, nonce@, plaintext@));
    r
}

/// Encrypting twice with the same key and nonce gives back the message: ChaCha20
/// decryption is encryption.
pub proof fn lemma_chacha20_decrypts(key: Seq<u8>, nonce: Seq<u8>, data: Seq<u8>)
    ensures
        chacha20_xor(key, nonce, chacha20_xor(key, nonce, data)) == data,
{
    assert forall|i: int| 0 <= i < data.len() implies #[trigger] chacha20_xor(
        key,
        nonce,
        chacha20_xor(key, nonce, data),
    )[i] == data[i] by {
        let x = data[i];
        let k = chacha20_keystream_byte(key, nonce, i as nat);
        assert((x ^ k) ^ k == x) by (bit_vector);
    }
    assert(chacha20_xor(key, nonce, chacha20_xor(key, nonce, data)) =~= data);
}

/// Encrypting twice with the same key and nonce gives back the message: XChaCha20
/// decryption is encryption.
pub proof fn lemma_xchacha20_decrypts(key: Seq<u8>, nonce: Seq<u8>, data: Seq<u8>)
    ensures
        xchacha20_xor(key, nonce, xchacha20_xor(key, nonce, data)) == data,
{
    assert forall|i: int| 0 <= i < data.len() implies #[trigger] xchacha20_xor(
        key,
        nonce,
        xchacha20_xor(key, nonce, data),
    )[i] == data[i] by {
        let x = data[i];
        let k = xchacha20_keystream_byte(key, nonce, i as nat);
        assert((x ^ k) ^ k == x) by (bit_vector);
    }
    assert(xchacha20_xor(key, nonce, xchacha20_xor(key, nonce, data)) =~= data);
}

} // verus!
