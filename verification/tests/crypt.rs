//! The stream cipher.

use rukkit::protocol::crypt::{Decryptor, Encryptor};

const SECRET: &[u8; 16] = b"0123456789abcdef";

#[test]
fn round_trips_a_single_buffer() {
    let mut enc = Encryptor::new(SECRET).unwrap();
    let mut dec = Decryptor::new(SECRET).unwrap();

    let plain = b"a handshake, then some packet bytes".to_vec();
    let mut data = plain.clone();
    enc.encrypt(&mut data);
    assert_ne!(data, plain, "ciphertext must differ from plaintext");
    dec.decrypt(&mut data);
    assert_eq!(data, plain);
}

#[test]
fn keystream_is_continuous_across_calls() {
    // The whole point of CFB-8 state: encrypting in two chunks must equal
    // encrypting in one. A codec that rebuilt the cipher per packet would
    // pass a single-buffer test and then corrupt the second packet.
    let mut one = Encryptor::new(SECRET).unwrap();
    let mut whole = b"first-half|second-half".to_vec();
    one.encrypt(&mut whole);

    let mut two = Encryptor::new(SECRET).unwrap();
    let mut split = b"first-half|second-half".to_vec();
    let (a, b) = split.split_at_mut(10);
    two.encrypt(a);
    two.encrypt(b);

    assert_eq!(whole, split);
}

#[test]
fn identical_plaintext_blocks_encrypt_differently() {
    // CFB is a stream mode; repeated input must not produce repeated output.
    let mut enc = Encryptor::new(SECRET).unwrap();
    let mut data = vec![0u8; 64];
    enc.encrypt(&mut data);
    assert_ne!(&data[..32], &data[32..]);
}

#[test]
fn wrong_secret_length_is_rejected() {
    assert!(Encryptor::new(b"short").is_err());
    assert!(Decryptor::new(&[0u8; 17]).is_err());
    assert!(Encryptor::new(&[0u8; 16]).is_ok());
}

#[test]
fn empty_input_is_a_no_op() {
    let mut enc = Encryptor::new(SECRET).unwrap();
    enc.encrypt(&mut []);
}
