use botan::{Cipher, CipherDirection, Error};

fn enc_cipher(name: &str) -> Cipher {
    Cipher::new(name, CipherDirection::Encrypt).unwrap()
}

fn dec_cipher(name: &str) -> Cipher {
    Cipher::new(name, CipherDirection::Decrypt).unwrap()
}

#[test]
fn unknown_algorithm_is_rejected() {
    let r = Cipher::new("NO-SUCH-ALGO", CipherDirection::Encrypt);
    assert_eq!(r.err().unwrap(), Error::Generic(-50));
}

#[test]
fn cached_metadata_matches_the_algorithm() {
    let c = enc_cipher("STREAM-128/AUTH");
    assert_eq!(c.tag_length(), 16);
    assert_eq!(c.default_nonce_length(), 12);
    assert_eq!(c.update_granularity(), 1);
    assert_eq!(c.ideal_update_granularity(), Some(64));
    assert_eq!(c.direction().unwrap(), CipherDirection::Encrypt);
    assert_eq!(c.algo_name().unwrap(), "STREAM-128/AUTH");

    let plain = enc_cipher("STREAM-128");
    assert_eq!(plain.tag_length(), 0);

    let spec = c.key_spec().unwrap();
    assert_eq!(spec.minimum_keylength(), 16);
    assert_eq!(spec.maximum_keylength(), 16);
    assert_eq!(spec.keylength_modulo(), 1);
}

#[test]
fn zero_message_scenario() {
    // a 128-bit-key authenticated mode, all-zero key, nonce and message
    let mut enc = enc_cipher("STREAM-128/AUTH");
    enc.set_key(&vec![0u8; 16]).unwrap();
    let nonce = vec![0u8; enc.default_nonce_length()];
    let msg = vec![0u8; 48];
    let ctext = enc.process(&nonce, &msg).unwrap();
    assert_eq!(ctext.len(), 48 + enc.tag_length());
    assert_eq!(enc.tag_length(), 16);

    let mut dec = dec_cipher("STREAM-128/AUTH");
    dec.set_key(&vec![0u8; 16]).unwrap();
    let ptext = dec.process(&nonce, &ctext).unwrap();
    assert_eq!(ptext, vec![0u8; 48]);
}

#[test]
fn round_trip_restores_the_message() {
    let key: Vec<u8> = (0..16u8).collect();
    let nonce: Vec<u8> = (100..112u8).collect();
    let msg: Vec<u8> = (0..200u8).map(|b| b.wrapping_mul(7).wrapping_add(3)).collect();

    let mut enc = enc_cipher("STREAM-128/AUTH");
    enc.set_key(&key).unwrap();
    enc.set_associated_data(&[1, 2, 3]).unwrap();
    let ct = enc.process(&nonce, &msg).unwrap();
    assert_eq!(ct.len(), msg.len() + 16);

    let mut dec = dec_cipher("STREAM-128/AUTH");
    dec.set_key(&key).unwrap();
    dec.set_associated_data(&[1, 2, 3]).unwrap();
    let pt = dec.process(&nonce, &ct).unwrap();
    assert_eq!(pt, msg);
}

#[test]
fn incremental_calls_match_one_shot_encryption() {
    let key = vec![9u8; 16];
    let nonce = vec![7u8; 12];
    let msg: Vec<u8> = (0..96u8).collect();

    let mut oneshot = enc_cipher("STREAM-128/AUTH");
    oneshot.set_key(&key).unwrap();
    let expected = oneshot.process(&nonce, &msg).unwrap();

    for split in [0usize, 1, 17, 48, 95, 96] {
        let mut inc = enc_cipher("STREAM-128/AUTH");
        inc.set_key(&key).unwrap();
        inc.start(&nonce).unwrap();
        let mut got = inc.update(&msg[..split]).unwrap();
        got.extend_from_slice(&inc.finish(&msg[split..]).unwrap());
        assert_eq!(got, expected, "encrypt split at {split}");
    }
}

#[test]
fn incremental_calls_match_one_shot_decryption() {
    let key = vec![9u8; 16];
    let nonce = vec![7u8; 12];
    let msg: Vec<u8> = (0..96u8).collect();

    let mut enc = enc_cipher("STREAM-128/AUTH");
    enc.set_key(&key).unwrap();
    let ct = enc.process(&nonce, &msg).unwrap();

    // boundaries inside the body and inside the trailing tag
    for split in [0usize, 1, 40, 96, 100, 111, 112] {
        let mut dec = dec_cipher("STREAM-128/AUTH");
        dec.set_key(&key).unwrap();
        dec.start(&nonce).unwrap();
        let mut got = dec.update(&ct[..split]).unwrap();
        got.extend_from_slice(&dec.finish(&ct[split..]).unwrap());
        assert_eq!(got, msg, "decrypt split at {split}");
    }
}

#[test]
fn tampering_any_byte_fails_authentication() {
    let key = vec![5u8; 16];
    let nonce = vec![6u8; 12];
    let msg: Vec<u8> = (0..40u8).collect();

    let mut enc = enc_cipher("STREAM-128/AUTH");
    enc.set_key(&key).unwrap();
    let ct = enc.process(&nonce, &msg).unwrap();

    for i in 0..ct.len() {
        let mut bad = ct.clone();
        bad[i] ^= 0x55;
        let mut dec = dec_cipher("STREAM-128/AUTH");
        dec.set_key(&key).unwrap();
        let r = dec.process(&nonce, &bad);
        assert_eq!(r.err().unwrap(), Error::CryptoFailure, "tamper at byte {i}");
    }
}

#[test]
fn nonce_validity_agrees_with_start() {
    let probe = enc_cipher("STREAM-128/AUTH");
    assert_eq!(probe.valid_nonce_length(0).unwrap(), false);
    assert_eq!(probe.valid_nonce_length(1).unwrap(), true);
    assert_eq!(probe.valid_nonce_length(12).unwrap(), true);
    assert_eq!(probe.valid_nonce_length(64).unwrap(), true);
    assert_eq!(probe.valid_nonce_length(65).unwrap(), false);

    for l in 0..70usize {
        let mut c = enc_cipher("STREAM-128/AUTH");
        c.set_key(&vec![0u8; 16]).unwrap();
        let valid = c.valid_nonce_length(l).unwrap();
        let started = c.start(&vec![0u8; l]).is_ok();
        assert_eq!(valid, started, "nonce length {l}");
    }
}

#[test]
fn key_lengths_outside_the_spec_are_rejected() {
    let mut c = enc_cipher("STREAM-VAR/AUTH");
    let spec = c.key_spec().unwrap();
    assert_eq!(spec.minimum_keylength(), 16);
    assert_eq!(spec.maximum_keylength(), 32);
    assert_eq!(spec.keylength_modulo(), 8);

    assert_eq!(c.set_key(&vec![0u8; 15]).err().unwrap(), Error::BadParameter);
    assert!(c.set_key(&vec![0u8; 16]).is_ok());
    assert_eq!(c.set_key(&vec![0u8; 17]).err().unwrap(), Error::BadParameter);
    assert_eq!(c.set_key(&vec![0u8; 20]).err().unwrap(), Error::BadParameter);
    assert!(c.set_key(&vec![0u8; 24]).is_ok());
    assert!(c.set_key(&vec![0u8; 32]).is_ok());
    assert_eq!(c.set_key(&vec![0u8; 33]).err().unwrap(), Error::BadParameter);
    assert_eq!(c.set_key(&vec![0u8; 40]).err().unwrap(), Error::BadParameter);

    assert_eq!(spec.valid_keylength(24), true);
    assert_eq!(spec.valid_keylength(23), false);
}

#[test]
fn operations_in_the_wrong_state_are_invalid() {
    // no key yet: start and process refuse
    let mut c = enc_cipher("STREAM-128/AUTH");
    assert_eq!(c.start(&vec![0u8; 12]).err().unwrap(), Error::InvalidState);
    assert_eq!(c.process(&vec![0u8; 12], &[1, 2]).err().unwrap(), Error::InvalidState);
    // no nonce yet: update refuses
    c.set_key(&vec![0u8; 16]).unwrap();
    assert_eq!(c.update(&[1, 2]).err().unwrap(), Error::InvalidState);
    // associated data before the key is set is invalid for authenticated modes
    let mut fresh = enc_cipher("STREAM-128/AUTH");
    assert_eq!(fresh.set_associated_data(&[1]).err().unwrap(), Error::InvalidState);
    // and a silent success for unauthenticated ones
    let mut plain = enc_cipher("STREAM-128");
    assert!(plain.set_associated_data(&[1]).is_ok());
}

#[test]
fn clear_resets_to_the_constructed_state() {
    let mut c = enc_cipher("STREAM-128/AUTH");
    c.set_key(&vec![1u8; 16]).unwrap();
    c.start(&vec![2u8; 12]).unwrap();
    c.clear().unwrap();
    // metadata survives, key material does not
    assert_eq!(c.tag_length(), 16);
    assert_eq!(c.start(&vec![2u8; 12]).err().unwrap(), Error::InvalidState);
    c.set_key(&vec![1u8; 16]).unwrap();
    c.start(&vec![2u8; 12]).unwrap();
    assert!(c.finish(&[1, 2, 3]).is_ok());
}

#[test]
fn finish_requires_a_fresh_start() {
    let mut c = enc_cipher("STREAM-128/AUTH");
    c.set_key(&vec![0u8; 16]).unwrap();
    c.start(&vec![0u8; 12]).unwrap();
    c.finish(&[1, 2, 3]).unwrap();
    assert_eq!(c.update(&[4]).err().unwrap(), Error::InvalidState);
    assert_eq!(c.finish(&[4]).err().unwrap(), Error::InvalidState);
    c.start(&vec![0u8; 12]).unwrap();
    assert!(c.finish(&[4]).is_ok());
}

#[test]
fn buffered_writes_report_the_bytes_written() {
    let key = vec![3u8; 16];
    let nonce = vec![4u8; 12];
    let msg = vec![9u8; 96];

    let mut whole = enc_cipher("STREAM-128/AUTH");
    whole.set_key(&key).unwrap();
    let expected = whole.process(&nonce, &msg).unwrap();

    let mut c = enc_cipher("STREAM-128/AUTH");
    c.set_key(&key).unwrap();
    c.start(&nonce).unwrap();
    let mut out = vec![0u8; msg.len() + c.tag_length()];
    let a = c.update_into(&msg[..64], &mut out).unwrap();
    assert_eq!(a, 64);
    let mut tail = out.split_off(a);
    let b = c.finish_into(&msg[64..], &mut tail).unwrap();
    assert_eq!(b, 32 + 16);
    out.extend_from_slice(&tail[..b]);
    assert_eq!(out, expected);
}

#[test]
fn undersized_buffers_are_a_parameter_error() {
    let mut c = enc_cipher("STREAM-128/AUTH");
    c.set_key(&vec![0u8; 16]).unwrap();
    c.start(&vec![0u8; 12]).unwrap();
    let mut small = vec![0u8; 3];
    assert_eq!(c.update_into(&[1, 2, 3, 4], &mut small).err().unwrap(), Error::BadParameter);
    assert_eq!(c.finish_into(&[1, 2, 3], &mut small).err().unwrap(), Error::BadParameter);
}

#[test]
fn ciphertext_shorter_than_the_tag_fails_authentication() {
    let mut dec = dec_cipher("STREAM-128/AUTH");
    dec.set_key(&vec![0u8; 16]).unwrap();
    let r = dec.process(&vec![0u8; 12], &[1, 2, 3]);
    assert_eq!(r.err().unwrap(), Error::CryptoFailure);
}

#[test]
fn unauthenticated_mode_round_trip() {
    let key = vec![8u8; 16];
    let nonce = vec![1u8; 12];
    let msg: Vec<u8> = (0..50u8).collect();

    let mut enc = enc_cipher("STREAM-128");
    enc.set_key(&key).unwrap();
    let ct = enc.process(&nonce, &msg).unwrap();
    assert_eq!(ct.len(), msg.len());
    assert_ne!(ct, msg);

    let mut dec = dec_cipher("STREAM-128");
    dec.set_key(&key).unwrap();
    assert_eq!(dec.process(&nonce, &ct).unwrap(), msg);
}

#[test]
fn error_translation_is_exact() {
    assert_eq!(Error::from_rc(-2), Error::CryptoFailure);
    assert_eq!(Error::from_rc(-10), Error::InsufficientBuffer);
    assert_eq!(Error::from_rc(-32), Error::BadParameter);
    assert_eq!(Error::from_rc(-40), Error::InvalidState);
    assert_eq!(Error::from_rc(-50), Error::Generic(-50));
    assert_eq!(Error::from_rc(7), Error::Generic(7));
}

#[test]
fn key_spec_rejects_inverted_bounds() {
    assert_eq!(botan::KeySpec::new(8, 4, 1).err().unwrap(), Error::BadParameter);
    assert_eq!(botan::KeySpec::new(4, 8, 0).err().unwrap(), Error::BadParameter);
    let s = botan::KeySpec::new(4, 8, 2).unwrap();
    assert!(s.valid_keylength(6));
    assert!(!s.valid_keylength(7));
    assert!(!s.valid_keylength(10));
}
