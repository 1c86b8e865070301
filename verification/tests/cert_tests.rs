use botan::{Certificate, CertUsage, CertValidationStatus, Error, X509KeyConstraints};
use botan::x509_cert::{
    STATUS_CERT_HAS_EXPIRED, STATUS_CERT_NOT_YET_VALID, STATUS_HOSTNAME_MISMATCH,
    STATUS_KEY_TOO_WEAK, STATUS_NO_TRUST_ROOT, STATUS_VERIFIED, validation_status_str,
};

fn cert(
    serial: &[u8],
    skid: &[u8],
    akid: &[u8],
    strength: u64,
    window: (u64, u64),
    usage: u32,
    san: &[&[u8]],
) -> Certificate {
    Certificate {
        serial: serial.to_vec(),
        subject_key_id: skid.to_vec(),
        authority_key_id: akid.to_vec(),
        public_key_bits: vec![0xAB; 64],
        key_strength: strength,
        not_before: window.0,
        not_after: window.1,
        usage,
        san: san.iter().map(|s| s.to_vec()).collect(),
    }
}

fn root_cert() -> Certificate {
    cert(b"\x01", b"root-key", b"root-key", 128, (100, 10_000), 0, &[])
}

fn end_entity() -> Certificate {
    cert(
        b"\x02",
        b"ee-key",
        b"root-key",
        128,
        (200, 5_000),
        0,
        &[b"example.com", b"*.example.org"],
    )
}

#[test]
fn encode_load_round_trip() {
    let c = end_entity();
    let bytes = c.encode();
    let back = Certificate::load(&bytes).unwrap();
    assert_eq!(back.encode(), bytes);
    assert_eq!(back.serial_number().unwrap(), c.serial);
    assert_eq!(back.subject_key_id().unwrap(), c.subject_key_id);
    assert_eq!(back.authority_key_id().unwrap(), c.authority_key_id);
    assert_eq!(back.public_key_bits().unwrap(), c.public_key_bits);
    assert_eq!(back.key_strength, c.key_strength);
    assert_eq!(back.not_before, c.not_before);
    assert_eq!(back.not_after, c.not_after);
    assert_eq!(back.usage, c.usage);
    assert_eq!(back.san, c.san);
}

#[test]
fn load_rejects_malformed_input() {
    assert_eq!(Certificate::load(&[]).err().unwrap(), Error::BadParameter);
    assert_eq!(Certificate::load(&[0u8; 27]).err().unwrap(), Error::BadParameter);
    let good = end_entity().encode();
    // truncated
    assert_eq!(Certificate::load(&good[..good.len() - 1]).err().unwrap(), Error::BadParameter);
    // trailing garbage
    let mut long = good.clone();
    long.push(0);
    assert_eq!(Certificate::load(&long).err().unwrap(), Error::BadParameter);
    // inverted validity window
    let mut c = end_entity();
    c.not_before = 9;
    c.not_after = 8;
    assert_eq!(Certificate::load(&c.encode()).err().unwrap(), Error::BadParameter);
}

#[test]
fn verify_accepts_a_root_signed_certificate_in_its_window() {
    let root = root_cert();
    let ee = end_entity();
    let r = ee.verify(&[], &[&root], None, None, Some(1_000)).unwrap();
    assert!(r.success());
    assert_eq!(r, CertValidationStatus::Success(STATUS_VERIFIED));
}

#[test]
fn verify_fails_after_expiry() {
    let root = root_cert();
    let ee = end_entity();
    let r = ee.verify(&[], &[&root], None, None, Some(6_000)).unwrap();
    assert!(!r.success());
    assert_eq!(r, CertValidationStatus::Failed(STATUS_CERT_HAS_EXPIRED));
    let early = ee.verify(&[], &[&root], None, None, Some(10)).unwrap();
    assert_eq!(early, CertValidationStatus::Failed(STATUS_CERT_NOT_YET_VALID));
}

#[test]
fn verify_walks_intermediates() {
    let root = root_cert();
    let mid = cert(b"\x03", b"mid-key", b"root-key", 128, (100, 10_000), 1024, &[]);
    let ee = cert(b"\x04", b"leaf", b"mid-key", 128, (200, 5_000), 0, &[]);
    let r = ee.verify(&[&mid], &[&root], None, None, Some(1_000)).unwrap();
    assert!(r.success());
    // without the intermediate there is no path
    let r2 = ee.verify(&[], &[&root], None, None, Some(1_000)).unwrap();
    assert_eq!(r2, CertValidationStatus::Failed(STATUS_NO_TRUST_ROOT));
}

#[test]
fn verify_rejects_weak_keys_and_checks_the_hostname() {
    let root = root_cert();
    let weak = cert(b"\x05", b"weak", b"root-key", 80, (100, 10_000), 0, &[]);
    let r = weak.verify(&[], &[&root], None, None, Some(1_000)).unwrap();
    assert_eq!(r, CertValidationStatus::Failed(STATUS_KEY_TOO_WEAK));

    let ee = end_entity();
    let ok = ee
        .verify(&[], &[&root], None, Some(b"example.com"), Some(1_000))
        .unwrap();
    assert!(ok.success());
    let bad = ee
        .verify(&[], &[&root], None, Some(b"nope.test"), Some(1_000))
        .unwrap();
    assert_eq!(bad, CertValidationStatus::Failed(STATUS_HOSTNAME_MISMATCH));
}

#[test]
fn verify_reports_a_trust_directory_as_an_error() {
    let ee = end_entity();
    let r = ee.verify(&[], &[], Some("/some/dir"), None, None);
    assert_eq!(r.err().unwrap(), Error::Generic(-50));
    // an empty path means "not used" and is fine
    let ok = ee.verify(&[], &[&root_cert()], Some(""), None, Some(1_000)).unwrap();
    assert!(ok.success());
}

#[test]
fn a_zero_reference_time_waives_the_window_check() {
    let root = root_cert();
    let ee = end_entity();
    let r = ee.verify(&[], &[&root], None, None, None).unwrap();
    assert!(r.success());
}

#[test]
fn hostname_matching_handles_exact_names_and_wildcards() {
    let ee = end_entity();
    assert_eq!(ee.matches_hostname(b"example.com").unwrap(), true);
    assert_eq!(ee.matches_hostname(b"www.example.org").unwrap(), true);
    assert_eq!(ee.matches_hostname(b"a.example.org").unwrap(), true);
    assert_eq!(ee.matches_hostname(b"example.org").unwrap(), false);
    assert_eq!(ee.matches_hostname(b"www.example.com").unwrap(), false);
    assert_eq!(ee.matches_hostname(b"unrelated.test").unwrap(), false);
    assert_eq!(ee.matches_hostname(b"").unwrap(), false);
    // the wildcard replaces exactly one non-empty label
    assert_eq!(ee.matches_hostname(b".example.org").unwrap(), false);
    assert_eq!(ee.matches_hostname(b"a.b.example.org").unwrap(), false);
}

#[test]
fn usage_queries_invert_the_engine_sense() {
    let unrestricted = root_cert();
    assert_eq!(unrestricted.allows_usage(CertUsage::CrlSign).unwrap(), true);

    let signer = cert(b"\x06", b"s", b"s", 128, (0, 1), 32768 | 1024, &[]);
    assert_eq!(signer.allows_usage(CertUsage::DigitalSignature).unwrap(), true);
    assert_eq!(signer.allows_usage(CertUsage::CertificateSign).unwrap(), true);
    assert_eq!(signer.allows_usage(CertUsage::CrlSign).unwrap(), false);
    assert_eq!(signer.allows_usage(CertUsage::KeyAgreement).unwrap(), false);
}

#[test]
fn usage_flags_convert_both_ways() {
    assert_eq!(CertUsage::from(X509KeyConstraints::CRL_SIGN), CertUsage::CrlSign);
    assert_eq!(
        X509KeyConstraints::from(CertUsage::DigitalSignature),
        X509KeyConstraints::DIGITAL_SIGNATURE
    );
    assert_eq!(X509KeyConstraints::DIGITAL_SIGNATURE.bits(), 32768);
    assert_eq!(X509KeyConstraints::NO_CONSTRAINTS.bits(), 0);
    assert_eq!(X509KeyConstraints::DECIPHER_ONLY.bits(), 128);
}

#[test]
fn duplicate_and_clone_observe_the_same_values() {
    let c = end_entity();
    let d = c.duplicate().unwrap();
    assert_eq!(d.serial_number().unwrap(), c.serial_number().unwrap());
    assert_eq!(d.san, c.san);
    let e = c.clone();
    assert_eq!(e.public_key_bits().unwrap(), c.public_key_bits().unwrap());
    assert_eq!(e.not_after, c.not_after);
}

#[test]
fn validation_status_reports_success_and_meaning() {
    let s = CertValidationStatus::Success(STATUS_VERIFIED);
    assert!(s.success());
    assert_eq!(s.code(), STATUS_VERIFIED);
    assert_eq!(s.description(), "Verified");
    let f = CertValidationStatus::Failed(STATUS_CERT_HAS_EXPIRED);
    assert!(!f.success());
    assert_eq!(f.description(), "Certificate has expired");
    assert_eq!(validation_status_str(999), "Unknown status code");
}

#[test]
fn long_fields_exceed_the_initial_buffer_guess_and_still_arrive_whole() {
    // a serial longer than the 32-byte guess exercises the retry path,
    // and the result carries no trailing padding
    let mut c = end_entity();
    c.serial = (0..40u8).collect();
    let got = c.serial_number().unwrap();
    assert_eq!(got.len(), 40);
    assert_eq!(got, c.serial);

    // a public key far above its guess
    c.public_key_bits = vec![0x5A; 5000];
    let pk = c.public_key_bits().unwrap();
    assert_eq!(pk.len(), 5000);
    assert_eq!(pk, c.public_key_bits);

    let key = c.public_key().unwrap();
    assert_eq!(key.bits, c.public_key_bits);
}

#[test]
fn fingerprints_depend_on_the_content() {
    let a = end_entity();
    let fp = a.fingerprint("Digest").unwrap();
    assert_eq!(fp.len(), 32);
    assert_eq!(a.fingerprint("").err().unwrap(), Error::BadParameter);

    let mut b = end_entity();
    b.serial = b"\x07".to_vec();
    let fp2 = b.fingerprint("Digest").unwrap();
    assert_ne!(fp, fp2);
}

#[test]
fn string_representation_names_the_serial_and_key_id() {
    let c = cert(b"\x0a\xff", b"\x01", b"x", 128, (0, 1), 0, &[]);
    let s = c.to_string().unwrap();
    assert_eq!(s, "Certificate: serial 0aff, subject key id 01");
}

#[test]
fn well_formedness_is_checkable_at_runtime() {
    assert!(end_entity().is_wf());
    let mut bad = end_entity();
    bad.serial = Vec::new();
    assert!(!bad.is_wf());
    let mut inverted = end_entity();
    inverted.not_before = 5;
    inverted.not_after = 4;
    assert!(!inverted.is_wf());
    let mut empty_name = end_entity();
    empty_name.san.push(Vec::new());
    assert!(!empty_name.is_wf());
}
