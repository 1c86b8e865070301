//! Certificates and trust-chain verification.
//!
//! A `Certificate` wraps one immutable engine certificate object.  The engine
//! object is modeled directly: the fields the verification rules read — key
//! identifiers, validity window, key strength, usage bits and subject
//! alternative names.  Duplication of the underlying object is cheap and
//! infallible, so `Clone` routes through `duplicate`.  Chain verification
//! returns a three-way outcome: it ran and succeeded, it ran and failed with
//! a reason code, or it could not run at all — the last is an error, never a
//! validation result.

use vstd::prelude::*;

use crate::buffer::{ByteSource, fetch_bytes, fill_from_bytes};
use crate::error::{Error, RC_NOT_IMPLEMENTED};
use crate::util::{bytes_eq, copy_bytes};
use crate::engine::{wrap8, xor_sum, xor_sum_exec};
use vstd::string::StringExecFns;

verus! {

/// The key strength, in bits, that chain verification requires of every
/// certificate in the chain.  A fixed policy constant, not caller-settable.
pub const REQUIRED_KEY_STRENGTH: u64 = 110;

/// Verification succeeded.
pub const STATUS_VERIFIED: i32 = 0;

/// A certificate in the chain is not yet valid at the reference time.
pub const STATUS_CERT_NOT_YET_VALID: i32 = 1;

/// A certificate in the chain has expired at the reference time.
pub const STATUS_CERT_HAS_EXPIRED: i32 = 2;

/// A certificate in the chain is below the required key strength.
pub const STATUS_KEY_TOO_WEAK: i32 = 3;

/// An issuing certificate is not allowed to sign certificates.
pub const STATUS_CA_CERT_NOT_ALLOWED: i32 = 4;

/// The requested hostname does not match the end-entity certificate.
pub const STATUS_HOSTNAME_MISMATCH: i32 = 5;

/// No path to a trusted root could be built.
pub const STATUS_NO_TRUST_ROOT: i32 = 6;

/// Key-usage flags of the certificate's key-usage extension, as the engine
/// encodes them.
#[allow(non_camel_case_types)]
#[derive(Debug, Copy, Clone, PartialEq, Eq, Structural)]
pub enum X509KeyConstraints {
    /// No usage restriction recorded.
    NO_CONSTRAINTS,
    /// Digital signature.
    DIGITAL_SIGNATURE,
    /// Non-repudiation.
    NON_REPUDIATION,
    /// Enciphering symmetric keys.
    KEY_ENCIPHERMENT,
    /// Enciphering plaintext messages.
    DATA_ENCIPHERMENT,
    /// Key agreement.
    KEY_AGREEMENT,
    /// Signing certificates.
    KEY_CERT_SIGN,
    /// Signing certificate revocation lists.
    CRL_SIGN,
    /// Encryption only.
    ENCIPHER_ONLY,
    /// Decryption only.
    DECIPHER_ONLY,
}

/// The usage bit a key-usage flag denotes; `NO_CONSTRAINTS` is the empty set.
pub open spec fn spec_constraint_bits(c: X509KeyConstraints) -> u32 {
    match c {
        X509KeyConstraints::NO_CONSTRAINTS => 0,
        X509KeyConstraints::DIGITAL_SIGNATURE => 32768,
        X509KeyConstraints::NON_REPUDIATION => 16384,
        X509KeyConstraints::KEY_ENCIPHERMENT => 8192,
        X509KeyConstraints::DATA_ENCIPHERMENT => 4096,
        X509KeyConstraints::KEY_AGREEMENT => 2048,
        X509KeyConstraints::KEY_CERT_SIGN => 1024,
        X509KeyConstraints::CRL_SIGN => 512,
        X509KeyConstraints::ENCIPHER_ONLY => 256,
        X509KeyConstraints::DECIPHER_ONLY => 128,
    }
}

impl X509KeyConstraints {
    /// The usage bit this flag denotes.
    pub fn bits(&self) -> (r: u32)
        ensures
            r == spec_constraint_bits(*self),
    {
        match self {
            X509KeyConstraints::NO_CONSTRAINTS => 0,
            X509KeyConstraints::DIGITAL_SIGNATURE => 32768,
            X509KeyConstraints::NON_REPUDIATION => 16384,
            X509KeyConstraints::KEY_ENCIPHERMENT => 8192,
            X509KeyConstraints::DATA_ENCIPHERMENT => 4096,
            X509KeyConstraints::KEY_AGREEMENT => 2048,
            X509KeyConstraints::KEY_CERT_SIGN => 1024,
            X509KeyConstraints::CRL_SIGN => 512,
            X509KeyConstraints::ENCIPHER_ONLY => 256,
            X509KeyConstraints::DECIPHER_ONLY => 128,
        }
    }
}

/// Whether the certificate key is allowed for a particular usage.
#[derive(Debug, Copy, Clone, PartialEq, Eq, Structural)]
pub enum CertUsage {
    /// No particular usage restrictions.
    NoRestrictions,
    /// Allowed for digital signature.
    DigitalSignature,
    /// Allowed for non-repudiation.
    NonRepudiation,
    /// Allowed for enciphering symmetric keys.
    KeyEncipherment,
    /// Allowed for enciphering plaintext messages.
    DataEncipherment,
    /// Allowed for key agreement.
    KeyAgreement,
    /// Allowed for signing certificates.
    CertificateSign,
    /// Allowed for signing CRLs.
    CrlSign,
    /// Allowed only for encryption.
    EncipherOnly,
    /// Allowed only for decryption.
    DecipherOnly,
}

/// The usage flag corresponding to each key-usage constraint, and back.
pub open spec fn spec_usage_of_constraint(c: X509KeyConstraints) -> CertUsage {
    match c {
        X509KeyConstraints::NO_CONSTRAINTS => CertUsage::NoRestrictions,
        X509KeyConstraints::DIGITAL_SIGNATURE => CertUsage::DigitalSignature,
        X509KeyConstraints::NON_REPUDIATION => CertUsage::NonRepudiation,
        X509KeyConstraints::KEY_ENCIPHERMENT => CertUsage::KeyEncipherment,
        X509KeyConstraints::DATA_ENCIPHERMENT => CertUsage::DataEncipherment,
        X509KeyConstraints::KEY_AGREEMENT => CertUsage::KeyAgreement,
        X509KeyConstraints::KEY_CERT_SIGN => CertUsage::CertificateSign,
        X509KeyConstraints::CRL_SIGN => CertUsage::CrlSign,
        X509KeyConstraints::ENCIPHER_ONLY => CertUsage::EncipherOnly,
        X509KeyConstraints::DECIPHER_ONLY => CertUsage::DecipherOnly,
    }
}

/// The key-usage constraint corresponding to each usage flag.
pub open spec fn spec_constraint_of_usage(u: CertUsage) -> X509KeyConstraints {
    match u {
        CertUsage::NoRestrictions => X509KeyConstraints::NO_CONSTRAINTS,
        CertUsage::DigitalSignature => X509KeyConstraints::DIGITAL_SIGNATURE,
        CertUsage::NonRepudiation => X509KeyConstraints::NON_REPUDIATION,
        CertUsage::KeyEncipherment => X509KeyConstraints::KEY_ENCIPHERMENT,
        CertUsage::DataEncipherment => X509KeyConstraints::DATA_ENCIPHERMENT,
        CertUsage::KeyAgreement => X509KeyConstraints::KEY_AGREEMENT,
        CertUsage::CertificateSign => X509KeyConstraints::KEY_CERT_SIGN,
        CertUsage::CrlSign => X509KeyConstraints::CRL_SIGN,
        CertUsage::EncipherOnly => X509KeyConstraints::ENCIPHER_ONLY,
        CertUsage::DecipherOnly => X509KeyConstraints::DECIPHER_ONLY,
    }
}

impl From<X509KeyConstraints> for CertUsage {
    fn from(c: X509KeyConstraints) -> (r: CertUsage) {
        match c {
            X509KeyConstraints::NO_CONSTRAINTS => CertUsage::NoRestrictions,
            X509KeyConstraints::DIGITAL_SIGNATURE => CertUsage::DigitalSignature,
            X509KeyConstraints::NON_REPUDIATION => CertUsage::NonRepudiation,
            X509KeyConstraints::KEY_ENCIPHERMENT => CertUsage::KeyEncipherment,
            X509KeyConstraints::DATA_ENCIPHERMENT => CertUsage::DataEncipherment,
            X509KeyConstraints::KEY_AGREEMENT => CertUsage::KeyAgreement,
            X509KeyConstraints::KEY_CERT_SIGN => CertUsage::CertificateSign,
            X509KeyConstraints::CRL_SIGN => CertUsage::CrlSign,
            X509KeyConstraints::ENCIPHER_ONLY => CertUsage::EncipherOnly,
            X509KeyConstraints::DECIPHER_ONLY => CertUsage::DecipherOnly,
        }
    }
}

impl vstd::std_specs::convert::FromSpecImpl<X509KeyConstraints> for CertUsage {
    open spec fn obeys_from_spec() -> bool {
        true
    }

    open spec fn from_spec(c: X509KeyConstraints) -> CertUsage {
        spec_usage_of_constraint(c)
    }
}

impl From<CertUsage> for X509KeyConstraints {
    fn from(u: CertUsage) -> (r: X509KeyConstraints) {
        match u {
            CertUsage::NoRestrictions => X509KeyConstraints::NO_CONSTRAINTS,
            CertUsage::DigitalSignature => X509KeyConstraints::DIGITAL_SIGNATURE,
            CertUsage::NonRepudiation => X509KeyConstraints::NON_REPUDIATION,
            CertUsage::KeyEncipherment => X509KeyConstraints::KEY_ENCIPHERMENT,
            CertUsage::DataEncipherment => X509KeyConstraints::DATA_ENCIPHERMENT,
            CertUsage::KeyAgreement => X509KeyConstraints::KEY_AGREEMENT,
            CertUsage::CertificateSign => X509KeyConstraints::KEY_CERT_SIGN,
            CertUsage::CrlSign => X509KeyConstraints::CRL_SIGN,
            CertUsage::EncipherOnly => X509KeyConstraints::ENCIPHER_ONLY,
            CertUsage::DecipherOnly => X509KeyConstraints::DECIPHER_ONLY,
        }
    }
}

impl vstd::std_specs::convert::FromSpecImpl<CertUsage> for X509KeyConstraints {
    open spec fn obeys_from_spec() -> bool {
        true
    }

    open spec fn from_spec(u: CertUsage) -> X509KeyConstraints {
        spec_constraint_of_usage(u)
    }
}

/// The result of certificate validation: it ran and succeeded, or it ran and
/// failed.  The carried code's human-readable meaning comes from a separate
/// lookup, not from the type itself.
#[derive(Debug, Copy, Clone, PartialEq, Eq, Structural)]
pub enum CertValidationStatus {
    /// Successful validation, with a detail code.
    Success(i32),
    /// Failed validation, with a reason code.
    Failed(i32),
}

/// The human-readable meaning of a validation status code.
pub open spec fn spec_status_str(code: i32) -> Seq<char> {
    if code == STATUS_VERIFIED {
        "Verified"@
    } else if code == STATUS_CERT_NOT_YET_VALID {
        "Certificate is not yet valid"@
    } else if code == STATUS_CERT_HAS_EXPIRED {
        "Certificate has expired"@
    } else if code == STATUS_KEY_TOO_WEAK {
        "Certificate key is too weak"@
    } else if code == STATUS_CA_CERT_NOT_ALLOWED {
        "Issuer may not sign certificates"@
    } else if code == STATUS_HOSTNAME_MISMATCH {
        "Certificate does not match the hostname"@
    } else if code == STATUS_NO_TRUST_ROOT {
        "No path to a trusted root"@
    } else {
        "Unknown status code"@
    }
}

/// Resolve a validation status code to its human-readable meaning.  The
/// mapping is owned by the verification component, not duplicated by callers.
pub fn validation_status_str(code: i32) -> (r: &'static str)
    ensures
        r@ == spec_status_str(code),
{
    if code == STATUS_VERIFIED {
        "Verified"
    } else if code == STATUS_CERT_NOT_YET_VALID {
        "Certificate is not yet valid"
    } else if code == STATUS_CERT_HAS_EXPIRED {
        "Certificate has expired"
    } else if code == STATUS_KEY_TOO_WEAK {
        "Certificate key is too weak"
    } else if code == STATUS_CA_CERT_NOT_ALLOWED {
        "Issuer may not sign certificates"
    } else if code == STATUS_HOSTNAME_MISMATCH {
        "Certificate does not match the hostname"
    } else if code == STATUS_NO_TRUST_ROOT {
        "No path to a trusted root"
    } else {
        "Unknown status code"
    }
}

impl CertValidationStatus {
    /// True when the validation was successful.
    #[must_use]
    pub fn success(&self) -> (r: bool)
        ensures
            r == (self matches CertValidationStatus::Success(_)),
    {
        match self {
            CertValidationStatus::Success(_) => true,
            CertValidationStatus::Failed(_) => false,
        }
    }

    /// The carried detail or reason code.
    pub fn code(&self) -> (r: i32)
        ensures
            ({
                match *self {
                    CertValidationStatus::Success(x) => r == x,
                    CertValidationStatus::Failed(x) => r == x,
                }
            }),
    {
        match self {
            CertValidationStatus::Success(x) => *x,
            CertValidationStatus::Failed(x) => *x,
        }
    }

    /// The human-readable meaning of the carried code, resolved through the
    /// verification component's lookup.
    pub fn description(&self) -> (r: &'static str)
        ensures
            ({
                match *self {
                    CertValidationStatus::Success(x) => r@ == spec_status_str(x),
                    CertValidationStatus::Failed(x) => r@ == spec_status_str(x),
                }
            }),
    {
        validation_status_str(self.code())
    }
}

/// The public key carried by a certificate.
pub struct Pubkey {
    /// The byte representation of the key.
    pub bits: Vec<u8>,
}

/// An X.509 certificate: one exclusively owned, immutable engine certificate
/// object, modeled by the fields that the verification rules read.
pub struct Certificate {
    /// The serial number.
    pub serial: Vec<u8>,
    /// The subject key identifier.
    pub subject_key_id: Vec<u8>,
    /// The authority (issuer) key identifier.
    pub authority_key_id: Vec<u8>,
    /// The byte representation of the public key.
    pub public_key_bits: Vec<u8>,
    /// The estimated strength of the public key, in bits.
    pub key_strength: u64,
    /// Start of the validity window, in seconds.
    pub not_before: u64,
    /// End of the validity window, in seconds.
    pub not_after: u64,
    /// Allowed key-usage bits; zero means no restriction recorded.
    pub usage: u32,
    /// Subject alternative names (DNS names), as bytes.
    pub san: Vec<Vec<u8>>,
}

/// True when the certificate's allowed-usage bits admit `bits`.
pub open spec fn spec_allows_usage(c: &Certificate, bits: u32) -> bool {
    c.usage == 0 || c.usage & bits == bits
}

/// True when the validity window contains the reference time; a reference
/// time of zero waives the check (this engine layer has no clock of its own).
pub open spec fn spec_time_ok(c: &Certificate, t: u64) -> bool {
    t == 0 || (c.not_before <= t && t <= c.not_after)
}

/// `k` is the position of the first dot in `name`.
pub open spec fn spec_first_dot(name: Seq<u8>, k: int) -> bool {
    &&& 0 <= k < name.len()
    &&& name[k] == 46u8
    &&& forall|j: int| 0 <= j < k ==> name[j] != 46u8
}

/// A wildcard pattern `*.suffix` matches a name whose first label is dropped:
/// the name has a non-empty first label, and after its first dot it equals
/// the pattern after the `*`.
pub open spec fn spec_wildcard_match(pat: Seq<u8>, name: Seq<u8>) -> bool {
    &&& pat.len() >= 3
    &&& pat[0] == 42u8
    &&& pat[1] == 46u8
    &&& exists|k: int| 0 < k < name.len() && spec_first_dot(name, k) && name.skip(k) == pat.skip(1)
}

/// The hostname matches the certificate: exactly equal to some subject
/// alternative name, or matched by a wildcard one.
pub open spec fn spec_matches_hostname(c: &Certificate, name: Seq<u8>) -> bool {
    exists|i: int|
        0 <= i < c.san@.len() && (c.san@[i]@ == name || spec_wildcard_match(c.san@[i]@, name))
}

/// Position of the first dot of `name`, if any.
fn find_first_dot(name: &[u8]) -> (r: Option<usize>)
    ensures
        ({
            match r {
                Some(k) => spec_first_dot(name@, k as int),
                None => forall|j: int| 0 <= j < name@.len() ==> name@[j] != 46u8,
            }
        }),
{
    let mut i: usize = 0;
    while i < name.len()
        invariant
            i <= name@.len(),
            forall|j: int| 0 <= j < i ==> name@[j] != 46u8,
        decreases name@.len() - i,
    {
        if name[i] == 46u8 {
            return Some(i);
        }
        i += 1;
    }
    None
}

/// True when `a` from position `ai` onward equals `b` from position `bi`.
fn tail_eq(a: &[u8], ai: usize, b: &[u8], bi: usize) -> (r: bool)
    requires
        ai <= a@.len(),
        bi <= b@.len(),
    ensures
        r == (a@.skip(ai as int) == b@.skip(bi as int)),
{
    if a.len() - ai != b.len() - bi {
        assert(a@.skip(ai as int).len() != b@.skip(bi as int).len());
        return false;
    }
    let n = a.len() - ai;
    let mut i: usize = 0;
    while i < n
        invariant
            i <= n,
            ai + n == a@.len(),
            bi + n == b@.len(),
            a@.len() <= usize::MAX,
            b@.len() <= usize::MAX,
            forall|j: int| 0 <= j < i ==> #[trigger] a@[ai + j] == b@[bi + j],
        decreases n - i,
    {
        if a[ai + i] != b[bi + i] {
            assert(a@.skip(ai as int)[i as int] != b@.skip(bi as int)[i as int]);
            return false;
        }
        i += 1;
    }
    proof {
        assert forall|j: int|
            0 <= j < a@.skip(ai as int).len() implies a@.skip(ai as int)[j] == b@.skip(
            bi as int,
        )[j] by {
            assert(a@[ai + j] == b@[bi + j]);
        }
        assert(a@.skip(ai as int) =~= b@.skip(bi as int));
    }
    true
}

/// Whether one name pattern admits `name`, exactly or by wildcard.
fn pattern_matches(pat: &[u8], name: &[u8]) -> (r: bool)
    ensures
        r == (pat@ == name@ || spec_wildcard_match(pat@, name@)),
{
    if bytes_eq(pat, name) {
        return true;
    }
    if pat.len() >= 3 && pat[0] == 42u8 && pat[1] == 46u8 {
        match find_first_dot(name) {
            Some(k) => {
                if k > 0 && k < name.len() {
                    let r = tail_eq(name, k, pat, 1);
                    proof {
                        if r {
                            assert(spec_wildcard_match(pat@, name@));
                        }
                        if spec_wildcard_match(pat@, name@) {
                            let k2 = choose|k2: int|
                                0 < k2 < name@.len() && spec_first_dot(name@, k2) && name@.skip(k2)
                                    == pat@.skip(1);
                            assert(k2 == k as int);
                        }
                    }
                    r
                } else {
                    proof {
                        if spec_wildcard_match(pat@, name@) {
                            let k2 = choose|k2: int|
                                0 < k2 < name@.len() && spec_first_dot(name@, k2) && name@.skip(k2)
                                    == pat@.skip(1);
                            assert(k2 == k as int);
                        }
                    }
                    false
                }
            },
            None => {
                proof {
                    if spec_wildcard_match(pat@, name@) {
                        let k2 = choose|k2: int|
                            0 < k2 < name@.len() && spec_first_dot(name@, k2) && name@.skip(k2)
                                == pat@.skip(1);
                        assert(name@[k2] == 46u8);
                    }
                }
                false
            },
        }
    } else {
        false
    }
}

/// Index of the first certificate, from position `i` on, whose subject key
/// identifier equals `id`.
pub open spec fn spec_find_by_skid(certs: Seq<&Certificate>, id: Seq<u8>, i: int) -> Option<int>
    decreases certs.len() - i,
{
    if i < 0 || i >= certs.len() {
        None
    } else if certs[i].subject_key_id@ == id {
        Some(i)
    } else {
        spec_find_by_skid(certs, id, i + 1)
    }
}

/// Look up an issuer candidate by subject key identifier.
fn find_by_skid<'a>(certs: &[&'a Certificate], id: &[u8], i: usize) -> (r: Option<usize>)
    requires
        i <= certs@.len(),
    ensures
        ({
            match r {
                Some(k) => spec_find_by_skid(certs@, id@, i as int) == Some(k as int) && k
                    < certs@.len(),
                None => spec_find_by_skid(certs@, id@, i as int) is None,
            }
        }),
    decreases certs@.len() - i,
{
    if i >= certs.len() {
        return None;
    }
    if bytes_eq(certs[i].subject_key_id.as_slice(), id) {
        return Some(i);
    }
    find_by_skid(certs, id, i + 1)
}

/// The reason code a single certificate fails on at reference time `t`, or
/// `STATUS_VERIFIED` when it passes the per-certificate checks.
pub open spec fn spec_cert_check(c: &Certificate, t: u64) -> i32 {
    if t != 0 && t < c.not_before {
        STATUS_CERT_NOT_YET_VALID
    } else if t != 0 && t > c.not_after {
        STATUS_CERT_HAS_EXPIRED
    } else if c.key_strength < REQUIRED_KEY_STRENGTH {
        STATUS_KEY_TOO_WEAK
    } else {
        STATUS_VERIFIED
    }
}

/// The outcome of walking the chain upward from `c`: find the issuer first
/// among the trusted roots, then among the intermediates, checking validity,
/// key strength and the certificate-signing bit of every issuer on the way.
/// `fuel` bounds the walk so that a cycle among intermediates ends in a
/// missing trust root.
pub open spec fn spec_chain_status(
    c: &Certificate,
    inters: Seq<&Certificate>,
    trusted: Seq<&Certificate>,
    t: u64,
    fuel: nat,
) -> CertValidationStatus
    decreases fuel,
{
    match spec_find_by_skid(trusted, c.authority_key_id@, 0) {
        Some(i) => {
            let root = trusted[i];
            if spec_cert_check(root, t) != STATUS_VERIFIED {
                CertValidationStatus::Failed(spec_cert_check(root, t))
            } else if !spec_allows_usage(root, 1024) {
                CertValidationStatus::Failed(STATUS_CA_CERT_NOT_ALLOWED)
            } else {
                CertValidationStatus::Success(STATUS_VERIFIED)
            }
        },
        None => {
            match spec_find_by_skid(inters, c.authority_key_id@, 0) {
                Some(i) => {
                    if fuel == 0 {
                        CertValidationStatus::Failed(STATUS_NO_TRUST_ROOT)
                    } else {
                        let mid = inters[i];
                        if spec_cert_check(mid, t) != STATUS_VERIFIED {
                            CertValidationStatus::Failed(spec_cert_check(mid, t))
                        } else if !spec_allows_usage(mid, 1024) {
                            CertValidationStatus::Failed(STATUS_CA_CERT_NOT_ALLOWED)
                        } else {
                            spec_chain_status(mid, inters, trusted, t, (fuel - 1) as nat)
                        }
                    }
                },
                None => CertValidationStatus::Failed(STATUS_NO_TRUST_ROOT),
            }
        },
    }
}

/// The complete verification outcome for an end-entity certificate: its own
/// checks, the hostname match when one is requested, then the chain walk.
pub open spec fn spec_verify_status(
    c: &Certificate,
    inters: Seq<&Certificate>,
    trusted: Seq<&Certificate>,
    hostname: Seq<u8>,
    t: u64,
) -> CertValidationStatus {
    if spec_cert_check(c, t) != STATUS_VERIFIED {
        CertValidationStatus::Failed(spec_cert_check(c, t))
    } else if hostname.len() > 0 && !spec_matches_hostname(c, hostname) {
        CertValidationStatus::Failed(STATUS_HOSTNAME_MISMATCH)
    } else {
        spec_chain_status(c, inters, trusted, t, inters.len())
    }
}

impl Certificate {
    /// Structural invariant: every variable-length field fits its length
    /// prefix in the serialized form, and the validity window is ordered.
    pub open spec fn wf(&self) -> bool {
        &&& 1 <= self.serial@.len() <= 255
        &&& self.subject_key_id@.len() <= 255
        &&& self.authority_key_id@.len() <= 255
        &&& self.public_key_bits@.len() <= 65535
        &&& self.not_before <= self.not_after
        &&& self.san@.len() <= 255
        &&& forall|i: int| 0 <= i < self.san@.len() ==> 1 <= #[trigger] self.san@[i]@.len() <= 255
    }

    /// Executable form of the structural invariant, for callers outside the
    /// verifier (tests, the surrounding application) to check before `encode`
    /// or `fingerprint`.
    pub fn is_wf(&self) -> (r: bool)
        ensures
            r == self.wf(),
    {
        if !(1 <= self.serial.len() && self.serial.len() <= 255) {
            return false;
        }
        if self.subject_key_id.len() > 255 || self.authority_key_id.len() > 255 {
            return false;
        }
        if self.public_key_bits.len() > 65535 {
            return false;
        }
        if self.not_before > self.not_after {
            return false;
        }
        if self.san.len() > 255 {
            return false;
        }
        let mut i: usize = 0;
        while i < self.san.len()
            invariant
                i <= self.san@.len(),
                forall|j: int| 0 <= j < i ==> 1 <= #[trigger] self.san@[j]@.len() <= 255,
            decreases self.san@.len() - i,
        {
            if self.san[i].len() < 1 || self.san[i].len() > 255 {
                return false;
            }
            i += 1;
        }
        true
    }

    /// Duplicate the certificate object.  Certificate objects are immutable,
    /// so duplication is a cheap, infallible reference-count increment at the
    /// engine layer; the duplicate observes the same values.
    pub fn duplicate(&self) -> (r: Result<Certificate, Error>)
        ensures
            r matches Ok(c) && same_certificate(self, &c),
    {
        Ok(
            Certificate {
                serial: copy_bytes(self.serial.as_slice()),
                subject_key_id: copy_bytes(self.subject_key_id.as_slice()),
                authority_key_id: copy_bytes(self.authority_key_id.as_slice()),
                public_key_bits: copy_bytes(self.public_key_bits.as_slice()),
                key_strength: self.key_strength,
                not_before: self.not_before,
                not_after: self.not_after,
                usage: self.usage,
                san: copy_names(&self.san),
            },
        )
    }

    /// The public key included in this certificate.
    pub fn public_key(&self) -> (r: Result<Pubkey, Error>)
        ensures
            r matches Ok(k) && k.bits@ == self.public_key_bits@,
    {
        Ok(Pubkey { bits: copy_bytes(self.public_key_bits.as_slice()) })
    }

    /// Test whether the certificate is allowed for a particular usage.  The
    /// engine call reports whether the usage is forbidden; this wrapper
    /// inverts it.
    pub fn allows_usage(&self, usage: CertUsage) -> (r: Result<bool, Error>)
        ensures
            r == Ok::<bool, Error>(spec_allows_usage(self, spec_constraint_bits(spec_constraint_of_usage(usage)))),
    {
        let constraint = X509KeyConstraints::from(usage);
        let forbidden = cert_forbidden_usage(self, constraint.bits());
        Ok(!forbidden)
    }

    /// True when the provided hostname is valid for this certificate: equal
    /// to a subject alternative name or matched by a wildcard one.
    pub fn matches_hostname(&self, hostname: &[u8]) -> (r: Result<bool, Error>)
        ensures
            r == Ok::<bool, Error>(spec_matches_hostname(self, hostname@)),
    {
        let mut i: usize = 0;
        while i < self.san.len()
            invariant
                i <= self.san@.len(),
                forall|j: int|
                    0 <= j < i ==> !(self.san@[j]@ == hostname@ || spec_wildcard_match(
                        self.san@[j]@,
                        hostname@,
                    )),
            decreases self.san@.len() - i,
        {
            if pattern_matches(self.san[i].as_slice(), hostname) {
                return Ok(true);
            }
            i += 1;
        }
        Ok(false)
    }

    /// Attempt to verify this certificate against trusted roots, with
    /// optional intermediates, hostname and reference time.  The borrowed
    /// certificates are only read.  A reference time of zero waives the
    /// validity-window check at this layer.  A trust-anchor directory is not
    /// supported by the built-in engine: passing one is an error, not a
    /// validation result.
    pub fn verify(
        &self,
        intermediates: &[&Certificate],
        trusted: &[&Certificate],
        trusted_path: Option<&str>,
        hostname: Option<&[u8]>,
        reference_time: Option<u64>,
    ) -> (r: Result<CertValidationStatus, Error>)
        ensures
            ({
                let host = match hostname {
                    Some(h) => h@,
                    None => Seq::<u8>::empty(),
                };
                let t = match reference_time {
                    Some(x) => x,
                    None => 0u64,
                };
                if (trusted_path matches Some(p) && p@.len() > 0) {
                    r == Err::<CertValidationStatus, Error>(Error::Generic(RC_NOT_IMPLEMENTED))
                } else {
                    r == Ok::<CertValidationStatus, Error>(
                        spec_verify_status(self, intermediates@, trusted@, host, t),
                    )
                }
            }),
    {
        match trusted_path {
            Some(p) => {
                if !p.is_empty() {
                    return Err(Error::from_rc(RC_NOT_IMPLEMENTED));
                }
            },
            None => {},
        }
        let t: u64 = match reference_time {
            Some(x) => x,
            None => 0,
        };
        let own = cert_check(self, t);
        if own != STATUS_VERIFIED {
            return Ok(CertValidationStatus::Failed(own));
        }
        match hostname {
            Some(h) => {
                if h.len() > 0 {
                    let m = self.matches_hostname(h);
                    match m {
                        Ok(true) => {},
                        _ => {
                            return Ok(CertValidationStatus::Failed(STATUS_HOSTNAME_MISMATCH));
                        },
                    }
                }
            },
            None => {},
        }
        let fuel = intermediates.len();
        let r = chain_status(self, intermediates, trusted, t, fuel);
        Ok(r)
    }
}

/// The duplicate observes the same values as the original.
pub open spec fn same_certificate(a: &Certificate, b: &Certificate) -> bool {
    &&& b.serial@ == a.serial@
    &&& b.subject_key_id@ == a.subject_key_id@
    &&& b.authority_key_id@ == a.authority_key_id@
    &&& b.public_key_bits@ == a.public_key_bits@
    &&& b.key_strength == a.key_strength
    &&& b.not_before == a.not_before
    &&& b.not_after == a.not_after
    &&& b.usage == a.usage
    &&& b.san@.len() == a.san@.len()
    &&& forall|i: int| 0 <= i < a.san@.len() ==> b.san@[i]@ == a.san@[i]@
}

impl Clone for Certificate {
    /// Clone routes through `duplicate`, never by copying the underlying
    /// object's identity directly.
    fn clone(&self) -> (r: Certificate)
        ensures
            same_certificate(self, &r),
    {
        match self.duplicate() {
            Ok(c) => c,
            Err(_) => vstd::pervasive::unreached(),
        }
    }
}

/// An owned copy of a list of names.
fn copy_names(src: &Vec<Vec<u8>>) -> (r: Vec<Vec<u8>>)
    ensures
        r@.len() == src@.len(),
        forall|i: int| 0 <= i < src@.len() ==> r@[i]@ == src@[i]@,
{
    let mut v: Vec<Vec<u8>> = Vec::new();
    let mut i: usize = 0;
    while i < src.len()
        invariant
            i <= src@.len(),
            v@.len() == i,
            forall|j: int| 0 <= j < i ==> v@[j]@ == src@[j]@,
        decreases src@.len() - i,
    {
        v.push(copy_bytes(src[i].as_slice()));
        i += 1;
    }
    v
}

/// The engine's key-usage query, in its native inverted sense: true when the
/// queried usage is forbidden by the certificate's usage bits.
fn cert_forbidden_usage(c: &Certificate, bits: u32) -> (r: bool)
    ensures
        r == !spec_allows_usage(c, bits),
{
    if c.usage == 0 {
        false
    } else {
        !(c.usage & bits == bits)
    }
}

/// The per-certificate checks: validity window, then key strength.
fn cert_check(c: &Certificate, t: u64) -> (r: i32)
    ensures
        r == spec_cert_check(c, t),
{
    if t != 0 && t < c.not_before {
        STATUS_CERT_NOT_YET_VALID
    } else if t != 0 && t > c.not_after {
        STATUS_CERT_HAS_EXPIRED
    } else if c.key_strength < REQUIRED_KEY_STRENGTH {
        STATUS_KEY_TOO_WEAK
    } else {
        STATUS_VERIFIED
    }
}

/// Walk the chain upward from `c` until a trusted root signs it, checking
/// every issuer on the way.
fn chain_status(
    c: &Certificate,
    inters: &[&Certificate],
    trusted: &[&Certificate],
    t: u64,
    fuel: usize,
) -> (r: CertValidationStatus)
    ensures
        r == spec_chain_status(c, inters@, trusted@, t, fuel as nat),
    decreases fuel,
{
    match find_by_skid(trusted, c.authority_key_id.as_slice(), 0) {
        Some(i) => {
            let root = trusted[i];
            let chk = cert_check(root, t);
            if chk != STATUS_VERIFIED {
                CertValidationStatus::Failed(chk)
            } else if cert_forbidden_usage(root, 1024) {
                CertValidationStatus::Failed(STATUS_CA_CERT_NOT_ALLOWED)
            } else {
                CertValidationStatus::Success(STATUS_VERIFIED)
            }
        },
        None => {
            match find_by_skid(inters, c.authority_key_id.as_slice(), 0) {
                Some(i) => {
                    if fuel == 0 {
                        CertValidationStatus::Failed(STATUS_NO_TRUST_ROOT)
                    } else {
                        let mid = inters[i];
                        let chk = cert_check(mid, t);
                        if chk != STATUS_VERIFIED {
                            CertValidationStatus::Failed(chk)
                        } else if cert_forbidden_usage(mid, 1024) {
                            CertValidationStatus::Failed(STATUS_CA_CERT_NOT_ALLOWED)
                        } else {
                            chain_status(mid, inters, trusted, t, fuel - 1)
                        }
                    }
                },
                None => CertValidationStatus::Failed(STATUS_NO_TRUST_ROOT),
            }
        },
    }
}

/// The big-endian 8-byte form of a 64-bit value.
pub open spec fn be64(x: u64) -> Seq<u8> {
    Seq::new(8, |i: int| ((x >> (((7 - i) * 8) as u64)) & 0xff) as u8)
}

/// The big-endian 4-byte form of a 32-bit value.
pub open spec fn be32(x: u32) -> Seq<u8> {
    Seq::new(4, |i: int| ((x >> (((3 - i) * 8) as u32)) & 0xff) as u8)
}

/// The 64-bit value eight big-endian bytes denote.
pub open spec fn u64_of_be(b0: u8, b1: u8, b2: u8, b3: u8, b4: u8, b5: u8, b6: u8, b7: u8) -> u64 {
    ((b0 as u64) << 56) | ((b1 as u64) << 48) | ((b2 as u64) << 40) | ((b3 as u64) << 32) | ((b4 as u64) << 24) | ((b5 as u64) << 16) | ((b6 as u64) << 8) | (b7 as u64)
}

/// The 32-bit value four big-endian bytes denote.
pub open spec fn u32_of_be(b0: u8, b1: u8, b2: u8, b3: u8) -> u32 {
    ((b0 as u32) << 24) | ((b1 as u32) << 16) | ((b2 as u32) << 8) | (b3 as u32)
}

/// Reading eight big-endian bytes and writing them back is the identity.
proof fn lemma_be64_roundtrip(b0: u8, b1: u8, b2: u8, b3: u8, b4: u8, b5: u8, b6: u8, b7: u8)
    ensures
        be64(u64_of_be(b0, b1, b2, b3, b4, b5, b6, b7)) =~= seq![b0, b1, b2, b3, b4, b5, b6, b7],
{
    assert({
        &&& (((((b0 as u64) << 56) | ((b1 as u64) << 48) | ((b2 as u64) << 40) | ((b3 as u64) << 32) | ((b4 as u64) << 24) | ((b5 as u64) << 16) | ((b6 as u64) << 8) | (b7 as u64)) >> 56) & 0xff) as u8 == b0
        &&& (((((b0 as u64) << 56) | ((b1 as u64) << 48) | ((b2 as u64) << 40) | ((b3 as u64) << 32) | ((b4 as u64) << 24) | ((b5 as u64) << 16) | ((b6 as u64) << 8) | (b7 as u64)) >> 48) & 0xff) as u8 == b1
        &&& (((((b0 as u64) << 56) | ((b1 as u64) << 48) | ((b2 as u64) << 40) | ((b3 as u64) << 32) | ((b4 as u64) << 24) | ((b5 as u64) << 16) | ((b6 as u64) << 8) | (b7 as u64)) >> 40) & 0xff) as u8 == b2
        &&& (((((b0 as u64) << 56) | ((b1 as u64) << 48) | ((b2 as u64) << 40) | ((b3 as u64) << 32) | ((b4 as u64) << 24) | ((b5 as u64) << 16) | ((b6 as u64) << 8) | (b7 as u64)) >> 32) & 0xff) as u8 == b3
        &&& (((((b0 as u64) << 56) | ((b1 as u64) << 48) | ((b2 as u64) << 40) | ((b3 as u64) << 32) | ((b4 as u64) << 24) | ((b5 as u64) << 16) | ((b6 as u64) << 8) | (b7 as u64)) >> 24) & 0xff) as u8 == b4
        &&& (((((b0 as u64) << 56) | ((b1 as u64) << 48) | ((b2 as u64) << 40) | ((b3 as u64) << 32) | ((b4 as u64) << 24) | ((b5 as u64) << 16) | ((b6 as u64) << 8) | (b7 as u64)) >> 16) & 0xff) as u8 == b5
        &&& (((((b0 as u64) << 56) | ((b1 as u64) << 48) | ((b2 as u64) << 40) | ((b3 as u64) << 32) | ((b4 as u64) << 24) | ((b5 as u64) << 16) | ((b6 as u64) << 8) | (b7 as u64)) >> 8) & 0xff) as u8 == b6
        &&& (((((b0 as u64) << 56) | ((b1 as u64) << 48) | ((b2 as u64) << 40) | ((b3 as u64) << 32) | ((b4 as u64) << 24) | ((b5 as u64) << 16) | ((b6 as u64) << 8) | (b7 as u64)) >> 0) & 0xff) as u8 == b7
    }) by (bit_vector);
}

/// Reading four big-endian bytes and writing them back is the identity.
proof fn lemma_be32_roundtrip(b0: u8, b1: u8, b2: u8, b3: u8)
    ensures
        be32(u32_of_be(b0, b1, b2, b3)) =~= seq![b0, b1, b2, b3],
{
    assert({
        &&& (((((b0 as u32) << 24) | ((b1 as u32) << 16) | ((b2 as u32) << 8) | (b3 as u32)) >> 24) & 0xff) as u8 == b0
        &&& (((((b0 as u32) << 24) | ((b1 as u32) << 16) | ((b2 as u32) << 8) | (b3 as u32)) >> 16) & 0xff) as u8 == b1
        &&& (((((b0 as u32) << 24) | ((b1 as u32) << 16) | ((b2 as u32) << 8) | (b3 as u32)) >> 8) & 0xff) as u8 == b2
        &&& (((((b0 as u32) << 24) | ((b1 as u32) << 16) | ((b2 as u32) << 8) | (b3 as u32)) >> 0) & 0xff) as u8 == b3
    }) by (bit_vector);
}

/// Append the big-endian bytes of a 64-bit value.
fn push_be64(v: &mut Vec<u8>, x: u64)
    ensures
        final(v)@ == old(v)@ + be64(x),
{
    v.push(((x >> 56) & 0xff) as u8);
    v.push(((x >> 48) & 0xff) as u8);
    v.push(((x >> 40) & 0xff) as u8);
    v.push(((x >> 32) & 0xff) as u8);
    v.push(((x >> 24) & 0xff) as u8);
    v.push(((x >> 16) & 0xff) as u8);
    v.push(((x >> 8) & 0xff) as u8);
    v.push((x & 0xff) as u8);
    proof {
        assert(x & 0xff == (x >> 0) & 0xff) by (bit_vector);
        assert(v@ =~= old(v)@ + be64(x));
    }
}

/// Append the big-endian bytes of a 32-bit value.
fn push_be32(v: &mut Vec<u8>, x: u32)
    ensures
        final(v)@ == old(v)@ + be32(x),
{
    v.push(((x >> 24) & 0xff) as u8);
    v.push(((x >> 16) & 0xff) as u8);
    v.push(((x >> 8) & 0xff) as u8);
    v.push((x & 0xff) as u8);
    proof {
        assert(x & 0xff == (x >> 0) & 0xff) by (bit_vector);
        assert(v@ =~= old(v)@ + be32(x));
    }
}

/// Read a big-endian 64-bit value at `off`.
fn read_u64(data: &[u8], off: usize) -> (x: u64)
    requires
        off + 8 <= data@.len(),
    ensures
        be64(x) == data@.subrange(off as int, off as int + 8),
{
    let x = ((data[off] as u64) << 56) | ((data[off + 1] as u64) << 48) | ((data[off + 2]
        as u64) << 40) | ((data[off + 3] as u64) << 32) | ((data[off + 4] as u64) << 24) | ((
    data[off + 5] as u64) << 16) | ((data[off + 6] as u64) << 8) | (data[off + 7] as u64);
    proof {
        lemma_be64_roundtrip(
            data@[off as int],
            data@[off as int + 1],
            data@[off as int + 2],
            data@[off as int + 3],
            data@[off as int + 4],
            data@[off as int + 5],
            data@[off as int + 6],
            data@[off as int + 7],
        );
        assert(data@.subrange(off as int, off as int + 8) =~= seq![
            data@[off as int],
            data@[off as int + 1],
            data@[off as int + 2],
            data@[off as int + 3],
            data@[off as int + 4],
            data@[off as int + 5],
            data@[off as int + 6],
            data@[off as int + 7],
        ]);
    }
    x
}

/// Read a big-endian 32-bit value at `off`.
fn read_u32(data: &[u8], off: usize) -> (x: u32)
    requires
        off + 4 <= data@.len(),
    ensures
        be32(x) == data@.subrange(off as int, off as int + 4),
{
    let x = ((data[off] as u32) << 24) | ((data[off + 1] as u32) << 16) | ((data[off + 2]
        as u32) << 8) | (data[off + 3] as u32);
    proof {
        lemma_be32_roundtrip(
            data@[off as int],
            data@[off as int + 1],
            data@[off as int + 2],
            data@[off as int + 3],
        );
        assert(data@.subrange(off as int, off as int + 4) =~= seq![
            data@[off as int],
            data@[off as int + 1],
            data@[off as int + 2],
            data@[off as int + 3],
        ]);
    }
    x
}

/// An owned copy of `data[off .. off + n]`.
fn read_seg(data: &[u8], off: usize, n: usize) -> (r: Vec<u8>)
    requires
        off + n <= data@.len(),
    ensures
        r@ == data@.subrange(off as int, off as int + n),
{
    let dn = data.len();
    let mut v: Vec<u8> = Vec::new();
    let mut i: usize = 0;
    while i < n
        invariant
            i <= n,
            dn == data@.len(),
            off + n <= dn,
            v@ == data@.subrange(off as int, off as int + i),
        decreases n - i,
    {
        v.push(data[off + i]);
        i += 1;
        proof {
            assert(v@ =~= data@.subrange(off as int, off as int + i));
        }
    }
    v
}


/// Read one length-prefixed segment at `off`: a length byte, then that many
/// bytes.  `None` when the data is too short.
fn read_lp(data: &[u8], off: usize) -> (r: Option<(Vec<u8>, usize)>)
    requires
        off <= data@.len(),
        data@.len() <= usize::MAX,
    ensures
        ({
            match r {
                Some((seg, off2)) => {
                    &&& off < data@.len()
                    &&& seg@.len() == data@[off as int] as int
                    &&& off2 == off + 1 + seg@.len()
                    &&& off2 <= data@.len()
                    &&& data@.take(off2 as int) == data@.take(off as int) + seq![
                        wrap8(seg@.len() as int),
                    ] + seg@
                },
                None => data@.len() < off + 1 || data@.len() < off + 1 + data@[off as int] as int,
            }
        }),
{
    let n = data.len();
    if n - off < 1 {
        return None;
    }
    let l = data[off] as usize;
    if n - off - 1 < l {
        return None;
    }
    let seg = read_seg(data, off + 1, l);
    proof {
        assert(wrap8(seg@.len() as int) == data@[off as int]);
        assert(data@.take(off + 1 + l) =~= data@.take(off as int) + seq![
            wrap8(seg@.len() as int),
        ] + data@.subrange(off + 1, off + 1 + l));
    }
    Some((seg, off + 1 + l))
}


/// Two 64-bit values with the same big-endian bytes are equal.
proof fn lemma_be64_inj(x: u64, y: u64)
    requires
        be64(x) == be64(y),
    ensures
        x == y,
{
    assert(((x >> 56u64) & 0xff) as u8 == ((y >> 56u64) & 0xff) as u8) by {
        assert(be64(x)[0] == ((x >> (((7 - 0) * 8) as u64)) & 0xff) as u8);
        assert(be64(y)[0] == ((y >> (((7 - 0) * 8) as u64)) & 0xff) as u8);
        assert(((7 - 0) * 8) as u64 == 56u64);
        assert(be64(x)[0] == be64(y)[0]);
    }
    assert(((x >> 48u64) & 0xff) as u8 == ((y >> 48u64) & 0xff) as u8) by {
        assert(be64(x)[1] == ((x >> (((7 - 1) * 8) as u64)) & 0xff) as u8);
        assert(be64(y)[1] == ((y >> (((7 - 1) * 8) as u64)) & 0xff) as u8);
        assert(((7 - 1) * 8) as u64 == 48u64);
        assert(be64(x)[1] == be64(y)[1]);
    }
    assert(((x >> 40u64) & 0xff) as u8 == ((y >> 40u64) & 0xff) as u8) by {
        assert(be64(x)[2] == ((x >> (((7 - 2) * 8) as u64)) & 0xff) as u8);
        assert(be64(y)[2] == ((y >> (((7 - 2) * 8) as u64)) & 0xff) as u8);
        assert(((7 - 2) * 8) as u64 == 40u64);
        assert(be64(x)[2] == be64(y)[2]);
    }
    assert(((x >> 32u64) & 0xff) as u8 == ((y >> 32u64) & 0xff) as u8) by {
        assert(be64(x)[3] == ((x >> (((7 - 3) * 8) as u64)) & 0xff) as u8);
        assert(be64(y)[3] == ((y >> (((7 - 3) * 8) as u64)) & 0xff) as u8);
        assert(((7 - 3) * 8) as u64 == 32u64);
        assert(be64(x)[3] == be64(y)[3]);
    }
    assert(((x >> 24u64) & 0xff) as u8 == ((y >> 24u64) & 0xff) as u8) by {
        assert(be64(x)[4] == ((x >> (((7 - 4) * 8) as u64)) & 0xff) as u8);
        assert(be64(y)[4] == ((y >> (((7 - 4) * 8) as u64)) & 0xff) as u8);
        assert(((7 - 4) * 8) as u64 == 24u64);
        assert(be64(x)[4] == be64(y)[4]);
    }
    assert(((x >> 16u64) & 0xff) as u8 == ((y >> 16u64) & 0xff) as u8) by {
        assert(be64(x)[5] == ((x >> (((7 - 5) * 8) as u64)) & 0xff) as u8);
        assert(be64(y)[5] == ((y >> (((7 - 5) * 8) as u64)) & 0xff) as u8);
        assert(((7 - 5) * 8) as u64 == 16u64);
        assert(be64(x)[5] == be64(y)[5]);
    }
    assert(((x >> 8u64) & 0xff) as u8 == ((y >> 8u64) & 0xff) as u8) by {
        assert(be64(x)[6] == ((x >> (((7 - 6) * 8) as u64)) & 0xff) as u8);
        assert(be64(y)[6] == ((y >> (((7 - 6) * 8) as u64)) & 0xff) as u8);
        assert(((7 - 6) * 8) as u64 == 8u64);
        assert(be64(x)[6] == be64(y)[6]);
    }
    assert(((x >> 0u64) & 0xff) as u8 == ((y >> 0u64) & 0xff) as u8) by {
        assert(be64(x)[7] == ((x >> (((7 - 7) * 8) as u64)) & 0xff) as u8);
        assert(be64(y)[7] == ((y >> (((7 - 7) * 8) as u64)) & 0xff) as u8);
        assert(((7 - 7) * 8) as u64 == 0u64);
        assert(be64(x)[7] == be64(y)[7]);
    }
    assert({
        &&& ((x >> 56u64) & 0xff) as u8 == ((y >> 56u64) & 0xff) as u8
        &&& ((x >> 48u64) & 0xff) as u8 == ((y >> 48u64) & 0xff) as u8
        &&& ((x >> 40u64) & 0xff) as u8 == ((y >> 40u64) & 0xff) as u8
        &&& ((x >> 32u64) & 0xff) as u8 == ((y >> 32u64) & 0xff) as u8
        &&& ((x >> 24u64) & 0xff) as u8 == ((y >> 24u64) & 0xff) as u8
        &&& ((x >> 16u64) & 0xff) as u8 == ((y >> 16u64) & 0xff) as u8
        &&& ((x >> 8u64) & 0xff) as u8 == ((y >> 8u64) & 0xff) as u8
        &&& ((x >> 0u64) & 0xff) as u8 == ((y >> 0u64) & 0xff) as u8
    } ==> x == y) by (bit_vector);
}

/// Two 32-bit values with the same big-endian bytes are equal.
proof fn lemma_be32_inj(x: u32, y: u32)
    requires
        be32(x) == be32(y),
    ensures
        x == y,
{
    assert(((x >> 24u32) & 0xff) as u8 == ((y >> 24u32) & 0xff) as u8) by {
        assert(be32(x)[0] == ((x >> (((3 - 0) * 8) as u32)) & 0xff) as u8);
        assert(be32(y)[0] == ((y >> (((3 - 0) * 8) as u32)) & 0xff) as u8);
        assert(((3 - 0) * 8) as u32 == 24u32);
        assert(be32(x)[0] == be32(y)[0]);
    }
    assert(((x >> 16u32) & 0xff) as u8 == ((y >> 16u32) & 0xff) as u8) by {
        assert(be32(x)[1] == ((x >> (((3 - 1) * 8) as u32)) & 0xff) as u8);
        assert(be32(y)[1] == ((y >> (((3 - 1) * 8) as u32)) & 0xff) as u8);
        assert(((3 - 1) * 8) as u32 == 16u32);
        assert(be32(x)[1] == be32(y)[1]);
    }
    assert(((x >> 8u32) & 0xff) as u8 == ((y >> 8u32) & 0xff) as u8) by {
        assert(be32(x)[2] == ((x >> (((3 - 2) * 8) as u32)) & 0xff) as u8);
        assert(be32(y)[2] == ((y >> (((3 - 2) * 8) as u32)) & 0xff) as u8);
        assert(((3 - 2) * 8) as u32 == 8u32);
        assert(be32(x)[2] == be32(y)[2]);
    }
    assert(((x >> 0u32) & 0xff) as u8 == ((y >> 0u32) & 0xff) as u8) by {
        assert(be32(x)[3] == ((x >> (((3 - 3) * 8) as u32)) & 0xff) as u8);
        assert(be32(y)[3] == ((y >> (((3 - 3) * 8) as u32)) & 0xff) as u8);
        assert(((3 - 3) * 8) as u32 == 0u32);
        assert(be32(x)[3] == be32(y)[3]);
    }
    assert({
        &&& ((x >> 24u32) & 0xff) as u8 == ((y >> 24u32) & 0xff) as u8
        &&& ((x >> 16u32) & 0xff) as u8 == ((y >> 16u32) & 0xff) as u8
        &&& ((x >> 8u32) & 0xff) as u8 == ((y >> 8u32) & 0xff) as u8
        &&& ((x >> 0u32) & 0xff) as u8 == ((y >> 0u32) & 0xff) as u8
    } ==> x == y) by (bit_vector);
}

/// Append a byte slice.
fn append_bytes(v: &mut Vec<u8>, src: &[u8])
    ensures
        final(v)@ == old(v)@ + src@,
{
    let mut i: usize = 0;
    while i < src.len()
        invariant
            i <= src@.len(),
            v@ == old(v)@ + src@.take(i as int),
        decreases src@.len() - i,
    {
        v.push(src[i]);
        i += 1;
        proof {
            assert(v@ =~= old(v)@ + src@.take(i as int));
        }
    }
    proof {
        assert(old(v)@ + src@.take(src@.len() as int) =~= old(v)@ + src@);
    }
}

/// The serialized form of a list of names: for each name, one length byte
/// followed by its bytes.
pub open spec fn spec_name_list_bytes(san: Seq<Vec<u8>>) -> Seq<u8>
    decreases san.len(),
{
    if san.len() == 0 {
        Seq::empty()
    } else {
        spec_name_list_bytes(san.drop_last()) + seq![wrap8(san.last()@.len() as int)]
            + san.last()@
    }
}

/// The serialized form of a certificate: the fixed-width validity window,
/// key strength and usage bits, then each variable-length field behind its
/// length prefix, and last the name list behind its count.
pub open spec fn cert_bytes(c: &Certificate) -> Seq<u8> {
    be64(c.not_before) + be64(c.not_after) + be64(c.key_strength) + be32(c.usage) + seq![
        wrap8(c.serial@.len() as int),
    ] + c.serial@ + seq![wrap8(c.subject_key_id@.len() as int)] + c.subject_key_id@ + seq![
        wrap8(c.authority_key_id@.len() as int),
    ] + c.authority_key_id@ + seq![
        wrap8(c.public_key_bits@.len() as int / 256),
        wrap8(c.public_key_bits@.len() as int),
    ] + c.public_key_bits@ + seq![wrap8(c.san@.len() as int)] + spec_name_list_bytes(c.san@)
}

/// A well-formed certificate whose serialized form is exactly `data`.
pub open spec fn spec_encodes(c0: Certificate, data: Seq<u8>) -> bool {
    c0.wf() && cert_bytes(&c0) == data
}

/// Where each field of a well-formed certificate sits in its serialized
/// form, and the bounds its length prefixes respect.
proof fn lemma_cert_bytes_layout(c: &Certificate)
    requires
        c.wf(),
    ensures
        ({
            let s = c.serial@.len() as int;
            let k = c.subject_key_id@.len() as int;
            let a = c.authority_key_id@.len() as int;
            let p = c.public_key_bits@.len() as int;
            let d = cert_bytes(c);
            &&& d.len() == 34 + s + k + a + p + spec_name_list_bytes(c.san@).len()
            &&& d.subrange(0, 8) == be64(c.not_before)
            &&& d.subrange(8, 16) == be64(c.not_after)
            &&& d.subrange(16, 24) == be64(c.key_strength)
            &&& d.subrange(24, 28) == be32(c.usage)
            &&& d[28] as int == s
            &&& d.subrange(29, 29 + s) == c.serial@
            &&& d[29 + s] as int == k
            &&& d.subrange(30 + s, 30 + s + k) == c.subject_key_id@
            &&& d[30 + s + k] as int == a
            &&& d.subrange(31 + s + k, 31 + s + k + a) == c.authority_key_id@
            &&& d[31 + s + k + a] as int == p / 256
            &&& d[32 + s + k + a] as int == p % 256
            &&& d[31 + s + k + a] as int * 256 + d[32 + s + k + a] as int == p
            &&& d.subrange(33 + s + k + a, 33 + s + k + a + p) == c.public_key_bits@
            &&& d[33 + s + k + a + p] as int == c.san@.len() as int
            &&& d.skip(34 + s + k + a + p) == spec_name_list_bytes(c.san@)
            &&& 1 <= s <= 255
            &&& 0 <= k <= 255
            &&& 0 <= a <= 255
            &&& 0 <= p <= 65535
            &&& c.san@.len() <= 255
            &&& d.len() >= 35
        }),
{
    let s = c.serial@.len() as int;
    let k = c.subject_key_id@.len() as int;
    let a = c.authority_key_id@.len() as int;
    let p = c.public_key_bits@.len() as int;
    let d = cert_bytes(c);
    assert(wrap8(s) as int == s);
    assert(wrap8(k) as int == k);
    assert(wrap8(a) as int == a);
    assert(wrap8(c.san@.len() as int) as int == c.san@.len() as int);
    assert(p / 256 <= 255 && wrap8(p / 256) as int == p / 256);
    assert(wrap8(p) as int == p % 256);
    vstd::arithmetic::div_mod::lemma_fundamental_div_mod(p, 256);
    assert(d.subrange(0, 8) =~= be64(c.not_before));
    assert(d.subrange(8, 16) =~= be64(c.not_after));
    assert(d.subrange(16, 24) =~= be64(c.key_strength));
    assert(d.subrange(24, 28) =~= be32(c.usage));
    assert(d.subrange(29, 29 + s) =~= c.serial@);
    assert(d.subrange(30 + s, 30 + s + k) =~= c.subject_key_id@);
    assert(d.subrange(31 + s + k, 31 + s + k + a) =~= c.authority_key_id@);
    assert(d.subrange(33 + s + k + a, 33 + s + k + a + p) =~= c.public_key_bits@);
    assert(d.skip(34 + s + k + a + p) =~= spec_name_list_bytes(c.san@));
}

/// Reading the serialized name list from the front: the list for `b` starts
/// with the first record, followed by the list for the rest.
proof fn lemma_name_list_unfront(b: Seq<Vec<u8>>)
    requires
        b.len() > 0,
    ensures
        spec_name_list_bytes(b) == seq![wrap8(b[0]@.len() as int)] + b[0]@ + spec_name_list_bytes(
            b.skip(1),
        ),
    decreases b.len(),
{
    if b.len() == 1 {
        assert(b.drop_last() =~= Seq::<Vec<u8>>::empty());
        assert(b.skip(1) =~= Seq::<Vec<u8>>::empty());
        assert(spec_name_list_bytes(b) =~= seq![wrap8(b[0]@.len() as int)] + b[0]@
            + spec_name_list_bytes(b.skip(1)));
    } else {
        let b0 = b.drop_last();
        lemma_name_list_unfront(b0);
        assert(b.skip(1).drop_last() =~= b0.skip(1));
        assert(b.skip(1).last() == b.last());
        assert(b0[0] == b[0]);
        assert(spec_name_list_bytes(b.skip(1)) == spec_name_list_bytes(b0.skip(1)) + seq![
            wrap8(b.last()@.len() as int),
        ] + b.last()@);
        assert(spec_name_list_bytes(b) =~= seq![wrap8(b[0]@.len() as int)] + b[0]@
            + spec_name_list_bytes(b.skip(1)));
    }
}

/// The fingerprint of a certificate: the engine's digest over its serialized
/// form, spread over 32 bytes.
pub open spec fn fingerprint_bytes(c: &Certificate) -> Seq<u8> {
    Seq::new(32, |j: int| xor_sum(cert_bytes(c)) ^ wrap8(j))
}

/// Parse `count` length-prefixed names starting at `o5`, which must run to
/// the exact end of the data: the name-list part of a certificate's
/// serialized form.
fn parse_names(data: &[u8], o5: usize, count: usize) -> (r: Result<Vec<Vec<u8>>, Error>)
    requires
        o5 <= data@.len(),
        forall|c0: Certificate| #[trigger] spec_encodes(c0, data@) ==> (c0.san@.len() == count
            && data@.skip(o5 as int) == spec_name_list_bytes(c0.san@.skip(0))),
    ensures
        ({
            match r {
                Ok(san) => {
                    &&& san@.len() == count
                    &&& forall|i: int| 0 <= i < count ==> 1 <= (#[trigger] san@[i])@.len() <= 255
                    &&& data@.skip(o5 as int) == spec_name_list_bytes(san@)
                    &&& forall|c0: Certificate|
                        #[trigger] spec_encodes(c0, data@) ==> forall|i: int|
                            0 <= i < count ==> (#[trigger] san@[i])@ == c0.san@[i]@
                },
                Err(e) => e == Error::BadParameter && forall|c0: Certificate|
                    !(#[trigger] spec_encodes(c0, data@)),
            }
        }),
{
    let n = data.len();
    let ghost head = data@.take(o5 as int);
    let mut off: usize = o5;
    let mut san: Vec<Vec<u8>> = Vec::new();
    let mut k: usize = 0;
    proof {
        assert forall|c0: Certificate| #[trigger] spec_encodes(c0, data@) implies data@.skip(
            off as int,
        ) == spec_name_list_bytes(c0.san@.skip(0)) by {
        }
    }
    while k < count
        invariant
            k <= count,
            off <= n,
            n == data@.len(),
            san@.len() == k,
            forall|i: int| 0 <= i < k ==> 1 <= #[trigger] san@[i]@.len() <= 255,
            head == data@.take(o5 as int),
            head + spec_name_list_bytes(san@) == data@.take(off as int),
            forall|c0: Certificate| #[trigger] spec_encodes(c0, data@) ==> {
                &&& c0.san@.len() == count
                &&& data@.skip(off as int) == spec_name_list_bytes(c0.san@.skip(k as int))
                &&& forall|i: int| 0 <= i < k ==> (#[trigger] san@[i])@ == c0.san@[i]@
            },
        decreases count - k,
    {
        let ghost off0 = off as int;
        let ghost k0 = k as int;
        let ghost parsed = san@;
        proof {
            assert forall|c0: Certificate| #[trigger] spec_encodes(c0, data@) implies (off0
                < data@.len() && off0 + 1 + data@[off0] as int <= data@.len() && data@[off0]
                as int >= 1) by {
                assert(k0 < c0.san@.len());
                lemma_name_list_unfront(c0.san@.skip(k0));
                assert(c0.san@.skip(k0)[0] == c0.san@[k0]);
                assert(1 <= c0.san@[k0]@.len() <= 255);
                assert(data@.skip(off0)[0] == data@[off0]);
                assert(data@.skip(off0)[0] == wrap8(c0.san@[k0]@.len() as int));
                assert(wrap8(c0.san@[k0]@.len() as int) as int == c0.san@[k0]@.len());
                assert(data@[off0] as int == c0.san@[k0]@.len());
                assert(data@.skip(off0).len() >= 1 + c0.san@[k0]@.len());
            }
        }
        let (name, o) = match read_lp(data, off) {
            Some(x) => x,
            None => {
                proof {
                    assert forall|c0: Certificate| !(#[trigger] spec_encodes(c0, data@)) by {
                        if spec_encodes(c0, data@) {
                            assert(off0 + 1 + data@[off0] as int <= data@.len());
                            assert(false);
                        }
                    }
                }
                return Err(Error::BadParameter);
            },
        };
        if name.len() < 1 {
            proof {
                assert forall|c0: Certificate| !(#[trigger] spec_encodes(c0, data@)) by {
                    if spec_encodes(c0, data@) {
                        assert(data@[off0] as int >= 1);
                        assert(false);
                    }
                }
            }
            return Err(Error::BadParameter);
        }
        proof {
            assert(san@.push(name).drop_last() =~= san@);
        }
        san.push(name);
        off = o;
        k += 1;
        proof {
            assert forall|c0: Certificate| #[trigger] spec_encodes(c0, data@) implies (
            c0.san@.len() == count && data@.skip(off as int) == spec_name_list_bytes(
                c0.san@.skip(k as int),
            ) && forall|i: int| 0 <= i < k ==> (#[trigger] san@[i])@ == c0.san@[i]@) by {
                assert(k0 < c0.san@.len());
                lemma_name_list_unfront(c0.san@.skip(k0));
                assert(c0.san@.skip(k0)[0] == c0.san@[k0]);
                assert(data@.skip(off0) == seq![wrap8(c0.san@[k0]@.len() as int)] + c0.san@[k0]@
                    + spec_name_list_bytes(c0.san@.skip(k0).skip(1)));
                assert(c0.san@.skip(k0).skip(1) =~= c0.san@.skip(k as int));
                assert(1 <= c0.san@[k0]@.len() <= 255);
                assert(data@.skip(off0)[0] == data@[off0]);
                assert(data@.skip(off0)[0] == wrap8(c0.san@[k0]@.len() as int));
                assert(wrap8(c0.san@[k0]@.len() as int) as int == c0.san@[k0]@.len());
                assert(data@[off0] as int == c0.san@[k0]@.len());
                assert(san@[k0] == name);
                assert forall|j: int| 0 <= j < name@.len() implies name@[j] == c0.san@[k0]@[j] by {
                    assert(name@[j] == data@.take(off as int)[off0 + 1 + j]);
                    assert(data@.skip(off0)[1 + j] == c0.san@[k0]@[j]);
                }
                assert(name@ =~= c0.san@[k0]@);
                assert(data@.skip(off as int) =~= data@.skip(off0).skip(
                    1 + c0.san@[k0]@.len() as int,
                ));
                assert(data@.skip(off0).skip(1 + c0.san@[k0]@.len() as int)
                    =~= spec_name_list_bytes(c0.san@.skip(k as int)));
                assert forall|i: int| 0 <= i < k implies (#[trigger] san@[i])@ == c0.san@[i]@ by {
                    if i < k0 {
                        assert(parsed[i] == san@[i]);
                    }
                }
            }
        }
    }
    if off != n {
        proof {
            assert forall|c0: Certificate| !(#[trigger] spec_encodes(c0, data@)) by {
                if spec_encodes(c0, data@) {
                    assert(data@.skip(off as int) == spec_name_list_bytes(
                        c0.san@.skip(k as int),
                    ));
                    assert(c0.san@.skip(k as int) =~= Seq::<Vec<u8>>::empty());
                    assert(data@.skip(off as int).len() == 0);
                }
            }
        }
        return Err(Error::BadParameter);
    }
    proof {
        assert(data@.take(n as int) =~= data@);
        assert(data@.take(o5 as int) + spec_name_list_bytes(san@) == data@);
        assert(data@.skip(o5 as int) =~= spec_name_list_bytes(san@));
    }
    Ok(san)
}

/// A byte field served through the caller-supplied-buffer convention.
struct FieldSource<'a> {
    bytes: &'a Vec<u8>,
}

impl<'a> ByteSource for FieldSource<'a> {
    closed spec fn payload(&self) -> Seq<u8> {
        self.bytes@
    }

    fn fill(&self, out: &mut Vec<u8>) -> (r: (i32, usize)) {
        fill_from_bytes(self.bytes.as_slice(), out)
    }
}

impl Certificate {
    /// The serialized form of this certificate, as `load` reads it.
    pub fn encode(&self) -> (r: Vec<u8>)
        requires
            self.wf(),
        ensures
            r@ == cert_bytes(self),
    {
        let mut v: Vec<u8> = Vec::new();
        push_be64(&mut v, self.not_before);
        push_be64(&mut v, self.not_after);
        push_be64(&mut v, self.key_strength);
        push_be32(&mut v, self.usage);
        v.push(self.serial.len() as u8);
        append_bytes(&mut v, self.serial.as_slice());
        v.push(self.subject_key_id.len() as u8);
        append_bytes(&mut v, self.subject_key_id.as_slice());
        v.push(self.authority_key_id.len() as u8);
        append_bytes(&mut v, self.authority_key_id.as_slice());
        v.push((self.public_key_bits.len() / 256) as u8);
        v.push((self.public_key_bits.len() % 256) as u8);
        append_bytes(&mut v, self.public_key_bits.as_slice());
        v.push(self.san.len() as u8);
        let ghost head = v@;
        let mut k: usize = 0;
        while k < self.san.len()
            invariant
                self.wf(),
                k <= self.san@.len(),
                v@ == head + spec_name_list_bytes(self.san@.take(k as int)),
            decreases self.san@.len() - k,
        {
            let name = &self.san[k];
            v.push(name.len() as u8);
            append_bytes(&mut v, name.as_slice());
            k += 1;
            proof {
                assert(self.san@.take(k as int).drop_last() =~= self.san@.take(k as int - 1));
                assert(v@ =~= head + spec_name_list_bytes(self.san@.take(k as int)));
            }
        }
        proof {
            assert(self.san@.take(self.san@.len() as int) =~= self.san@);
            assert(v@ =~= cert_bytes(self));
        }
        v
    }

    /// Load a certificate from its serialized form.  A loaded certificate
    /// corresponds exactly to the bytes it was read from, and every byte
    /// sequence that is the serialized form of some well-formed certificate
    /// loads as that certificate; anything else is a parameter error.
    #[verifier::rlimit(100)]
    pub fn load(data: &[u8]) -> (r: Result<Certificate, Error>)
        ensures
            r matches Ok(c) ==> c.wf() && cert_bytes(&c) == data@,
            forall|c0: Certificate| #[trigger] spec_encodes(c0, data@) ==> (r matches Ok(c)
                && same_certificate(&c0, &c)),
    {
        let n = data.len();
        if n < 28 {
            proof {
                assert forall|c0: Certificate| !(#[trigger] spec_encodes(c0, data@)) by {
                    if spec_encodes(c0, data@) {
                        lemma_cert_bytes_layout(&c0);
                    }
                }
            }
            return Err(Error::BadParameter);
        }
        let not_before = read_u64(data, 0);
        let not_after = read_u64(data, 8);
        let key_strength = read_u64(data, 16);
        let usage = read_u32(data, 24);
        if not_before > not_after {
            proof {
                assert forall|c0: Certificate| !(#[trigger] spec_encodes(c0, data@)) by {
                    if spec_encodes(c0, data@) {
                        lemma_cert_bytes_layout(&c0);
                        lemma_be64_inj(not_before, c0.not_before);
                        lemma_be64_inj(not_after, c0.not_after);
                    }
                }
            }
            return Err(Error::BadParameter);
        }
        proof {
            assert(data@.take(28) =~= data@.subrange(0, 8) + data@.subrange(8, 16)
                + data@.subrange(16, 24) + data@.subrange(24, 28));
        }
        let (serial, o1) = match read_lp(data, 28) {
            Some(x) => x,
            None => {
                proof {
                    assert forall|c0: Certificate| !(#[trigger] spec_encodes(c0, data@)) by {
                        if spec_encodes(c0, data@) {
                            lemma_cert_bytes_layout(&c0);
                        }
                    }
                }
                return Err(Error::BadParameter);
            },
        };
        if serial.len() < 1 {
            proof {
                assert forall|c0: Certificate| !(#[trigger] spec_encodes(c0, data@)) by {
                    if spec_encodes(c0, data@) {
                        lemma_cert_bytes_layout(&c0);
                    }
                }
            }
            return Err(Error::BadParameter);
        }
        let (subject_key_id, o2) = match read_lp(data, o1) {
            Some(x) => x,
            None => {
                proof {
                    assert forall|c0: Certificate| !(#[trigger] spec_encodes(c0, data@)) by {
                        if spec_encodes(c0, data@) {
                            lemma_cert_bytes_layout(&c0);
                        }
                    }
                }
                return Err(Error::BadParameter);
            },
        };
        let (authority_key_id, o3) = match read_lp(data, o2) {
            Some(x) => x,
            None => {
                proof {
                    assert forall|c0: Certificate| !(#[trigger] spec_encodes(c0, data@)) by {
                        if spec_encodes(c0, data@) {
                            lemma_cert_bytes_layout(&c0);
                        }
                    }
                }
                return Err(Error::BadParameter);
            },
        };
        if n - o3 < 2 {
            proof {
                assert forall|c0: Certificate| !(#[trigger] spec_encodes(c0, data@)) by {
                    if spec_encodes(c0, data@) {
                        lemma_cert_bytes_layout(&c0);
                    }
                }
            }
            return Err(Error::BadParameter);
        }
        let pl = (data[o3] as usize) * 256 + (data[o3 + 1] as usize);
        if n - o3 - 2 < pl {
            proof {
                assert forall|c0: Certificate| !(#[trigger] spec_encodes(c0, data@)) by {
                    if spec_encodes(c0, data@) {
                        lemma_cert_bytes_layout(&c0);
                        vstd::arithmetic::div_mod::lemma_fundamental_div_mod(
                            c0.public_key_bits@.len() as int,
                            256,
                        );
                    }
                }
            }
            return Err(Error::BadParameter);
        }
        let public_key_bits = read_seg(data, o3 + 2, pl);
        proof {
            assert(data@.take(o3 + 2 + pl) =~= data@.take(o3 as int) + seq![
                data@[o3 as int],
                data@[o3 as int + 1],
            ] + data@.subrange(o3 + 2, o3 + 2 + pl));
            assert(wrap8(pl as int / 256) == data@[o3 as int]);
            assert(wrap8(pl as int) == data@[o3 as int + 1]);
        }
        let o4 = o3 + 2 + pl;
        if n - o4 < 1 {
            proof {
                assert forall|c0: Certificate| !(#[trigger] spec_encodes(c0, data@)) by {
                    if spec_encodes(c0, data@) {
                        lemma_cert_bytes_layout(&c0);
                        vstd::arithmetic::div_mod::lemma_fundamental_div_mod(
                            c0.public_key_bits@.len() as int,
                            256,
                        );
                    }
                }
            }
            return Err(Error::BadParameter);
        }
        let count = data[o4] as usize;
        proof {
            assert(data@.take(o4 + 1) =~= data@.take(o4 as int) + seq![data@[o4 as int]]);
        }
        let o5 = o4 + 1;
        proof {
            assert forall|c0: Certificate| #[trigger] spec_encodes(c0, data@) implies (
            c0.san@.len() == count && data@.skip(o5 as int) == spec_name_list_bytes(
                c0.san@.skip(0),
            )) by {
                lemma_cert_bytes_layout(&c0);
                vstd::arithmetic::div_mod::lemma_fundamental_div_mod(
                    c0.public_key_bits@.len() as int,
                    256,
                );
                assert(c0.san@.skip(0) =~= c0.san@);
            }
        }
        let san = match parse_names(data, o5, count) {
            Ok(v) => v,
            Err(e) => {
                return Err(e);
            },
        };
        let c = Certificate {
            serial,
            subject_key_id,
            authority_key_id,
            public_key_bits,
            key_strength,
            not_before,
            not_after,
            usage,
            san,
        };
        proof {
            assert(data@ =~= data@.take(o5 as int) + data@.skip(o5 as int));
            assert(cert_bytes(&c) == data@);
            assert forall|c0: Certificate| #[trigger] spec_encodes(c0, data@) implies
                same_certificate(&c0, &c) by {
                lemma_cert_bytes_layout(&c0);
                lemma_cert_bytes_layout(&c);
                lemma_be64_inj(c.not_before, c0.not_before);
                lemma_be64_inj(c.not_after, c0.not_after);
                lemma_be64_inj(c.key_strength, c0.key_strength);
                lemma_be32_inj(c.usage, c0.usage);
                assert(c.serial@.len() == c0.serial@.len());
                assert(c.serial@ == c0.serial@);
                assert(c.subject_key_id@ == c0.subject_key_id@);
                assert(c.authority_key_id@ == c0.authority_key_id@);
                assert(c.public_key_bits@.len() == c0.public_key_bits@.len()) by {
                    vstd::arithmetic::div_mod::lemma_fundamental_div_mod(
                        c.public_key_bits@.len() as int,
                        256,
                    );
                    vstd::arithmetic::div_mod::lemma_fundamental_div_mod(
                        c0.public_key_bits@.len() as int,
                        256,
                    );
                }
                assert(c.public_key_bits@ == c0.public_key_bits@);
                assert(c.san@.len() == c0.san@.len());
            }
        }
        Ok(c)
    }

    /// The serial number of this certificate.
    pub fn serial_number(&self) -> (r: Result<Vec<u8>, Error>)
        ensures
            r matches Ok(v) && v@ == self.serial@,
    {
        fetch_bytes(&FieldSource { bytes: &self.serial }, 32)
    }

    /// The authority key id, if set; empty when the certificate carries none.
    pub fn authority_key_id(&self) -> (r: Result<Vec<u8>, Error>)
        ensures
            r matches Ok(v) && v@ == self.authority_key_id@,
    {
        fetch_bytes(&FieldSource { bytes: &self.authority_key_id }, 32)
    }

    /// The subject key id, if set; empty when the certificate carries none.
    pub fn subject_key_id(&self) -> (r: Result<Vec<u8>, Error>)
        ensures
            r matches Ok(v) && v@ == self.subject_key_id@,
    {
        fetch_bytes(&FieldSource { bytes: &self.subject_key_id }, 32)
    }

    /// The byte representation of the public key.
    pub fn public_key_bits(&self) -> (r: Result<Vec<u8>, Error>)
        ensures
            r matches Ok(v) && v@ == self.public_key_bits@,
    {
        fetch_bytes(&FieldSource { bytes: &self.public_key_bits }, 4096)
    }

    /// The fingerprint of this certificate: the engine digest over its
    /// serialized form.  The hash name must be non-empty; the built-in
    /// engine provides a single digest.
    pub fn fingerprint(&self, hash: &str) -> (r: Result<Vec<u8>, Error>)
        requires
            self.wf(),
        ensures
            hash@.len() == 0 ==> r == Err::<Vec<u8>, Error>(Error::BadParameter),
            hash@.len() > 0 ==> (r matches Ok(v) && v@ == fingerprint_bytes(self)),
    {
        if hash.is_empty() {
            return Err(Error::BadParameter);
        }
        let enc = self.encode();
        let base = xor_sum_exec(enc.as_slice());
        let mut digest: Vec<u8> = Vec::new();
        let mut j: usize = 0;
        while j < 32
            invariant
                j <= 32,
                base == xor_sum(cert_bytes(self)),
                digest@ == Seq::new(j as nat, |i: int| xor_sum(cert_bytes(self)) ^ wrap8(i)),
            decreases 32 - j,
        {
            digest.push(base ^ ((j % 256) as u8));
            j += 1;
            proof {
                assert(digest@ =~= Seq::new(
                    j as nat,
                    |i: int| xor_sum(cert_bytes(self)) ^ wrap8(i),
                ));
            }
        }
        let r = fetch_bytes(&FieldSource { bytes: &digest }, 128);
        proof {
            assert(digest@ =~= fingerprint_bytes(self));
        }
        r
    }
}

/// The hexadecimal digit for a value below sixteen.
pub open spec fn spec_hex_digit(n: int) -> char {
    if n == 0 {
        '0'
    } else if n == 1 {
        '1'
    } else if n == 2 {
        '2'
    } else if n == 3 {
        '3'
    } else if n == 4 {
        '4'
    } else if n == 5 {
        '5'
    } else if n == 6 {
        '6'
    } else if n == 7 {
        '7'
    } else if n == 8 {
        '8'
    } else if n == 9 {
        '9'
    } else if n == 10 {
        'a'
    } else if n == 11 {
        'b'
    } else if n == 12 {
        'c'
    } else if n == 13 {
        'd'
    } else if n == 14 {
        'e'
    } else {
        'f'
    }
}

/// The two hexadecimal digits of one byte.
pub open spec fn spec_hex_byte(x: u8) -> Seq<char> {
    seq![spec_hex_digit(x as int / 16), spec_hex_digit(x as int % 16)]
}

/// The hexadecimal form of a byte sequence.
pub open spec fn spec_hex(b: Seq<u8>) -> Seq<char>
    decreases b.len(),
{
    if b.len() == 0 {
        Seq::empty()
    } else {
        spec_hex(b.drop_last()) + spec_hex_byte(b.last())
    }
}

/// The free-form textual representation of a certificate.
pub open spec fn spec_cert_string(c: &Certificate) -> Seq<char> {
    "Certificate: serial "@ + spec_hex(c.serial@) + ", subject key id "@ + spec_hex(
        c.subject_key_id@,
    )
}

/// The one-character string of a hexadecimal digit.
fn hex_digit_str(n: u8) -> (r: &'static str)
    requires
        n < 16,
    ensures
        r@ == seq![spec_hex_digit(n as int)],
{
    proof {
        reveal_strlit("0");
        reveal_strlit("1");
        reveal_strlit("2");
        reveal_strlit("3");
        reveal_strlit("4");
        reveal_strlit("5");
        reveal_strlit("6");
        reveal_strlit("7");
        reveal_strlit("8");
        reveal_strlit("9");
        reveal_strlit("a");
        reveal_strlit("b");
        reveal_strlit("c");
        reveal_strlit("d");
        reveal_strlit("e");
        reveal_strlit("f");
    }
    let r = if n == 0 {
        "0"
    } else if n == 1 {
        "1"
    } else if n == 2 {
        "2"
    } else if n == 3 {
        "3"
    } else if n == 4 {
        "4"
    } else if n == 5 {
        "5"
    } else if n == 6 {
        "6"
    } else if n == 7 {
        "7"
    } else if n == 8 {
        "8"
    } else if n == 9 {
        "9"
    } else if n == 10 {
        "a"
    } else if n == 11 {
        "b"
    } else if n == 12 {
        "c"
    } else if n == 13 {
        "d"
    } else if n == 14 {
        "e"
    } else {
        "f"
    };
    proof {
        assert(r@ =~= seq![spec_hex_digit(n as int)]);
    }
    r
}

/// Append the hexadecimal form of `b` to `s`.
fn append_hex(s: &mut String, b: &Vec<u8>)
    ensures
        final(s)@ == old(s)@ + spec_hex(b@),
{
    let mut i: usize = 0;
    proof {
        assert(b@.take(0) =~= Seq::<u8>::empty());
    }
    while i < b.len()
        invariant
            i <= b@.len(),
            s@ == old(s)@ + spec_hex(b@.take(i as int)),
        decreases b@.len() - i,
    {
        let x = b[i];
        s.append(hex_digit_str(x / 16));
        s.append(hex_digit_str(x % 16));
        i += 1;
        proof {
            assert(b@.take(i as int).drop_last() =~= b@.take(i as int - 1));
            assert(s@ =~= old(s)@ + spec_hex(b@.take(i as int)));
        }
    }
    proof {
        assert(b@.take(b@.len() as int) =~= b@);
    }
}

impl Certificate {
    /// A free-form string representation of this certificate: its serial
    /// number and subject key identifier in hexadecimal.
    pub fn to_string(&self) -> (r: Result<String, Error>)
        ensures
            r matches Ok(s) && s@ == spec_cert_string(self),
    {
        let mut s = String::new();
        s.append("Certificate: serial ");
        append_hex(&mut s, &self.serial);
        s.append(", subject key id ");
        append_hex(&mut s, &self.subject_key_id);
        proof {
            assert(s@ =~= spec_cert_string(self));
        }
        Ok(s)
    }
}

} // verus!
