//! A safe, typed layer over a C-style cryptographic engine interface.
//!
//! The engine side of the interface speaks in opaque contexts, fixed-width
//! status codes and caller-supplied byte buffers.  This crate wraps that
//! convention in owned Rust values: a status-code translator, a self-sizing
//! output-buffer protocol, an incremental authenticated-cipher state machine,
//! and a certificate trust-chain verifier.  The engine itself is provided as
//! a built-in, fully verified model: a keystream cipher with a checksum tag
//! that exhibits the complete interface (status codes, buffer-too-small
//! retries, AEAD tag arithmetic) without claiming cryptographic strength.

mod util;

pub mod error;

pub mod keyspec;

pub mod engine;

pub mod cipher;

pub mod buffer;

pub mod x509_cert;

pub use cipher::{Cipher, CipherDirection};

pub use error::Error;

pub use keyspec::KeySpec;

pub use x509_cert::{Certificate, CertUsage, CertValidationStatus, Pubkey, X509KeyConstraints};
