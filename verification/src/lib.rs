//! A DER decoder for X.509v3 certificates.
//!
//! The crate decodes one DER-encoded `Certificate` from a byte buffer into a
//! tree of [`obj::DerObject`] nodes, enforcing the canonical (DER) encoding
//! rules and rejecting BER-only forms such as indefinite lengths.  No
//! cryptographic or policy validation is performed: the result exposes
//! structure only.

pub mod obj;
pub mod tlv;
pub mod content;
pub mod any;
pub mod x509;
pub mod laws;
pub mod frames;
