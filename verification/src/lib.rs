//! Audits certificate-revocation data: decodes length-prefixed DER store
//! keys, turns raw store entries into typed revocation records, parses
//! DER-encoded issuer distinguished names, projects several feed formats
//! into one canonical record shape, and reports the set differences
//! between the resulting canonical sets.

pub mod asn1;
pub mod codec;
pub mod der;
pub mod errors;
pub mod laws;
pub mod model;
pub mod storage;
