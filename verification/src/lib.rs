//! PKCS#12 archives (`.p12` and `.pfx` files): building them, and reading them back.
//!
//! [`builder::PfxBuilder`] puts a certificate, its private key and any CA certificates
//! into an archive under a password; [`parser::parse_pfx`] takes them out again.  What
//! each returns is stated as one mathematical function of its arguments,
//! [`builder::build_outcome`] and [`parser::parse_outcome`], and that the second undoes
//! the first is part of the contract of [`builder::PfxBuilder::build_with_rng`].
//!
//! What these functions mean, without a look at how they are defined, is in the modules
//! of laws: [`syntax_laws`] on the encodings, [`kdf_laws`] on key derivation,
//! [`parser_laws`] and [`builder_laws`] on the two directions, and [`laws`] on what spans
//! several parts of an archive.

pub mod asn1;
pub mod builder;
pub mod builder_laws;
pub mod cert_bag;
pub mod cms;
pub mod hash;
pub mod kdf;
pub mod kdf_laws;
pub mod laws;
pub mod mac_data;
pub mod oid;
pub mod parser;
pub mod parser_laws;
pub mod pbe_params;
pub mod pbes2;
pub mod pfx;
pub mod round_trip;
pub mod safe_bag;
pub mod secret;
pub mod syntax_laws;
pub mod tdes;

pub use cert_bag::CertBag;
pub use mac_data::{DigestInfo, MacData};
pub use oid::{
    PKCS_12_CERT_BAG_OID, PKCS_12_KEY_BAG_OID, PKCS_12_PBE_WITH_SHAAND3_KEY_TRIPLE_DES_CBC,
    PKCS_12_PKCS8_KEY_BAG_OID, PKCS_12_X509_CERT_OID,
};
pub use safe_bag::SafeBag;
