//! The data model of an ACME client, with its rules proved.

pub mod acceptance;
pub mod account;
pub mod base64url;
pub mod certificate;
pub mod csr;
pub mod error;
pub mod identifier;
pub mod ip;
pub mod jose;
pub mod json;
pub mod jwk;
pub mod octets;
pub mod order;
pub mod problem;
pub mod request;
pub mod text;
pub mod validation;
pub mod verdicts;
