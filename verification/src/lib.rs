//! Zedazo: verified core of a VCF contact screening tool and its CardDAV client.

pub mod text;

pub mod error;
pub mod filter;
pub mod source;
pub mod vcard;
pub mod v3_compat;
pub mod domain;
pub mod process;
pub mod dto;
pub mod auth;
pub mod storage;
pub mod url_policy;
pub mod xml;
pub mod client;
pub mod cli;
pub mod api;
pub mod encoding;
pub mod config;
