//! Verified core of KQuickView: file preview decisions and navigation,
//! percent-decoding of selected URIs, and the AES-framed alarm protocol
//! with its configuration and SQL statement planning.

pub mod clock;
pub mod config;
pub mod crypto;
pub mod database;
pub mod text;
pub mod uri;
pub mod preview;
pub mod listing;
pub mod bridge;
