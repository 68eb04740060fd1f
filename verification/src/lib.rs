//! Verified core of SecureFolders: key derivation and envelope encryption,
//! vault metadata integrity, single-use recovery codes and TOTP checks.

pub mod text;
pub mod error;
pub mod crypto;
pub mod vault;
pub mod content;
pub mod totp;
pub mod commands;
pub mod settings;
pub mod state;
pub mod stream;
pub mod layout;
pub mod login;
pub mod integrity;
