//! The wire protocol: primitive codecs and the account handshake.

pub mod error;
pub mod json;
pub mod login;
pub mod mojang;
pub mod signed_hex;
pub mod wire;

pub use self::error::Error;
