//! Client-side protocol layer of a Minecraft-compatible game client: packed
//! storage, versioned item-stack serialization and the account handshake,
//! with the surrounding client helpers.

pub mod decimal;
pub mod item;
pub mod protocol;
pub mod render;
pub mod settings;
pub mod text;
pub mod types;
