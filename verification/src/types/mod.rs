//! Value types shared by the protocol layer.

pub mod bit;
pub mod game_mode;
pub mod nibble;

pub use self::game_mode::GameMode;
