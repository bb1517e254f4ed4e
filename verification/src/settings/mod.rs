//! Settings and key bindings of the client.

pub mod config_var;
pub mod keybinds;
