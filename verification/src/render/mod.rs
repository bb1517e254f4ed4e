//! Helpers of the renderer that hold no graphics state.

pub mod atlas;
pub mod glsl;
