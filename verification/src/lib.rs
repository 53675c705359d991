//! Focus, key and capture logic shared by the wlr tools.
//!
//! The library decides; whoever uses it makes the calls. A compositor's reply goes in as bytes
//! and comes out as the focused output, the active window or the focus order; a GPU call's
//! outcome goes in and the next call comes out.

pub mod dmabuf;
pub mod focus;
pub mod geometry;
pub mod json;
pub mod keys;
pub mod lists;
pub mod readback;
pub mod sway;
pub mod sway_laws;
pub mod sway_model;
pub mod switcher;
pub mod text;
