//! The logic of the Solium compositor, apart from the graphics, the Wayland
//! protocol and the Qt host it drives.
//!
//! Every rectangle here is in whole logical pixels and every instant is a
//! number of nanoseconds; what a window, a scene or a texture is to the code
//! around this crate is a type parameter or a plain number to the code in it.

pub mod arrangement;
pub mod density;
pub mod depth;
pub mod double;
pub mod geometry;
pub mod loading;
pub mod monitor;
pub mod number;
pub mod offscreen;
pub mod pacing;
pub mod paint;
pub mod pane;
pub mod pass;
pub mod present;
pub mod qml;
pub mod render;
pub mod resizing;
pub mod target;
pub mod text;
pub mod time;
pub mod trace;
