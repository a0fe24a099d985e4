//! A text editor core built on a persistent rope.

pub mod buffer;
pub mod clipboard;
pub mod config;
pub mod editor;
pub mod input;
pub mod renderer;
pub mod rope;
pub mod session;
pub mod style;
pub mod text;
pub mod undo;
pub mod viewport;
