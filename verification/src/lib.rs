//! An interactive shell core for exploring a loaded JSON document:
//! a dotted-path resolver, a value renderer, and the completion and
//! hint engines that re-run prefix resolution as the user types.

pub mod commands;
pub mod complete;
pub mod parse;
pub mod session;
pub mod render;
pub mod resolve;
pub mod text;
pub mod value;

pub use value::JsonValue;
