//! The `class!` macro: the COM class model, the rules that turn the parsed
//! pieces of a class declaration into a checked `Class`, and the names of the
//! items generated for it.
#[allow(clippy::module_inception)]
pub mod class;
pub mod collisions;
pub mod parse;

pub use class::Class;
