pub mod text;
pub mod utils;
pub mod path;
pub mod class;
pub mod interface;
