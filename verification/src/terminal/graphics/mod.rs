//! Local terminal graphics decoding.
pub mod image;
pub mod parameters;
pub mod parser;
pub mod placeholder;
pub mod protocol;
pub mod sixel;
pub mod store;
