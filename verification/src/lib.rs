//! Deterministic identifier generator: enumerates identifier strings over a
//! caller-supplied ordered alphabet, advancing or regressing by signed offsets.

pub mod engine;
pub mod laws;
pub mod model;
pub mod tables;
mod text;

pub use engine::advance;
pub use engine::IdentGen;
pub use engine::IdentGenOwned;
pub use tables::DEFAULT_TABLE;
pub use tables::UPPER_SNAKE;
