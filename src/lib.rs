pub mod bit_engine;
pub mod engine;
pub mod ext;
