//! Reading, editing and writing the chunk structure of PNG files.

pub mod chunk;
pub mod chunk_type;
pub mod error;
pub mod png;
