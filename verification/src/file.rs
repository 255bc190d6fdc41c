//! File formats found inside an application package.

pub mod axml;
pub mod bytes;
pub mod chunk;
pub mod document;
pub mod string_pool;
pub mod text;
pub mod tree;
pub mod value;
