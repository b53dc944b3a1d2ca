pub mod ascii;
pub mod chunking;
pub mod deserializer;
pub mod diagnostic;
pub mod engine;
pub mod error;
pub mod format;
pub mod keys;
pub mod plans;
pub mod reader;
pub mod result_cache;
pub mod schema;
pub mod state;
pub mod text;
pub mod tokenizer;
