pub mod error;
pub mod kv;
pub mod laws;
pub mod model;
