pub mod encoding;
pub mod envelope;
pub mod error;
pub mod event;
pub mod fetcher;
pub mod hash;
pub mod laws;
pub mod scanner;
pub mod schema;
pub mod value;
