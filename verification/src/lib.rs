pub mod codec;
pub mod headers;
pub mod load;
pub mod log;
pub mod lru;
pub mod monitor;
pub mod runtime;
pub mod types;
