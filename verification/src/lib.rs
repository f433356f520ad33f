//! A client for the Redis wire protocol: decoding replies and encoding
//! commands, with the bookkeeping that pairs replies with requests.
pub mod buffer;
pub mod context;
pub mod conversion;
pub mod decimal;
pub mod message;
pub mod port;
pub mod proto;
pub mod search;
pub mod text;

pub use context::Context;
pub use message::Message;
