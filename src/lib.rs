//! A small message board spoken over one bidirectional stream per connection:
//! a message model, its binary codec, length-prefixed framing, the shared
//! store of posted messages, and the per-connection protocol decisions of the
//! server and of the client.

pub mod client;
pub mod codec;
pub mod frame;
pub mod message;
pub mod server;
pub mod store;
pub mod tls;
