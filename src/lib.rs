//! Client-side envelope encryption of configuration files, a server-side
//! store of encrypted records, and a one-time share exchange between them.
pub mod codec;
pub mod cipher;
pub mod store;
pub mod server;
pub mod config;
pub mod client;
