//! Client side of a remote window renderer: frame codec, message schema,
//! connection bookkeeping and the video streaming state machine.
mod bytes_util;
pub mod codec;
pub mod connection;
pub mod driver;
pub mod filter;
pub mod handle;
pub mod interactive;
pub mod protocol;
pub mod schema;
pub mod ui;
pub mod window;
