//! metallirc: the protocol core of a multi-user text chat server (RFC 2812): the
//! message codec, mode sets, the user and channel registries with their invariants,
//! the command handlers and the recycler's operations.

pub mod channels;
pub mod commands;
pub mod conf;
pub mod logging;
pub mod messages;
pub mod modes;
pub mod modules;
pub mod numericreply;
pub mod recycler;
pub mod registration;
pub mod server;
pub mod users;
pub mod util;
