//! Process-level transparent proxying: the decisions, formats and tables.

pub mod base64;
pub mod bytes;
pub mod config;
pub mod console;
pub mod fakeip;
pub mod hook;
pub mod hooks;
pub mod iat;
pub mod injector;
pub mod launch;
pub mod net;
pub mod pending;
pub mod processes;
pub mod protocol;
pub mod relay;
pub mod router;
pub mod session;
pub mod shortcut;
pub mod socks5;
pub mod text;
pub mod utf16;
