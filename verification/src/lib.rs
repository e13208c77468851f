//! Platform-independent logic of a desktop automation server.

pub mod action;
pub mod ax;
pub mod ax_batch;
pub mod binary64;
pub mod bootstrap;
pub mod bundle;
pub mod clipboard;
pub mod coords;
pub mod error;
pub mod find_text;
pub mod notifications;
pub mod orchestrate;
pub mod permission;
pub mod platform;
pub mod process;
pub mod recording;
pub mod schema;
pub mod script;
pub mod selector;
pub mod session;
pub mod set_value;
pub mod text;
pub mod timeout;
pub mod traits;
pub mod waiting;
pub mod workspace;
