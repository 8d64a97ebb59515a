//! NoteDock's verified core: wire types, text derivation, naming rules, the
//! metadata sync decisions and the server's request rules.

pub mod chars;
pub mod json;
pub mod text;
pub mod api;
pub mod num;
pub mod settings;
pub mod export;
pub mod remote;
pub mod store;
pub mod sync;
pub mod error;
pub mod auth;
pub mod notes;
pub mod config;
pub mod ws;
pub mod rooms;
pub mod window;
pub mod ydoc;
