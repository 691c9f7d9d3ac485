//! The verified core of `cred`, a credential manager whose secrets are
//! encrypted under a key derived from a hardware token.

pub mod agent_keys;
pub mod assoc;
pub mod ceremony;
pub mod cli;
pub mod clock;
pub mod crypto;
pub mod import;
pub mod names;
pub mod primitives;
pub mod rate_limit;
pub mod server;
pub mod store;
pub mod store_form;
pub mod tables;
pub mod text;
pub mod tui;
pub mod types;
