//! Engine of an environment-variable manager: scoped variable identities,
//! `%NAME%` reference expansion, validity rules, search and snapshots.

pub mod text;
pub mod store;
pub mod resolver;
pub mod validator;
pub mod search;
pub mod snapshot;
pub mod release;
pub mod settings;
pub mod tray;
