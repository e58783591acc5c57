//! A peer-to-peer version store: immutable full-snapshot commits, a registry
//! of known peer addresses, and the pull-based protocol that peers use to
//! exchange the commits they lack.

pub mod commit;
pub mod history;
pub mod store;
pub mod protocol;
pub mod registry;
pub mod session;
