//! The secure local identity core of a peer-to-peer encrypted messenger:
//! a password-gated master-key vault, a TLS-1.3-style handshake key
//! schedule, and an encrypted-at-rest store for contacts, messages, files
//! and avatars, every field sealed under the identity's master key.
//!
//! The store itself is modelled in memory, table by table; persisting those
//! tables is left to a thin storage adapter around this crate. Every
//! operation's contract pins how plaintext values map to the sealed rows.

pub mod crypto;
pub mod identity;
pub mod key_value_table;
pub mod schedule;
pub mod store;
pub mod util;
