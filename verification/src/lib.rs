//! Line protocol, credential check, presence table and session rules of a
//! small notification relay.

pub mod assoc;
pub mod clients;
pub mod message;
pub mod presence;
pub mod relay;
pub mod session;
pub mod text;
