//! Client-side core of a document-database driver: a typed query composer
//! over an owned expression tree, its wire encoding, and the decisions of the
//! request/response session (handshake, framing, response classification and
//! retry policy).

pub mod commands;
pub mod decode;
pub mod encode;
pub mod handshake;
pub mod protocol;
pub mod scram_glue;
pub mod session;
pub mod term;
pub mod types;
