//! The functions of other crates that the library calls, each with what it is taken to do.

pub mod bounded;
pub mod colors;
pub mod crypto;
pub mod documents;
pub mod http;
pub mod std_text;
