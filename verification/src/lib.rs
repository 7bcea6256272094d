//! A mail-filtering engine: filters hold ordered lists of rules, each rule an
//! AND-combination of field constraints over regular-expression patterns, and
//! a filter matches a message when any of its rules does. Matching runs
//! against a plain view of a message (headers, tags, file names, raw bytes,
//! thread tags); pattern compilation and raw-message parsing are delegated to
//! the `regex` and `mailparse` crates behind a small trusted boundary.

pub mod error;
pub mod filter;
pub mod fingerprint;
pub mod laws;
pub mod message;
pub mod mime;
pub mod patterns;
pub mod rule;

pub use error::Error;
pub use filter::Filter;
pub use message::{MessageView, Operations};
pub use rule::{Rule, Value};
