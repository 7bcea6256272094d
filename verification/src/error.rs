//! The error vocabulary of the engine.

use vstd::prelude::*;

verus! {

/// What can go wrong while compiling a filter or evaluating it against a
/// message.
#[derive(Debug, Clone)]
pub enum Error {
    /// A pattern string was not a valid regular expression; carries the
    /// offending source string.
    PatternCompile(String),
    /// A rule held a value where a pattern (or list of patterns) was
    /// expected.
    UnsupportedValue,
    /// A match was attempted on a filter whose compiled cache does not line
    /// up with its rule list: never compiled, or compiled more than once.
    Uncompiled,
    /// The raw message bytes could not be parsed as a mail document, or a
    /// needed body could not be decoded.
    MimeParse,
}

/// The description text of each error kind.
pub open spec fn spec_message(e: Error) -> Seq<char> {
    match e {
        Error::PatternCompile(_) => "could not compile pattern"@,
        Error::UnsupportedValue => "not a regular expression"@,
        Error::Uncompiled => "filters need to be compiled before tested"@,
        Error::MimeParse => "could not parse message content"@,
    }
}

impl Error {
    /// A short human-readable description of the error, as specified by
    /// [`spec_message`].
    pub fn message(&self) -> (r: String)
        ensures
            r@ == spec_message(*self),
    {
        let s = match self {
            Error::PatternCompile(_) => "could not compile pattern",
            Error::UnsupportedValue => "not a regular expression",
            Error::Uncompiled => "filters need to be compiled before tested",
            Error::MimeParse => "could not parse message content",
        };
        s.to_owned()
    }
}

} // verus!
