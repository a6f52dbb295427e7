//! The library's error taxonomy: every fallible operation reports one of
//! these variants.

use vstd::prelude::*;

verus! {

/// Errors surfaced by profile, merge and path operations.
///
/// `ParseError` carries the message of the underlying parser.
#[derive(Debug, Clone, PartialEq, Eq)]
pub enum CfgError {
    /// A profile with the requested id does not exist.
    NotFound,
    /// A profile with the given id already exists.
    DuplicateId,
    /// A JSON or TOML payload failed to parse.
    ParseError(String),
    /// A path input was rejected (for example, an empty storage path).
    InvalidPath,
    /// An environment facility (such as the home directory) was unavailable.
    IOFailure,
}

impl CfgError {
    /// A short human-readable description, in place of `Display`.
    pub fn describe(&self) -> (r: String)
        ensures
            r@.len() > 0 || self matches CfgError::ParseError(_),
    {
        match self {
            CfgError::NotFound => {
                let s = "not found";
                proof {
                    reveal_strlit("not found");
                }
                s.to_owned()
            },
            CfgError::DuplicateId => {
                let s = "duplicate id";
                proof {
                    reveal_strlit("duplicate id");
                }
                s.to_owned()
            },
            CfgError::ParseError(m) => m.clone(),
            CfgError::InvalidPath => {
                let s = "invalid path";
                proof {
                    reveal_strlit("invalid path");
                }
                s.to_owned()
            },
            CfgError::IOFailure => {
                let s = "io failure";
                proof {
                    reveal_strlit("io failure");
                }
                s.to_owned()
            },
        }
    }
}

} // verus!
