use vstd::prelude::*;

verus! {

/// The error kinds reported by this library.
///
/// `NotFound` is a routine file or registry entry that is absent,
/// `ParseError` a malformed definition (naming the offending field where
/// possible), `RepositoryError` a failed version-control operation,
/// `IoError` a filesystem or configuration-directory failure, and
/// `LockContention` a concurrent writer detected on the repository's index.
#[derive(Debug)]
pub enum ActError {
    NotFound,
    ParseError(String),
    RepositoryError(String),
    IoError(String),
    LockContention,
}

impl ActError {
    /// What a rendered message for this error holds.
    pub open spec fn describe_spec(&self) -> Seq<char> {
        match self {
            ActError::NotFound => "routine not found"@,
            ActError::ParseError(f) => "parse error: "@ + f@,
            ActError::RepositoryError(m) => "repository error: "@ + m@,
            ActError::IoError(m) => "i/o error: "@ + m@,
            ActError::LockContention => "another writer holds the repository lock"@,
        }
    }

    /// A human-readable message for this error.
    pub fn describe(&self) -> (r: String)
        ensures
            r@ == self.describe_spec(),
    {
        match self {
            ActError::NotFound => "routine not found".to_owned(),
            ActError::ParseError(f) => {
                let mut s = "parse error: ".to_owned();
                s.append(f.as_str());
                s
            },
            ActError::RepositoryError(m) => {
                let mut s = "repository error: ".to_owned();
                s.append(m.as_str());
                s
            },
            ActError::IoError(m) => {
                let mut s = "i/o error: ".to_owned();
                s.append(m.as_str());
                s
            },
            ActError::LockContention => "another writer holds the repository lock".to_owned(),
        }
    }
}

} // verus!
