//! The crate's error type. Each variant renders to the exact diagnostic
//! line that operators see; `message` is verified to produce it.

use vstd::prelude::*;

verus! {

/// Everything that can go wrong short of the database itself: bad
/// environment configuration, a malformed migration file, or an operator
/// request that the revert policy refuses.
#[derive(Debug, PartialEq, Eq)]
pub enum Error {
    /// A required environment variable is not set.
    MissingEnv { name: String },
    /// An environment variable is set but cannot be parsed.
    BadEnvFormat { name: String },
    /// A path with no final component was offered as a migration file.
    FilenameRequired,
    /// A migration file's name is not valid UTF-8.
    FilenameBadEncoding,
    /// A migration file violates the `-- up` / `-- down` format.
    MigrationFileFormatError { reason: String, name: String },
    /// Both revert resolution flags were given at once.
    ConflictingFlags,
    /// An explicitly named revert target is not known.
    MigrationNotFound { name: String },
    /// The revert target's file has changed since it was applied, and no
    /// resolution flag says which down SQL to trust.
    MigrationChanged { name: String },
    /// The revert target's file is gone, and recovery from the ledger was
    /// not requested.
    MigrationRemoved { name: String },
    /// The revert target was never applied.
    RollbackPending { name: String },
}

/// The diagnostic line that each error renders to.
pub open spec fn spec_message(e: Error) -> Seq<char> {
    match e {
        Error::MissingEnv { name } => "required environment variable "@ + name@ + " not set"@,
        Error::BadEnvFormat { name } => "environment variable "@ + name@ + " could not be parsed"@,
        Error::FilenameRequired => "no filename given"@,
        Error::FilenameBadEncoding => "filename must be utf-8 encoded"@,
        Error::MigrationFileFormatError { reason, name } => "bad migration file format in "@ + name@
            + ": "@ + reason@,
        Error::ConflictingFlags => "cannot specify both --recover and --ignore-changed, aborting"@,
        Error::MigrationNotFound { name } => "couldn't find migration "@ + name@,
        Error::MigrationChanged { name } => name@
            + " has changed, aborting. Use the --recover flag to run the down sql stored in the database."@,
        Error::MigrationRemoved { name } => name@
            + " was removed, aborting. Use the --recover flag to run the down sql stored in the database."@,
        Error::RollbackPending { name } => "can't roll back a pending migration "@ + name@,
    }
}

impl Error {
    /// Renders the error as the diagnostic line an operator sees.
    pub fn message(&self) -> (r: String)
        ensures
            r@ == spec_message(*self),
    {
        match self {
            Error::MissingEnv { name } => {
                let mut s = String::from_str("required environment variable ");
                s.append(name.as_str());
                s.append(" not set");
                s
            },
            Error::BadEnvFormat { name } => {
                let mut s = String::from_str("environment variable ");
                s.append(name.as_str());
                s.append(" could not be parsed");
                s
            },
            Error::FilenameRequired => String::from_str("no filename given"),
            Error::FilenameBadEncoding => String::from_str("filename must be utf-8 encoded"),
            Error::MigrationFileFormatError { reason, name } => {
                let mut s = String::from_str("bad migration file format in ");
                s.append(name.as_str());
                s.append(": ");
                s.append(reason.as_str());
                s
            },
            Error::ConflictingFlags => String::from_str(
                "cannot specify both --recover and --ignore-changed, aborting",
            ),
            Error::MigrationNotFound { name } => {
                let mut s = String::from_str("couldn't find migration ");
                s.append(name.as_str());
                s
            },
            Error::MigrationChanged { name } => {
                let mut s = name.clone();
                s.append(
                    " has changed, aborting. Use the --recover flag to run the down sql stored in the database.",
                );
                s
            },
            Error::MigrationRemoved { name } => {
                let mut s = name.clone();
                s.append(
                    " was removed, aborting. Use the --recover flag to run the down sql stored in the database.",
                );
                s
            },
            Error::RollbackPending { name } => {
                let mut s = String::from_str("can't roll back a pending migration ");
                s.append(name.as_str());
                s
            },
        }
    }
}

} // verus!
