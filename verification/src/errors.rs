//! The resolution error taxonomy: every failure the resolver can report,
//! with a human-readable message built by verified code.

use vstd::prelude::*;

verus! {

/// Why a resolution attempt failed.
#[derive(Clone, Debug, PartialEq, Eq)]
pub enum ResolveError {
    /// A coordinate string is not `group:artifact:version` with three
    /// non-empty segments.
    CoordinateFormat { coordinate: String },
    /// No repository offered the artifact, POM or metadata asked for.
    NotFound { what: String },
    /// A download failed for a reason other than the not-found class.
    Transport { message: String },
    /// A downloaded or cached file is not a valid zip container.
    CorruptArchive { what: String },
    /// A locked artifact's content hash did not match the lock record.
    Integrity { coordinate: String, expected: String, actual: String },
    /// A POM or metadata document could not be parsed.
    Parse { message: String },
}

/// The message text for each error variant.
pub open spec fn spec_error_message(e: ResolveError) -> Seq<char> {
    match e {
        ResolveError::CoordinateFormat { coordinate } => "invalid Maven coordinate '"@
            + coordinate@ + "': expected groupId:artifactId:version"@,
        ResolveError::NotFound { what } => "not found in any repository: "@ + what@,
        ResolveError::Transport { message } => "transport failure: "@ + message@,
        ResolveError::CorruptArchive { what } => "corrupt or invalid archive: "@ + what@,
        ResolveError::Integrity { coordinate, expected, actual } => "checksum mismatch for "@
            + coordinate@ + ": expected "@ + expected@ + ", got "@ + actual@,
        ResolveError::Parse { message } => "parse failure: "@ + message@,
    }
}

impl ResolveError {
    /// A single descriptive line for this error.
    pub fn message(&self) -> (r: String)
        ensures
            r@ == spec_error_message(*self),
    {
        let mut out = String::new();
        match self {
            ResolveError::CoordinateFormat { coordinate } => {
                crate::strutil::append_str(&mut out, "invalid Maven coordinate '");
                crate::strutil::append_str(&mut out, coordinate.as_str());
                crate::strutil::append_str(&mut out, "': expected groupId:artifactId:version");
            },
            ResolveError::NotFound { what } => {
                crate::strutil::append_str(&mut out, "not found in any repository: ");
                crate::strutil::append_str(&mut out, what.as_str());
            },
            ResolveError::Transport { message } => {
                crate::strutil::append_str(&mut out, "transport failure: ");
                crate::strutil::append_str(&mut out, message.as_str());
            },
            ResolveError::CorruptArchive { what } => {
                crate::strutil::append_str(&mut out, "corrupt or invalid archive: ");
                crate::strutil::append_str(&mut out, what.as_str());
            },
            ResolveError::Integrity { coordinate, expected, actual } => {
                crate::strutil::append_str(&mut out, "checksum mismatch for ");
                crate::strutil::append_str(&mut out, coordinate.as_str());
                crate::strutil::append_str(&mut out, ": expected ");
                crate::strutil::append_str(&mut out, expected.as_str());
                crate::strutil::append_str(&mut out, ", got ");
                crate::strutil::append_str(&mut out, actual.as_str());
            },
            ResolveError::Parse { message } => {
                crate::strutil::append_str(&mut out, "parse failure: ");
                crate::strutil::append_str(&mut out, message.as_str());
            },
        }
        proof {
            assert(out@ =~= spec_error_message(*self));
        }
        out
    }
}

} // verus!
