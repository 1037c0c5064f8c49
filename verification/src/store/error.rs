//! The one error type the document layer reports.

use vstd::prelude::*;

use crate::text::{push_signed, push_str, signed_decimal, string_of};

verus! {

/// What went wrong reading or keeping the document. Every variant carries
/// text rather than an underlying library error, so nothing outside this
/// layer has to know which CRDT or which storage backend is underneath.
#[derive(Debug, PartialEq, Eq)]
pub enum StoreError {
    /// The CRDT refused an operation.
    Crdt(String),
    /// A snapshot could not be produced or consumed.
    Snapshot(String),
    /// The document does not hold what the schema says it should: a missing
    /// key, a value of the wrong type, an unparsable rational, an unknown tag.
    Corrupt { path: String, detail: String },
    /// The storage backend refused. A missing document is not one of these:
    /// a first run has nothing to load.
    Io(String),
    /// Written by a newer build; refused rather than half read.
    FutureSchema { found: i64, supported: i64 },
}

/// The message for `e`, as a person reads it.
pub open spec fn error_message(e: StoreError) -> Seq<char> {
    match e {
        StoreError::Crdt(m) => "crdt: "@ + m@,
        StoreError::Snapshot(m) => "snapshot: "@ + m@,
        StoreError::Corrupt { path, detail } => "corrupt document at "@ + path@ + ": "@ + detail@,
        StoreError::Io(m) => "storage: "@ + m@,
        StoreError::FutureSchema { found, supported } => "document schema v"@ + signed_decimal(
            found as int,
        ) + " was written by a newer version of cabas (this build understands v"@
            + signed_decimal(supported as int) + ") \u{2014} update the app"@,
    }
}

impl StoreError {
    /// The document is not shaped the way the schema says, at `path`.
    pub fn corrupt(path: &str, detail: &str) -> (e: StoreError)
        ensures
            e matches StoreError::Corrupt { path: p, detail: d } && p@ == path@ && d@ == detail@,
    {
        StoreError::Corrupt { path: path.to_owned(), detail: detail.to_owned() }
    }

    /// The error as a sentence, for a log or a dialog.
    pub fn message(&self) -> (m: String)
        ensures
            m@ == error_message(*self),
    {
        let mut out: Vec<char> = Vec::new();
        match self {
            StoreError::Crdt(m) => {
                push_str(&mut out, "crdt: ");
                push_str(&mut out, m.as_str());
            },
            StoreError::Snapshot(m) => {
                push_str(&mut out, "snapshot: ");
                push_str(&mut out, m.as_str());
            },
            StoreError::Corrupt { path, detail } => {
                push_str(&mut out, "corrupt document at ");
                push_str(&mut out, path.as_str());
                push_str(&mut out, ": ");
                push_str(&mut out, detail.as_str());
            },
            StoreError::Io(m) => {
                push_str(&mut out, "storage: ");
                push_str(&mut out, m.as_str());
            },
            StoreError::FutureSchema { found, supported } => {
                push_str(&mut out, "document schema v");
                push_signed(&mut out, *found);
                push_str(&mut out, " was written by a newer version of cabas (this build understands v");
                push_signed(&mut out, *supported);
                push_str(&mut out, ") \u{2014} update the app");
            },
        }
        string_of(&out)
    }
}

} // verus!
