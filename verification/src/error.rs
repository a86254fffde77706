//! The store's error taxonomy and its stable, closed set of codes.

use vstd::prelude::*;

verus! {

/// Every failure the library reports. Each variant carries a human message;
/// [`HavenError::code`] buckets it into a stable machine-readable class.
#[derive(Debug, Clone, PartialEq, Eq)]
pub enum HavenError {
    Invalid(String),
    NotFound(String),
    Conflict(String),
    GraphRule(String),
    Db(String),
    Io(String),
    ContentNotLocal {
        project: String,
        rel_path: String,
        remote_path: String,
        content_hash: Option<String>,
    },
}

/// The stable code of each error class.
pub open spec fn error_code_spec(e: HavenError) -> Seq<char> {
    match e {
        HavenError::Invalid(_) => "invalid"@,
        HavenError::NotFound(_) => "not_found"@,
        HavenError::Conflict(_) => "conflict"@,
        HavenError::GraphRule(_) => "graph_rule"@,
        HavenError::Db(_) => "db"@,
        HavenError::Io(_) => "io"@,
        HavenError::ContentNotLocal { .. } => "content_not_local"@,
    }
}

/// `e` is `Invalid` carrying exactly `msg`.
pub open spec fn invalid_with(e: HavenError, msg: Seq<char>) -> bool {
    match e {
        HavenError::Invalid(m) => m@ == msg,
        _ => false,
    }
}

/// `e` is `NotFound` carrying exactly `msg`.
pub open spec fn not_found_with(e: HavenError, msg: Seq<char>) -> bool {
    match e {
        HavenError::NotFound(m) => m@ == msg,
        _ => false,
    }
}

/// `e` is `GraphRule` carrying exactly `msg`.
pub open spec fn graph_rule_with(e: HavenError, msg: Seq<char>) -> bool {
    match e {
        HavenError::GraphRule(m) => m@ == msg,
        _ => false,
    }
}

impl HavenError {
    /// The closed-set code for this error (`invalid`, `not_found`, ...).
    pub fn code(&self) -> (r: &'static str)
        ensures
            r@ == error_code_spec(*self),
    {
        match self {
            HavenError::Invalid(_) => "invalid",
            HavenError::NotFound(_) => "not_found",
            HavenError::Conflict(_) => "conflict",
            HavenError::GraphRule(_) => "graph_rule",
            HavenError::Db(_) => "db",
            HavenError::Io(_) => "io",
            HavenError::ContentNotLocal { .. } => "content_not_local",
        }
    }
}

} // verus!
