use vstd::prelude::*;
use crate::text::{contains, str_contains};

verus! {

/// The categories of failure that callers can tell apart.
#[derive(PartialEq, Eq, Structural, Clone, Copy, Debug)]
pub enum ErrorKind {
    /// An object was used off the thread that created it.
    Thread,
    /// The backing store failed or was inconsistent.
    Storage,
    /// An input was rejected before anything changed.
    Validation,
    /// A storage or server configuration was malformed.
    Config,
    /// Synchronization with a server failed.
    Sync,
    /// A failure that fits no other category.
    Generic,
}

/// A classified failure with a human-readable message.
#[derive(Debug)]
pub struct Error {
    pub kind: ErrorKind,
    pub message: String,
}

pub fn thread_error(message: &str) -> (r: Error)
    ensures
        r.kind == ErrorKind::Thread,
        r.message@ == message@,
{
    Error { kind: ErrorKind::Thread, message: String::from_str(message) }
}

pub fn storage_error(message: &str) -> (r: Error)
    ensures
        r.kind == ErrorKind::Storage,
        r.message@ == message@,
{
    Error { kind: ErrorKind::Storage, message: String::from_str(message) }
}

pub fn validation_error(message: &str) -> (r: Error)
    ensures
        r.kind == ErrorKind::Validation,
        r.message@ == message@,
{
    Error { kind: ErrorKind::Validation, message: String::from_str(message) }
}

pub fn config_error(message: &str) -> (r: Error)
    ensures
        r.kind == ErrorKind::Config,
        r.message@ == message@,
{
    Error { kind: ErrorKind::Config, message: String::from_str(message) }
}

pub fn sync_error(message: &str) -> (r: Error)
    ensures
        r.kind == ErrorKind::Sync,
        r.message@ == message@,
{
    Error { kind: ErrorKind::Sync, message: String::from_str(message) }
}

pub open spec fn storage_evidence(m: Seq<char>) -> bool {
    contains(m, "No such file"@) || contains(m, "Permission denied"@) || contains(m, "storage"@)
        || contains(m, "database"@)
}

pub open spec fn sync_evidence(m: Seq<char>) -> bool {
    contains(m, "sync"@) || contains(m, "server"@) || contains(m, "network"@) || contains(m, "remote"@)
}

pub open spec fn config_evidence(m: Seq<char>) -> bool {
    contains(m, "config"@) || contains(m, "invalid config"@)
}

pub open spec fn validation_evidence(m: Seq<char>) -> bool {
    contains(m, "invalid"@) || contains(m, "parse"@) || contains(m, "format"@) || contains(m, "validation"@)
}

/// The category of an engine failure, judged from keywords in its message.
/// The keyword groups are tried in a fixed order and the first that matches wins.
pub open spec fn category_of(m: Seq<char>) -> ErrorKind {
    if storage_evidence(m) {
        ErrorKind::Storage
    } else if sync_evidence(m) {
        ErrorKind::Sync
    } else if config_evidence(m) {
        ErrorKind::Config
    } else if validation_evidence(m) {
        ErrorKind::Validation
    } else {
        ErrorKind::Generic
    }
}

/// The text placed before an engine message of the given category.
pub open spec fn category_prefix(k: ErrorKind) -> Seq<char> {
    match k {
        ErrorKind::Storage => "Storage error: "@,
        ErrorKind::Sync => "Synchronization error: "@,
        ErrorKind::Config => "Configuration error: "@,
        ErrorKind::Validation => "Validation error: "@,
        _ => "TaskChampion error: "@,
    }
}

/// Classifies an engine failure message.
pub fn classify(message: &str) -> (r: ErrorKind)
    ensures
        r == category_of(message@),
{
    if str_contains(message, "No such file") || str_contains(message, "Permission denied")
        || str_contains(message, "storage") || str_contains(message, "database") {
        ErrorKind::Storage
    } else if str_contains(message, "sync") || str_contains(message, "server")
        || str_contains(message, "network") || str_contains(message, "remote") {
        ErrorKind::Sync
    } else if str_contains(message, "config") || str_contains(message, "invalid config") {
        ErrorKind::Config
    } else if str_contains(message, "invalid") || str_contains(message, "parse")
        || str_contains(message, "format") || str_contains(message, "validation") {
        ErrorKind::Validation
    } else {
        ErrorKind::Generic
    }
}

/// Turns the message of an engine failure into a classified error whose message
/// names the category before the engine's own words.
pub fn map_taskchampion_error(message: &str) -> (r: Error)
    ensures
        r.kind == category_of(message@),
        r.message@ == category_prefix(r.kind) + message@,
{
    let kind = classify(message);
    let mut text = match kind {
        ErrorKind::Storage => String::from_str("Storage error: "),
        ErrorKind::Sync => String::from_str("Synchronization error: "),
        ErrorKind::Config => String::from_str("Configuration error: "),
        ErrorKind::Validation => String::from_str("Validation error: "),
        _ => String::from_str("TaskChampion error: "),
    };
    text.append(message);
    Error { kind, message: text }
}

} // verus!
