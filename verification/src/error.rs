//! The library's error taxonomy. Every failing operation reports one of
//! these; rendering to the user is the caller's concern, through
//! [`JotError::message`].

use vstd::prelude::*;
use vstd::string::*;

verus! {

/// What can go wrong: one variant per command class, plus wrapped
/// filesystem and format failures carried as text.
#[derive(Debug)]
pub enum JotError {
    InitError(String),
    AddError(String),
    RemoveError(String),
    EditError(String),
    SearchError(String),
    ExportError(String),
    BackupError(String),
    CommandError(String),
    IoError(String),
    SerdeError(String),
    TomlParseError(String),
    TomlSerializeError(String),
    Other(String),
}

/// The one-line rendering of an error: a class prefix and the detail.
pub open spec fn spec_error_message(e: &JotError) -> Seq<char> {
    match e {
        JotError::InitError(s) => "Failed to initialize jot: "@ + s@,
        JotError::AddError(s) => "Failed to add entry: "@ + s@,
        JotError::RemoveError(s) => "Failed to remove entry: "@ + s@,
        JotError::EditError(s) => "Failed to edit entry: "@ + s@,
        JotError::SearchError(s) => "Search error: "@ + s@,
        JotError::ExportError(s) => "Export error: "@ + s@,
        JotError::BackupError(s) => "Backup error: "@ + s@,
        JotError::CommandError(s) => "Failed to execute command: "@ + s@,
        JotError::IoError(s) => "Failed to save journal: "@ + s@,
        JotError::SerdeError(s) => "Serde error: "@ + s@,
        JotError::TomlParseError(s) => "Failed to parse TOML: "@ + s@,
        JotError::TomlSerializeError(s) => "Failed to serialize TOML: "@ + s@,
        JotError::Other(s) => s@,
    }
}

impl JotError {
    /// The one-line error summary.
    pub fn message(&self) -> (r: String)
        ensures
            r@ == spec_error_message(self),
    {
        match self {
            JotError::InitError(s) => prefixed("Failed to initialize jot: ", s),
            JotError::AddError(s) => prefixed("Failed to add entry: ", s),
            JotError::RemoveError(s) => prefixed("Failed to remove entry: ", s),
            JotError::EditError(s) => prefixed("Failed to edit entry: ", s),
            JotError::SearchError(s) => prefixed("Search error: ", s),
            JotError::ExportError(s) => prefixed("Export error: ", s),
            JotError::BackupError(s) => prefixed("Backup error: ", s),
            JotError::CommandError(s) => prefixed("Failed to execute command: ", s),
            JotError::IoError(s) => prefixed("Failed to save journal: ", s),
            JotError::SerdeError(s) => prefixed("Serde error: ", s),
            JotError::TomlParseError(s) => prefixed("Failed to parse TOML: ", s),
            JotError::TomlSerializeError(s) => prefixed("Failed to serialize TOML: ", s),
            JotError::Other(s) => s.clone(),
        }
    }
}

fn prefixed(prefix: &str, detail: &String) -> (r: String)
    ensures
        r@ == prefix@ + detail@,
{
    let mut r = String::from_str(prefix);
    r.append(detail.as_str());
    r
}

/// The usual result shape of the library's operations.
pub type JotResult<T> = Result<T, JotError>;

} // verus!
