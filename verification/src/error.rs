//! The ways in which reading reports and writing the comment can fail.
use vstd::prelude::*;

verus! {

/// The error of `serde_json`: why a text could not be read as JSON, or as the
/// data that was asked for. Nothing is stated of what it holds.
#[verifier::external_type_specification]
#[verifier::external_body]
pub struct ExJsonFault(serde_json::Error);

/// The error of `std::io`: why a file or a directory could not be read.
/// Nothing is stated of what it holds.
#[verifier::external_type_specification]
#[verifier::external_body]
pub struct ExIoFault(std::io::Error);

/// Why a file could not be read as a report.
#[derive(Debug)]
pub enum JsonError {
    /// The text of the file is not a report: it is no JSON at all, or it has
    /// the layout of no report that is known.
    Serde(serde_json::Error),
    /// The file could not be read.
    FileReadFail(std::io::Error),
}

/// Why no comment could be written.
#[derive(Debug)]
pub enum CommentAssemblyError {
    /// A directory or an entry of it could not be read.
    Io(std::io::Error),
    /// A file could not be read as a report.
    Json(JsonError),
    /// No report holds what a summary needs, so there is nothing to write.
    NotFound,
}

impl From<serde_json::Error> for JsonError {
    fn from(fault: serde_json::Error) -> (error: JsonError) {
        JsonError::Serde(fault)
    }
}

impl vstd::std_specs::convert::FromSpecImpl<serde_json::Error> for JsonError {
    open spec fn obeys_from_spec() -> bool {
        true
    }

    open spec fn from_spec(fault: serde_json::Error) -> JsonError {
        JsonError::Serde(fault)
    }
}

impl From<std::io::Error> for JsonError {
    fn from(fault: std::io::Error) -> (error: JsonError) {
        JsonError::FileReadFail(fault)
    }
}

impl vstd::std_specs::convert::FromSpecImpl<std::io::Error> for JsonError {
    open spec fn obeys_from_spec() -> bool {
        true
    }

    open spec fn from_spec(fault: std::io::Error) -> JsonError {
        JsonError::FileReadFail(fault)
    }
}

impl From<std::io::Error> for CommentAssemblyError {
    fn from(fault: std::io::Error) -> (error: CommentAssemblyError) {
        CommentAssemblyError::Io(fault)
    }
}

impl vstd::std_specs::convert::FromSpecImpl<std::io::Error> for CommentAssemblyError {
    open spec fn obeys_from_spec() -> bool {
        true
    }

    open spec fn from_spec(fault: std::io::Error) -> CommentAssemblyError {
        CommentAssemblyError::Io(fault)
    }
}

impl From<JsonError> for CommentAssemblyError {
    fn from(fault: JsonError) -> (error: CommentAssemblyError) {
        CommentAssemblyError::Json(fault)
    }
}

impl vstd::std_specs::convert::FromSpecImpl<JsonError> for CommentAssemblyError {
    open spec fn obeys_from_spec() -> bool {
        true
    }

    open spec fn from_spec(fault: JsonError) -> CommentAssemblyError {
        CommentAssemblyError::Json(fault)
    }
}

} // verus!
