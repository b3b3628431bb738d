//! The request and response shapes of the submission interface, and the
//! per-line diagnostic pair.

use vstd::prelude::*;

use crate::line::AssemblyLineParseError;

verus! {

/// A request from a client: source text to assemble.
#[derive(Debug)]
pub enum Request {
    UploadCode(String),
}

/// The answer to an upload: an overall success flag and, on failure, every
/// offending line's diagnostic.
#[derive(Debug)]
pub enum Response {
    UploadCode { success: bool, errors: Option<Vec<CodeError>> },
}

/// One diagnostic: the zero-based index of the offending line and the
/// structured reason it does not classify.
#[derive(Clone, Copy, Debug, PartialEq, Eq, Structural)]
pub struct CodeError {
    pub line: usize,
    pub error: AssemblyLineParseError,
}

} // verus!
