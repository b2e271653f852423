//! The library's failure taxonomy. File and lookup problems surface to
//! clients, model-endpoint problems surface as bad-gateway failures, and
//! persistence problems as internal failures; failures inside a background
//! analysis task are recorded on the resume record instead.

use vstd::prelude::*;
use vstd::string::StringExecFns;

verus! {

/// Everything that can go wrong in the pipeline.
#[derive(Debug)]
pub enum AppError {
    /// Bad or missing upload content, or an unreadable stored file.
    FileError(String),
    /// Transport failure or non-success HTTP status from the model endpoint.
    UpstreamError(String),
    /// The model endpoint's response envelope could not be decoded.
    ProtocolError(String),
    /// Model output that does not match the expected analysis schema;
    /// carries the offending text.
    ParseError(String),
    /// A record lookup or targeted update missed.
    NotFoundError(String),
    /// A persistence failure.
    StorageError(String),
}

impl AppError {
    /// The HTTP status class a synchronous endpoint reports for this error:
    /// client errors for file and lookup problems, bad gateway for model
    /// endpoint problems, internal error for persistence problems.
    pub fn status_code(&self) -> (r: u16)
        ensures
            r == match self {
                AppError::FileError(_) => 400u16,
                AppError::NotFoundError(_) => 400u16,
                AppError::UpstreamError(_) => 502u16,
                AppError::ProtocolError(_) => 502u16,
                AppError::ParseError(_) => 502u16,
                AppError::StorageError(_) => 500u16,
            },
    {
        match self {
            AppError::FileError(_) => 400,
            AppError::NotFoundError(_) => 400,
            AppError::UpstreamError(_) => 502,
            AppError::ProtocolError(_) => 502,
            AppError::ParseError(_) => 502,
            AppError::StorageError(_) => 500,
        }
    }

    /// The display text of this error: a fixed prefix naming the kind,
    /// followed by the detail message.
    pub open spec fn display_view(&self) -> Seq<char> {
        match self {
            AppError::FileError(m) => "File processing error: "@ + m@,
            AppError::UpstreamError(m) => "LLM API error: "@ + m@,
            AppError::ProtocolError(m) => "LLM protocol error: "@ + m@,
            AppError::ParseError(m) => "Analysis parse error: "@ + m@,
            AppError::NotFoundError(m) => "Not found: "@ + m@,
            AppError::StorageError(m) => "Storage error: "@ + m@,
        }
    }

    /// Renders the error for humans, e.g. for a record's `error_message`.
    pub fn display_string(&self) -> (r: String)
        ensures
            r@ == self.display_view(),
    {
        match self {
            AppError::FileError(m) => {
                let mut s = String::from_str("File processing error: ");
                s.append(m.as_str());
                s
            }
            AppError::UpstreamError(m) => {
                let mut s = String::from_str("LLM API error: ");
                s.append(m.as_str());
                s
            }
            AppError::ProtocolError(m) => {
                let mut s = String::from_str("LLM protocol error: ");
                s.append(m.as_str());
                s
            }
            AppError::ParseError(m) => {
                let mut s = String::from_str("Analysis parse error: ");
                s.append(m.as_str());
                s
            }
            AppError::NotFoundError(m) => {
                let mut s = String::from_str("Not found: ");
                s.append(m.as_str());
                s
            }
            AppError::StorageError(m) => {
                let mut s = String::from_str("Storage error: ");
                s.append(m.as_str());
                s
            }
        }
    }
}

} // verus!
