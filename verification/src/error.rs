use std::io;
use std::path::PathBuf;
use vstd::prelude::*;

verus! {

#[verifier::external_type_specification]
#[verifier::external_body]
pub struct ExPathBuf(PathBuf);

#[verifier::external_type_specification]
#[verifier::external_body]
pub struct ExIoError(io::Error);

/// Calls `Path::display` and `to_string`. Nothing is claimed of the text.
#[verifier::external_body]
fn path_text(path: &PathBuf) -> String {
    path.display().to_string()
}

/// Calls `io::Error`'s `to_string`. The text comes from the operating
/// system, so nothing is claimed of it.
#[verifier::external_body]
fn io_error_text(error: &io::Error) -> String {
    error.to_string()
}

/// The errors of a cycle.
#[derive(Debug)]
pub enum AppError {
    Io { path: PathBuf, source: io::Error },
    Http(String),
    InvalidBaseUrl(String),
    Serialization(String),
}

impl AppError {
    /// An I/O error on `path`.
    pub fn io(path: PathBuf, source: io::Error) -> (r: AppError)
        ensures
            r matches AppError::Io { path: p, source: s } && p == path && s == source,
    {
        AppError::Io { path, source }
    }

    /// The error's message, as the program prints it.
    pub fn message(&self) -> (r: String)
        ensures
            self matches AppError::Http(s) ==> r@ == "HTTP error: "@ + s@,
            self matches AppError::InvalidBaseUrl(s) ==> r@ == "invalid base URL: "@ + s@,
            self matches AppError::Serialization(s) ==> r@ == "serialization error: "@ + s@,
            self is Io ==> r@.len() >= "I/O error for "@.len() && r@.take(
                "I/O error for "@.len() as int,
            ) == "I/O error for "@,
    {
        match self {
            AppError::Io { path, source } => {
                let mut r = String::from_str("I/O error for ");
                let p = path_text(path);
                r.append(p.as_str());
                r.append(": ");
                let e = io_error_text(source);
                r.append(e.as_str());
                assert(r@.take("I/O error for "@.len() as int) =~= "I/O error for "@);
                r
            },
            AppError::Http(s) => String::from_str("HTTP error: ").concat(s.as_str()),
            AppError::InvalidBaseUrl(s) => String::from_str("invalid base URL: ").concat(s.as_str()),
            AppError::Serialization(s) => String::from_str("serialization error: ").concat(
                s.as_str(),
            ),
        }
    }
}

} // verus!
