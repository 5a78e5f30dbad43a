//! Error values returned to the host: structured code + message pairs for
//! API operations, and storage-level failures.
use vstd::prelude::*;
use vstd::string::StringExecFns;

verus! {

/// Error payload returned to the host shell: a stable string code, a
/// human-readable message, and optional paths of artifacts involved.
#[derive(Debug)]
pub struct ApiError {
    pub code: String,
    pub message: String,
    pub export_pdf_path: Option<String>,
    pub version_pdf_path: Option<String>,
}

/// Storage-level failure: an I/O failure annotated with the OS error text,
/// a resolution failure, or an unexpected storage schema version.
#[derive(Debug)]
pub enum StorageError {
    Io(String),
    Resolve(String),
    InvalidSchema(u32),
}

/// Builds an error payload with the given code and message and no paths.
pub fn api_error(code: &str, message: &str) -> (r: ApiError)
    ensures
        r.code@ == code@,
        r.message@ == message@,
        r.export_pdf_path is None,
        r.version_pdf_path is None,
{
    ApiError {
        code: code.to_owned(),
        message: message.to_owned(),
        export_pdf_path: None,
        version_pdf_path: None,
    }
}

/// Builds an error payload with the given code and an already-built
/// message and no paths.
pub fn api_error_msg(code: &str, message: String) -> (r: ApiError)
    ensures
        r.code@ == code@,
        r.message == message,
        r.export_pdf_path is None,
        r.version_pdf_path is None,
{
    ApiError {
        code: code.to_owned(),
        message,
        export_pdf_path: None,
        version_pdf_path: None,
    }
}

/// Builds an error payload whose message is annotated with the underlying
/// OS error text, as in "message (error text)".
pub fn map_io_error(err_text: &str, code: &str, message: &str) -> (r: ApiError)
    ensures
        r.code@ == code@,
        r.message@ == message@ + " ("@ + err_text@ + ")"@,
        r.export_pdf_path is None,
        r.version_pdf_path is None,
{
    let mut m = message.to_owned();
    m.append(" (");
    m.append(err_text);
    m.append(")");
    ApiError { code: code.to_owned(), message: m, export_pdf_path: None, version_pdf_path: None }
}

} // verus!
