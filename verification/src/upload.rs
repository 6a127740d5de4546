//! The upload handler's decisions.
//!
//! The handler itself alternates network and disk work with decisions; the
//! decisions live here. An [`UploadSession`] follows one request: each
//! multipart field header, each body chunk, and the end of the stream feed
//! it, and every rejection comes back as an [`UploadResponse`] carrying the
//! exact status code and JSON body to send.

use vstd::prelude::*;
use crate::json::{append_quoted, quoted};
use crate::record::UploadRecord;
use crate::sanitize::{sanitize, sanitize_spec};

verus! {

/// Byte ceiling for one request's payload: 50 MiB.
pub const MAX_FILE_SIZE: u64 = 50 * 1024 * 1024;

/// The operation whose failure produced a server error.
#[derive(Debug)]
pub enum ServerFailure {
    CreateUploadDir,
    CreateFile,
    ReadChunk,
    WriteFile,
    OpenMetadata,
    WriteMetadata,
}

impl ServerFailure {
    /// The error label reported for this failure.
    pub open spec fn label_spec(&self) -> Seq<char> {
        match self {
            ServerFailure::CreateUploadDir => "Failed to create uploads directory"@,
            ServerFailure::CreateFile => "Failed to create file"@,
            ServerFailure::ReadChunk => "Failed to read chunk"@,
            ServerFailure::WriteFile => "Failed to write file"@,
            ServerFailure::OpenMetadata => "Failed to open uploads.json"@,
            ServerFailure::WriteMetadata => "Failed to write to uploads.json"@,
        }
    }

    pub fn label(&self) -> (r: &'static str)
        ensures
            r@ == self.label_spec(),
    {
        match self {
            ServerFailure::CreateUploadDir => "Failed to create uploads directory",
            ServerFailure::CreateFile => "Failed to create file",
            ServerFailure::ReadChunk => "Failed to read chunk",
            ServerFailure::WriteFile => "Failed to write file",
            ServerFailure::OpenMetadata => "Failed to open uploads.json",
            ServerFailure::WriteMetadata => "Failed to write to uploads.json",
        }
    }
}

/// Everything the upload handler can answer.
#[derive(Debug)]
pub enum UploadResponse {
    /// The upload was accepted and recorded.
    Success { filename: String },
    /// A multipart field could not be read.
    FieldError { message: String },
    /// A field arrived without a filename.
    MissingFilename,
    /// Sanitization removed every character of the filename.
    InvalidFilename,
    /// The stream ended without any file part.
    NoFileUploaded,
    /// The cumulative payload passed the byte ceiling.
    FileTooLarge,
    /// Disk or serialization work failed.
    ServerError { failure: ServerFailure, message: String },
}

/// An error body: `{"error":...,"message":...}`.
pub open spec fn error_body_spec(err: Seq<char>, msg: Seq<char>) -> Seq<char> {
    "{\"error\":"@ + quoted(err) + ",\"message\":"@ + quoted(msg) + "}"@
}

fn error_body(err: &str, msg: &str) -> (b: String)
    ensures
        b@ == error_body_spec(err@, msg@),
{
    let mut out = String::new();
    vstd::string::StringExecFns::append(&mut out, "{\"error\":");
    append_quoted(&mut out, err);
    vstd::string::StringExecFns::append(&mut out, ",\"message\":");
    append_quoted(&mut out, msg);
    vstd::string::StringExecFns::append(&mut out, "}");
    proof {
        assert(out@ =~= error_body_spec(err@, msg@));
    }
    out
}

impl UploadResponse {
    /// The HTTP status code this response is sent with.
    pub open spec fn status_spec(&self) -> u16 {
        match self {
            UploadResponse::Success { .. } => 200,
            UploadResponse::FieldError { .. } => 400,
            UploadResponse::MissingFilename => 400,
            UploadResponse::InvalidFilename => 400,
            UploadResponse::NoFileUploaded => 400,
            UploadResponse::FileTooLarge => 413,
            UploadResponse::ServerError { .. } => 500,
        }
    }

    pub fn status_code(&self) -> (s: u16)
        ensures
            s == self.status_spec(),
    {
        match self {
            UploadResponse::Success { .. } => 200,
            UploadResponse::FieldError { .. } => 400,
            UploadResponse::MissingFilename => 400,
            UploadResponse::InvalidFilename => 400,
            UploadResponse::NoFileUploaded => 400,
            UploadResponse::FileTooLarge => 413,
            UploadResponse::ServerError { .. } => 500,
        }
    }

    /// The exact JSON body this response is sent with.
    pub open spec fn body_spec(&self) -> Seq<char> {
        match self {
            UploadResponse::Success { filename } => "{\"status\":\"success\",\"filename\":"@
                + quoted(filename@) + "}"@,
            UploadResponse::FieldError { message } => error_body_spec(
                "Malformed multipart field"@,
                message@,
            ),
            UploadResponse::MissingFilename => error_body_spec(
                "Missing filename"@,
                "No filename provided in upload"@,
            ),
            UploadResponse::InvalidFilename => error_body_spec(
                "Invalid filename"@,
                "Filename contains only invalid characters"@,
            ),
            UploadResponse::NoFileUploaded => error_body_spec(
                "No file uploaded"@,
                "No file was provided in the request"@,
            ),
            UploadResponse::FileTooLarge => error_body_spec(
                "File too large"@,
                "File size exceeds 50MB limit"@,
            ),
            UploadResponse::ServerError { failure, message } => error_body_spec(
                failure.label_spec(),
                message@,
            ),
        }
    }

    pub fn body(&self) -> (b: String)
        ensures
            b@ == self.body_spec(),
    {
        match self {
            UploadResponse::Success { filename } => {
                let mut out = String::new();
                vstd::string::StringExecFns::append(
                    &mut out,
                    "{\"status\":\"success\",\"filename\":",
                );
                append_quoted(&mut out, filename.as_str());
                vstd::string::StringExecFns::append(&mut out, "}");
                proof {
                    assert(out@ =~= self.body_spec());
                }
                out
            },
            UploadResponse::FieldError { message } => error_body(
                "Malformed multipart field",
                message.as_str(),
            ),
            UploadResponse::MissingFilename => error_body(
                "Missing filename",
                "No filename provided in upload",
            ),
            UploadResponse::InvalidFilename => error_body(
                "Invalid filename",
                "Filename contains only invalid characters",
            ),
            UploadResponse::NoFileUploaded => error_body(
                "No file uploaded",
                "No file was provided in the request",
            ),
            UploadResponse::FileTooLarge => error_body(
                "File too large",
                "File size exceeds 50MB limit",
            ),
            UploadResponse::ServerError { failure, message } => error_body(
                failure.label(),
                message.as_str(),
            ),
        }
    }
}

/// Relies on `chrono::Utc::now` and `chrono::DateTime::to_rfc3339`: the
/// current UTC time in RFC 3339 form. Nothing is promised of the value: it
/// depends on the clock.
#[verifier::external_body]
fn now_rfc3339() -> String {
    chrono::Utc::now().to_rfc3339()
}

/// Per-request state of the upload handler: the sanitized name of the file
/// part seen so far, and the running byte total of everything streamed.
pub struct UploadSession {
    filename: Option<String>,
    total: u64,
}

impl UploadSession {
    /// The running total never passes the ceiling.
    pub closed spec fn wf(&self) -> bool {
        self.total <= MAX_FILE_SIZE
    }

    /// The sanitized filename recorded so far, if any.
    pub closed spec fn filename_spec(&self) -> Option<Seq<char>> {
        match self.filename {
            Some(name) => Some(name@),
            None => None,
        }
    }

    /// The cumulative byte count streamed so far.
    pub closed spec fn total_spec(&self) -> u64 {
        self.total
    }

    /// A fresh session: nothing seen, nothing counted.
    pub fn new() -> (s: UploadSession)
        ensures
            s.wf(),
            s.filename_spec() is None,
            s.total_spec() == 0,
    {
        UploadSession { filename: None, total: 0 }
    }

    /// Decision for one multipart field header. A field without a filename
    /// is rejected outright; one whose name sanitizes to nothing is
    /// rejected as invalid; otherwise the sanitized name is recorded and
    /// handed back for the caller to open the target file.
    pub fn on_field(&mut self, raw_filename: Option<&str>) -> (r: Result<
        String,
        UploadResponse,
    >)
        requires
            old(self).wf(),
        ensures
            final(self).wf(),
            final(self).total_spec() == old(self).total_spec(),
            match raw_filename {
                None => r == Err::<String, UploadResponse>(UploadResponse::MissingFilename)
                    && final(self).filename_spec() == old(self).filename_spec(),
                Some(raw) => {
                    if sanitize_spec(raw@).len() == 0 {
                        r == Err::<String, UploadResponse>(UploadResponse::InvalidFilename)
                            && final(self).filename_spec() == old(self).filename_spec()
                    } else {
                        (r matches Ok(name) && name@ == sanitize_spec(raw@))
                            && final(self).filename_spec() == Some(sanitize_spec(raw@))
                    }
                },
            },
    {
        match raw_filename {
            None => Err(UploadResponse::MissingFilename),
            Some(raw) => match sanitize(raw) {
                None => Err(UploadResponse::InvalidFilename),
                Some(name) => {
                    self.filename = Some(name.clone());
                    Ok(name)
                },
            },
        }
    }

    /// Accounts one chunk of the streamed body. The chunk is accepted
    /// exactly when it keeps the cumulative total within the ceiling: a
    /// payload of exactly the limit passes, one byte over is rejected.
    pub fn on_chunk(&mut self, chunk_len: usize) -> (r: Result<(), UploadResponse>)
        requires
            old(self).wf(),
        ensures
            final(self).wf(),
            final(self).filename_spec() == old(self).filename_spec(),
            if old(self).total_spec() + chunk_len <= MAX_FILE_SIZE {
                r is Ok && final(self).total_spec() == old(self).total_spec() + chunk_len
            } else {
                r == Err::<(), UploadResponse>(UploadResponse::FileTooLarge)
                    && final(self).total_spec() == old(self).total_spec()
            },
    {
        if chunk_len as u64 <= MAX_FILE_SIZE - self.total {
            self.total = self.total + chunk_len as u64;
            Ok(())
        } else {
            Err(UploadResponse::FileTooLarge)
        }
    }

    /// End of the multipart stream. A request that never carried a file
    /// part is rejected; otherwise the upload record is built from the
    /// recorded name, the placeholder uploader, and the clock's timestamp.
    pub fn finish(self) -> (r: Result<UploadRecord, UploadResponse>)
        ensures
            match self.filename_spec() {
                None => r == Err::<UploadRecord, UploadResponse>(UploadResponse::NoFileUploaded),
                Some(name) => r matches Ok(rec) && rec@.filename == name && rec@.user
                    == "anonymous"@,
            },
    {
        match self.filename {
            None => Err(UploadResponse::NoFileUploaded),
            Some(name) => {
                let ts = now_rfc3339();
                Ok(UploadRecord::new(name, ts))
            },
        }
    }
}

} // verus!
