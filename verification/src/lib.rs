//! Core logic of a small file-upload service: filename sanitization, the
//! upload size guard, the in-memory registry of upload records, and the JSON
//! document that persists it.

pub mod json;
pub mod record;
pub mod sanitize;
pub mod text;
pub mod upload;
