//! Removal of request `authorization` headers from HTTP Archive (HAR)
//! documents, keeping every other part of the document as it was.
pub mod json;
pub mod har;
pub mod sanitize;
pub mod pipeline;
pub mod laws;

pub use json::{Json, parse_json, to_pretty_text};
pub use har::{Har, Log, Entry, Request, Header, HarError, parse_har, emit_har};
pub use sanitize::{strip_auth_headers, keep_non_auth};
pub use pipeline::{process_file, sanitize_document, empty_archive, Processed, ParseFailure};
