//! Bodies of the newsletter's emails and pages, and the logic around sending
//! one email through the Resend HTTP API.
//!
//! - `mail`: HTML escaping, HTML-to-text conversion, and the email and page
//!   bodies, each stated exactly over its template.
//! - `resend`: the JSON body of a send request and the meaning of a reply.
//! - `headers`: email headers as a map, listed in the order of their names.
//! - `json`: how a string is written as a JSON string, and read back.
//! - `templates`: the fixed text of the emails and pages.
//! - `text`, `words`: character-level building blocks (substring
//!   replacement, whitespace collapsing).
pub mod headers;
pub mod json;
pub mod mail;
pub mod resend;
pub mod templates;
pub mod text;
pub mod words;
