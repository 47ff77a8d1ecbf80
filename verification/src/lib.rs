//! Verified core of a small media upload board.
//!
//! Uploads are turned into markup fragments, parked on a shared LIFO
//! pending queue, and spliced one at a time into a single persistent
//! HTML document whose fixed footer must survive every rewrite. This
//! crate holds that pipeline's logic; the HTTP server and the file
//! system around it live outside.

pub mod document;
pub mod fragment;
pub mod queue;
pub mod worker;
