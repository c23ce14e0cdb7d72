//! Turns a structured source document into a sequence of issue records
//! (title, description, optional key/value metadata), ready for submission
//! to an external issue tracker.
//!
//! Two input modes produce the same [`model::Document`] value: a markdown
//! event stream folded by the [`builder`] state machine, with the events
//! supplied by the [`tokenize`] module, and a key/value table document
//! handled by the [`table`] module. The [`submit`] module holds the
//! decisions around operator confirmation and per-issue submission; the
//! invocations themselves are the caller's business.

pub mod builder;
pub mod model;
pub mod submit;
pub mod table;
pub mod tokenize;
