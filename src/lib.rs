//! Reads the numeric `#define` constants of a C header in the dialect of
//! Linux's `input-event-codes.h` and groups them into named categories.
//!
//! - [`parse`] turns header text into an ordered list of [`parse::Define`]
//!   records, or reports where and why it is malformed.
//! - [`category`] groups defines by the prefix of their names, the part before
//!   the first `_`, into [`category::Category`] values of sanitized constants.
//! - [`renames`] holds the display names and documentation of the known
//!   categories.
//!
//! Each function's contract states its result over the models in
//! [`grammar`], [`parse`] and [`category`].
pub mod category;
pub mod grammar;
pub mod parse;
pub mod renames;
pub mod text;
