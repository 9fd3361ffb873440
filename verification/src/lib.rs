//! A verified record counter for delimited-text (CSV) input.
//!
//! Records are separated by line feeds; fields are separated by commas and
//! may be quoted with double quotes. Inside a quoted field, separators and
//! line breaks are ordinary content and a doubled quote stands for a literal
//! quote. The first record is ordinary data: no header is skipped. A blank
//! line counts as one empty record. Input that ends inside a quoted field is
//! rejected as malformed, and no count is produced for it.
//!
//! Counting is streaming: bytes are fed in chunks through [`counting::RecordCounter`]
//! and the count is read off at the end, so the whole input never has to sit
//! in memory at once.

pub mod cli;
pub mod counting;
pub mod digits;
