//! Bounded-memory, random-access reading of logical rows from a columnar
//! table whose row groups only support forward sequential decoding.
//!
//! The crate translates a global row index into a materialized row without
//! re-scanning the whole table on every access: a fixed-size, aligned window
//! of materialized rows is kept and refilled wholesale whenever the requested
//! index leaves its bounds.  Around that core stand a row locator over the
//! cumulative row-group counts, a row materializer that renders typed field
//! values as display strings, and the cursor / export-log encodings.

pub mod cache;
pub mod cursor;
pub mod dataset;
pub mod error;
pub mod export;
pub mod numeral;
pub mod row;
