//! Conversion of streams of JSON records into CSV rows.
//!
//! A run reads JSON documents, makes each into records by unwinding it on a
//! key and flattening what is nested, settles the columns of the output, and
//! writes every record as one CSV row under those columns.
//!
//! - [`json`] holds the values and their mathematical model, [`interop`] the
//!   passage to and from `serde_json`.
//! - [`unwind`], [`flatten`], [`headers`] and [`project`] are the stages that
//!   work on one record.
//! - [`table`] draws up the rows of a run and [`writer`] writes them.
//! - [`convert`] converts a whole input at once; [`stream`] takes the
//!   documents one at a time; [`agreement`] shows that both write the same.

pub mod error;
pub mod text;
pub mod json;
pub mod interop;
pub mod unwind;
pub mod flatten;
pub mod headers;
pub mod project;
pub mod options;
pub mod table;
pub mod writer;
pub mod convert;
pub mod stream;
pub mod agreement;
