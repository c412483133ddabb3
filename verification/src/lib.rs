//! A small library that persists person records (students, sellers,
//! gardeners) in a bespoke line-oriented text format.
//!
//! The record codec is fully specified: serialization of a record to text,
//! parsing a stream of such records back, and the laws relating the two
//! (round-trip fidelity, order preservation) are stated and proved.
//! File input and output are left to the surrounding application, which
//! hands the library whole file contents as text.

pub mod grammar;
pub mod laws;
pub mod models;
pub mod queries;
pub mod repository;
pub mod text;
