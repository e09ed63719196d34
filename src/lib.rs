//! A request-orchestration core: a small JSON transform language, its parser,
//! canonical hashing and memoization of JSON values, and a step evaluator
//! that threads payloads through a linear sequence of backend calls.

pub mod cache;
pub mod catalog;
pub mod config;
pub mod cryptogram;
pub mod evaluator;
pub mod events;
pub mod hash;
pub mod headers;
pub mod json;
pub mod laws;
pub mod parse;
pub mod printer;
pub mod registry;
pub mod table;
pub mod text;
pub mod translate;
