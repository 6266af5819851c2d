//! Request-to-execution pipeline for a GraphQL-style query language over
//! HTTP, together with the static validation framework that checks a parsed
//! query document against a schema before execution.
//!
//! The crate is organised around the flow of one request: a raw HTTP
//! request is decoded into an [`extract::QueryRequest`] by the extractor,
//! wrapped in a [`pipeline::QueryBuilder`], validated against the schema's
//! [`registry::Registry`] by running every rule through the visitor
//! framework over an [`ast::Document`], and finally turned into an HTTP
//! response by the response adapter. The host layer supplies the HTTP
//! server, the operation-text parser and the execution engine; everything
//! that decides or computes here is verified.

pub mod ast;
pub mod context;
pub mod extract;
pub mod json;
pub mod pipeline;
pub mod registry;
pub mod response;
pub mod rules;
pub mod visitor;
