//! Validation rules: independent, composable visitors, each enforcing one
//! schema-conformance constraint. Rules are chained with
//! [`crate::visitor::RulePair`] and run as one composite pass.

pub mod upload_file;
