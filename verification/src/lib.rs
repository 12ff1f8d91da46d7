//! Reconciles two sets of CI variable identifiers: the names declared in a
//! remote project's variable store and the `$NAME` references found in a local
//! pipeline-definition file. The library decodes the remote response, extracts
//! the local references, and reports which references are undeclared remotely.

pub mod extract;
pub mod reconcile;
pub mod records;
pub mod text;
pub mod web;
