//! Threat-intelligence indicator lifecycle: classification and
//! canonicalisation of indicators of compromise, an indicator store with
//! merge-on-conflict semantics, and the coordination of enrichment providers
//! and feed collectors.

pub mod address;
pub mod api;
pub mod canonical;
pub mod collectors;
pub mod enrichment;
pub mod json;
pub mod laws;
pub mod models;
pub mod order;
pub mod storage;
pub mod text;
