//! A property-based exploration engine for HTTP APIs: the operation model,
//! the CRUD bucket classifier, the relation finder, the synthesizer, the HTTP
//! translator, the meta-property checks and the decisions of the
//! property-check and shrink loop.
pub mod http;
pub mod text;
pub mod amos;
pub mod relations;
pub mod generation;
pub mod properties;
pub mod synthesize;
pub mod translation;
pub mod explore;
pub mod buckets;
pub mod open_api;
pub mod ingest;
pub mod coverage;
