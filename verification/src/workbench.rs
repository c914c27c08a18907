//! The workbench: locating events in batches of recordings, with the review of
//! what the recordings leave open.
pub mod clock;
pub mod db;
pub mod detail;
pub mod document_laws;
pub mod edge_laws;
pub mod edges;
pub mod evidence;
pub mod fingerprint_laws;
pub mod fit_laws;
pub mod fitting;
pub mod hash;
pub mod http;
pub mod ingest;
pub mod jobs;
pub mod laws;
pub mod linalg;
pub mod models;
pub mod picture;
pub mod picture_laws;
pub mod service;
pub mod service_laws;
pub mod region_laws;
pub mod restore;
pub mod snapshot;
pub mod solver;
pub mod synth;
pub mod table_laws;
pub mod units;
