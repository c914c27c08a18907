//! Offline review of where sounds came from: clocks, hypotheses, candidates, and
//! what an analyst makes of them.
pub mod args;
pub mod arrange;
pub mod candidate_laws;
pub mod canon;
pub mod canon_laws;
pub mod clocks;
pub mod db;
pub mod digest;
pub mod document_laws;
pub mod double;
pub mod figures;
pub mod fingerprint_laws;
pub mod geom;
pub mod ingest;
pub mod intake_laws;
pub mod jobs;
pub mod json;
pub mod listing_laws;
pub mod measurement_laws;
pub mod model;
pub mod order;
pub mod ranking_laws;
pub mod record_laws;
pub mod requests;
pub mod restore;
pub mod rows;
pub mod seeding;
pub mod server;
pub mod shape_laws;
pub mod shown;
pub mod solver;
pub mod solver_laws;
pub mod solving;
pub mod split;
pub mod store;
pub mod store_laws;
pub mod synthetic;
pub mod text;
pub mod textset;
pub mod url_laws;
pub mod wire_laws;
pub mod workbench;

pub use model::{
    BatchInput, Candidate, CandidateResidual, ClockSegment, Curve, EventInput, EvidenceRow, JobView,
    LagInput, LagRow, ObservationInput, ObservationRow, Region, SiteBounds, Station,
};
pub use synthetic::{clock_boundary_case, synthetic_build_minimal, synthetic_three_station_case};
