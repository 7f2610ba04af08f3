//! The logic of a benchmark of nearest-neighbour engines: what is run, how the
//! answers of an engine are scored, what is measured while an index is built,
//! and how all of it is written out.

pub mod arroy_bench;
pub mod hannoy_bench;
pub mod load;
pub mod metrics;
pub mod number;
pub mod plan;
pub mod queries;
pub mod recall;
pub mod report;
pub mod scenarios;
pub mod search;
pub mod single;
pub mod size;
pub mod text;
pub mod time;

pub use metrics::IndexingMetrics;
pub use queries::RNG_SEED;
pub use recall::Recall;
