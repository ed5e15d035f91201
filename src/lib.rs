//! Evaluation of time-series query results into passive check reports:
//! range thresholds, severities, status text, performance records,
//! report payloads and the per-mapping interval scheduler.

pub mod check;
pub mod config;
pub mod context;
pub mod decimal;
pub mod labels;
pub mod model;
pub mod output;
pub mod parse;
pub mod perfdata;
pub mod range;
pub mod render;
pub mod report;
pub mod roundtrip;
pub mod sample;
pub mod schedule;
pub mod severity;
pub mod text;
pub mod timestamp;
