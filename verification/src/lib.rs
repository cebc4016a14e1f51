//! Benchmark observation for tuning contests.
use vstd::prelude::*;

pub mod agent_context;
pub mod alp;
pub mod alp_laws;
pub mod benchmark;
pub mod bottleneck;
pub mod brief;
pub mod brief_laws;
pub mod bytes;
pub mod cgroup;
pub mod changes;
pub mod cleanup;
pub mod cli;
pub mod clock;
pub mod codex_context;
pub mod collector;
pub mod compression;
pub mod config;
pub mod coverage;
pub mod diagnosis_laws;
pub mod diff;
pub mod diff_laws;
pub mod digest;
pub mod discovery_capture;
pub mod doctor;
pub mod enrichment;
pub mod git_snapshot;
pub mod host_laws;
pub mod html;
pub mod init;
pub mod inventory;
pub mod join;
pub mod json;
pub mod labels;
pub mod lock;
pub mod metric_semantics;
pub mod model;
pub mod moment;
pub mod node_disk;
pub mod number;
pub mod numeral;
pub mod order;
pub mod order_laws;
pub mod paths;
pub mod pattern;
pub mod perf;
pub mod phase;
pub mod premises;
pub mod project_tools;
pub mod protocol;
pub mod query;
pub mod query_laws;
pub mod record_laws;
pub mod report;
pub mod report_laws;
pub mod rounding;
pub mod run_laws;
pub mod runner;
pub mod sample_laws;
pub mod sampled;
pub mod samples;
pub mod series;
pub mod series_laws;
pub mod shape_laws;
pub mod shell;
pub mod slow_log;
pub mod slp;
pub mod sql;
pub mod sql_shape;
pub mod storage;
pub mod sysstat;
pub mod text;
pub mod tooling;
pub mod transition;
pub mod transition_laws;
pub mod ui;
pub mod windows;

verus! {

} // verus!
