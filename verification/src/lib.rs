//! Stutter detection and root-cause analysis for a desktop monitor.
//!
//! The crate holds the rules of the monitor: when a stutter starts and ends,
//! which causes it had, how events are aggregated, and how the service and the
//! command line behave. Readings are held by their rank ([`level::Level`]), so
//! every comparison of the rules is exact; averages, ratios and the rendering
//! of numbers are supplied by the caller together with each sample.

pub mod analytics;
pub mod analytics_laws;
pub mod args;
pub mod binary64;
pub mod cause;
pub mod cause_laws;
pub mod cli;
pub mod collector;
pub mod command_laws;
pub mod config;
pub mod counting_laws;
pub mod detector;
pub mod detector_laws;
pub mod duration_laws;
pub mod elevate;
pub mod event_laws;
pub mod event_log;
pub mod event_rows;
pub mod evidence_laws;
pub mod grouping;
pub mod install;
pub mod json;
pub mod labels;
pub mod level;
pub mod maintenance;
pub mod monitor;
pub mod order;
pub mod process_laws;
pub mod query;
pub mod query_laws;
pub mod resource;
pub mod root_cause;
pub mod root_cause_laws;
pub mod service;
pub mod service_cli;
pub mod service_cli_laws;
pub mod service_laws;
pub mod service_status;
pub mod signal_laws;
pub mod software_laws;
pub mod software_root_cause;
pub mod sql;
pub mod stack_sampler;
pub mod store;
pub mod store_laws;
pub mod text;
pub mod text_order;
pub mod time_laws;
pub mod time_range;
pub mod timeparse;
pub mod timestamps;
pub mod types;
pub mod upgrade;
