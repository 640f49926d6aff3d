//! A local task runner: named command shortcuts stored in a project manifest,
//! with `{{...}}` variable interpolation, fail-fast command sequences, and
//! deterministic first-writer-wins merging of included manifests.
//!
//! This crate holds the resolution and execution engine: everything that
//! decides which commands run and with which text. Reading files, spawning
//! processes and sending notifications are left to the surrounding binary,
//! which feeds plain values in and carries the decisions out.

pub mod cli;
pub mod errors;
pub mod includes;
pub mod invocation;
pub mod listing;
pub mod manifest;
pub mod probe;
pub mod runner;
pub mod substitute;
pub mod strutil;

pub use cli::Cli;
pub use cli::Commands;
pub use cli::TopAction;
pub use errors::RobinError;
pub use includes::IncludeResolver;
pub use invocation::split_command_and_args;
pub use listing::render_command_list;
pub use manifest::RawEntry;
pub use manifest::RawItem;
pub use manifest::RawScript;
pub use manifest::RobinConfig;
pub use manifest::ScriptBody;
pub use manifest::ScriptEntry;
pub use manifest::body_from_raw;
pub use manifest::config_from_raw;
pub use probe::ToolSpec;
pub use probe::UpdateRule;
pub use probe::check_script_contains;
pub use probe::detect_required_tools;
pub use probe::plan_updates;
pub use probe::summarize_checks;
pub use probe::summarize_updates;
pub use runner::SequenceRun;
pub use runner::plan_run;
pub use substitute::replace_variables;
pub use substitute::replace_variables_in_string;
