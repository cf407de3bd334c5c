//! A small `make`.
//!
//! A makefile is parsed line by line into variables and rules
//! (`makefile`, `vars`, `rule_map`); variable references are expanded on the
//! way (`expand`). An execution then brings targets up to date: it decides,
//! step by step, what to ask of the outside world (`step`, `exec`), and the
//! caller stats the files and runs the recipe lines. `trace` and `dry_run`
//! hold what is proved of whole runs.

pub mod cli;
pub mod context;
pub mod dry_run;
pub mod error;
pub mod exec;
pub mod expand;
pub mod logger;
pub mod makefile;
pub mod opts;
pub mod rule_map;
pub mod step;
pub mod text;
pub mod trace;
pub mod vars;
