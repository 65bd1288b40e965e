//! Query resolution for a smart directory-jump command.
//!
//! A free-form query (`...`, `proj*`, `Proj*/ncd/src`, `~`, `-`) is resolved
//! to the directories that a shell should change into:
//!
//! * [`classify`] tells what kind of request a query is;
//! * [`ellipsis`] turns a run of dots into a number of levels to go up;
//! * [`pattern`] makes a matcher of directory names from one fragment;
//! * [`roots`] lists the directories that a search walks;
//! * [`search`] searches those roots for one fragment, phase by phase;
//! * [`walker`] follows a query fragment by fragment, one generation of
//!   candidates after another;
//! * [`resolve`] is the entry point, [`evaluate_jump`].
//!
//! The resolver never reads the disk. It works on a
//! [`index::DirectoryIndex`], a record of what the disk showed of the paths
//! that a search consults. Where the index holds no answer for a path the
//! resolution stops with [`NcdError::Unlisted`]; the caller probes that
//! path, records what it found and resolves again.
//!
//! Every function is verified against a mathematical model of paths,
//! patterns and the index, and [`laws`] holds what is proved of them all.

pub mod classify;
pub mod command_line;
pub mod config;
pub mod ellipsis;
pub mod environment;
pub mod error;
pub mod index;
pub mod laws;
pub mod output;
pub mod path;
pub mod pattern;
pub mod resolve;
pub mod roots;
pub mod search;
pub mod text;
pub mod walker;

pub use config::{CdMode, DirMatch, SearchConfiguration};
pub use environment::Environment;
pub use error::NcdError;
pub use index::{DirRecord, DirectoryIndex, Probe};
pub use path::{Anchor, CandidatePath, PathStyle};
pub use resolve::evaluate_jump;
pub use search::search_cdpath;
