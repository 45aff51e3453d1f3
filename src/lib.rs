//! Poll-based change detection for a fixed set of filesystem paths.
//!
//! The library classifies what a stat call reported about a path into a
//! [`FileState`], keeps the last observed state of every watched path in a
//! [`WatchState`], decides on each polling pass which paths changed, and
//! expands a command template with the list of changed paths.

pub mod cli;
pub mod command;
pub mod detect;
pub mod snapshot;

pub use snapshot::{FileState, StatError, StatInfo, EPOCH_NANOS};
pub use detect::{dedup_targets, process_changed_files, WatchState};
pub use command::{build_cmd, expand_placeholders, format_files_list};
pub use cli::{parse_args, ArgError, Config};
