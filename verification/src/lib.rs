//! Reconstructs a per-group weekly timetable from the cell texts of a
//! hand-authored HTML table, overlays the regular schedule where a cell only
//! refers to it, and fingerprints the outcome for change detection.

pub mod assemble;
pub mod compare;
pub mod date;
pub mod default;
pub mod digest;
pub mod env;
pub mod error;
pub mod normalize;
pub mod parser;
pub mod reconcile;
pub mod row;
pub mod snapshot;
pub mod table;
pub mod text;
pub mod timetable;
pub mod utils;

pub use compare::distinct;
pub use date::{Date, Weekday};
pub use default::{default_for, warmup_defaults, DefaultDay, DefaultGroup, DefaultLesson};
pub use digest::Uid;
pub use error::ParserError;
pub use parser::{parse, parse_snapshot, snapshot_from_page};
pub use snapshot::{Fetch, FetchUrl, Snapshot, TinySnapshot};
pub use table::Table;
pub use timetable::{Group, Lesson, Num};
