//! Line-level estimates of how much of a Rust code base is marked unsafe.
//!
//! Nothing here parses Rust. Every line of a source file is put into one of
//! three classes (blank, comment, code) by a handful of patterns, and a small
//! state machine follows the braces of unsafe functions and blocks to count the
//! lines inside them. Records are kept per file or per crate and can be ranked
//! by their share of unsafe lines.
//!
//! The modules, from the leaves up:
//!
//! - [`text`]: physical lines, substring search, brace counts;
//! - [`names`]: the source extension, the crate manifest, the excluded
//!   directories;
//! - [`patterns`]: the seven line rules as one compiled regex set;
//! - [`classifier`]: the per-file state machine over lines;
//! - [`stats`]: statistics records, and a pass of the classifier over a file;
//! - [`cloc`]: collections of records, ranking, the most unsafe records;
//! - [`walk`]: the walk over a directory tree, as a state machine that is
//!   told what the file system holds.
//!
//! Everything is verified with Verus but for what is marked as trusted: the
//! regex engine behind [`patterns`], and `str::lines` and `str::contains`
//! behind [`text`].

pub mod classifier;
pub mod cloc;
pub mod error;
pub mod names;
pub mod patterns;
pub mod stats;
pub mod text;
pub mod walk;

pub use crate::classifier::{LineClassifier, LineFacts, LineKind, LineTally};
pub use crate::cloc::{Cloc, ClocVerbosity};
pub use crate::error::ClocError;
pub use crate::patterns::{LineMatches, PatternSet};
pub use crate::stats::{ClocStats, Ratio, SummaryType};
pub use crate::walk::{DirWalk, Entry, Exclusion, WalkAction, WalkEvent, WalkPhase};
