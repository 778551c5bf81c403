//! Size-delta reports of compiled Arduino sketches, and the markdown comment
//! that summarizes them.
//!
//! A report lists, per board, the sketches that were compiled and how much
//! flash and RAM each of them takes compared with an earlier build. The
//! library checks that a report is complete, folds the per-sketch figures into
//! per-board ranges, and lays the result out as a markdown comment that never
//! outgrows the length a comment may have.
pub mod error;
pub mod reports;
pub mod summarize;
pub mod text;
pub mod vectors;

pub use error::{CommentAssemblyError, JsonError};
pub use reports::structs as report_structs;
pub use reports::{parse_artifacts, parse_json};
pub use summarize::{generate_comment, COMMENT_MARKER};
