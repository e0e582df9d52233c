//! Bulk grading: the decisions behind a run that grades every submission
//! directory of a root, and merges the results with a roster of students.

pub mod aggregate;
pub mod record;
pub mod scan;
pub mod sidecar;
pub mod template;
pub mod window;
