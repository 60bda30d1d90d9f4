//! Usage metrics for Kiro CLI sessions: the parsed session model, the
//! aggregation of sessions into a report, and the text layout of the
//! dashboard that presents it.

pub mod aggregate;
mod escapes;
pub mod grouping;
pub mod laws;
pub mod model;
pub mod output;
pub mod ranking;
pub mod render;
pub mod style;
pub mod summary;
pub mod text;
pub mod timestamp;
