//! Builds the checklist of an integration pull request from the merge commits
//! between two branches, and keeps the check marks of an earlier checklist.

pub mod text;
pub mod model;
pub mod forest;
pub mod resolve;
pub mod render;
pub mod reconcile;
pub mod pipeline;
pub mod remote;
