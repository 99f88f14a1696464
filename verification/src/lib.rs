//! Aggregates per-directory dependency declarations into one consolidated
//! build manifest, detects version conflicts between the declarations, and
//! plans the two-phase (bootstrap vs. incremental) build lifecycle around an
//! external build tool.

pub mod conflict;
pub mod orchestrate;
pub mod render;
pub mod deps;
pub mod manifest;
pub mod text;
