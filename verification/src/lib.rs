//! Decision logic of the path-finder front end: screen navigation, the
//! simulation setup menu, the planner configuration rewrite, file listing,
//! and the 2D simulation state driven by mouse clicks and bridge messages.

pub mod text;
pub mod yaml;
pub mod files;
pub mod states;
pub mod setup;
pub mod simulation;
