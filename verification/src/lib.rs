//! Planning engine for pattern-driven bulk renames.
//!
//! The core is a counted, directional text-replacement engine that produces,
//! for one input text, three positionally consistent outputs: the plain
//! replaced text, a highlighted view of the selected matches, and a
//! highlighted view of the substitutions.  Around it sit the two templating
//! sub-languages (serial-number tokens and capture-group back-references),
//! the resolution of a replacement against a path's name, stem or extension,
//! and a batching planner that numbers genuine renames with a serial counter.

pub mod engine;
pub mod groups;
pub mod laws;
pub mod paths;
pub mod plan;
pub mod resolve;
pub mod rx;
pub mod serial;
pub mod text;
