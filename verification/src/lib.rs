//! A dependency-graph engine for project maintenance reports: it builds
//! display trees over an already-resolved package graph (forward or
//! inverted, depth-bounded, cycle-safe, duplicate-aware), reconstructs
//! shortest attribution paths from the workspace roots to a flagged
//! package, and computes summary counts — together with the parsing and
//! classification rules of the surrounding maintenance reports. The graph
//! arrives pre-resolved from the host; the engine itself is pure and
//! stateless per call.

pub mod audit;
pub mod clippy;
pub mod deps;
pub mod detect;
pub mod error;
pub mod geiger;
pub mod graph;
pub mod json;
pub mod output;
pub mod path;
pub mod render;
pub mod stats;
pub mod strings;
pub mod toolcheck;
pub mod tree;
pub mod unused;
pub mod version;
