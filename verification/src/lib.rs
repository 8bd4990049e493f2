//! A multi-language static-analysis engine.
//!
//! Source files are parsed into syntax trees (`parse`), per-function
//! metrics are derived from the trees (`metrics`, `extract`), imports and
//! exports are read (`imports`) and resolved into a module dependency
//! graph (`graph`), which is searched for circular dependencies (`cycles`)
//! and measured for coupling (`coupling`). The `analysis` module drives
//! the whole pipeline and aggregates everything (`score`, `hotspot`) into
//! one `AnalysisResults` value; `laws` states and proves the properties
//! the engine guarantees.

pub mod adapter;
pub mod analysis;
pub mod charts;
pub mod ci;
pub mod clusters;
pub mod cli;
pub mod coupling;
pub mod cycles;
pub mod engine;
pub mod extract;
pub mod graph;
pub mod hotspot;
pub mod imports;
pub mod lang;
pub mod laws;
pub mod metrics;
pub mod parse;
pub mod report;
pub mod samples;
pub mod score;
pub mod source;
pub mod text;
pub mod tree;
