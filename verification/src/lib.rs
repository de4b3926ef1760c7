//! Turns a flat media catalog into a grouped, sorted HTML report.
//!
//! The pipeline runs in one forward pass: the loader decodes tabular text
//! into records, the aggregator groups them by category and fixes the display
//! order, and the renderer maps the grouped catalog to a complete document.

pub mod aggregator;
pub mod grouping;
pub mod loader;
pub mod pipeline;
pub mod record;
pub mod renderer;
pub mod session;
pub mod text;
