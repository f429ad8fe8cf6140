//! Collects the results of example runs (per-platform outcome lists, screenshot
//! comparisons and rerun logs) into the model that the report site is built from.
pub mod text;
pub mod table;
pub mod model;
pub mod date;
pub mod run;
pub mod report;
pub mod site;
pub mod screenshot;
pub mod laws;
