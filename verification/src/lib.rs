//! Coverage report generation: plain-text, Cobertura, Coveralls and HTML
//! views of the coverage traces collected for a project.
pub mod config;
pub mod outside;
pub mod paths;
pub mod report;
pub mod reporting;
pub mod text;
pub mod traces;
