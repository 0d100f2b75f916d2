//! The report formats.
pub mod cobertura;
pub mod coveralls;
pub mod html;
pub mod stdout;
