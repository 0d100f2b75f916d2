//! Reports in the older layout: shared error type, Coveralls identity and
//! the HTML page.
pub mod coveralls;
pub mod html_report;
pub mod types;
