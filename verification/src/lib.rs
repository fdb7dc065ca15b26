//! Fetch daily access-log archives of an OVH web-hosting account.
//!
//! The library holds everything the tool decides: calendar dates and their
//! arithmetic, the provider's URL and file-name templates, the selection of
//! stale partial logs, and the day-by-day driver that says which file to
//! fetch, which to skip, and when a failure ends the run. The binary around
//! it only parses arguments, performs the HTTP requests and touches the
//! file system.

pub mod date;
pub mod text;
pub mod names;
pub mod urls;
pub mod driver;
