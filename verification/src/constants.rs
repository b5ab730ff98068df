//! Names and notices of the application.

pub mod license;
pub mod meta;
