//! Verified core of the YARA-X scanning worker.

pub mod meta;
pub mod scanning;
pub mod text;
pub mod table;
pub mod scalar;
