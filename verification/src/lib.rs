//! Disk usage of the immediate children of a directory: per-entry sizes, a
//! grand total, human-readable sizes and a column-aligned listing.
//!
//! The library works on plain values. Whoever reads the file system hands it
//! what each stat returned; the library sums, sorts, formats and lays out.

pub mod entry;
pub mod grid;
pub mod report;
pub mod size;
pub mod walk;
