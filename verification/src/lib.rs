//! Prepares an object-detection training manifest from a folder-per-class
//! image dataset: image files discovered under first-level label directories
//! are turned into detection records, each raw label is resolved to a
//! canonical training class through a grouping table, a centered bounding box
//! is derived from the image dimensions, and the qualifying records are
//! rendered as CSV manifest rows.

pub mod bbox;
pub mod bytestr;
pub mod classify;
pub mod detection;
pub mod export;
pub mod extract;
pub mod paths;
pub mod report;
pub mod util;
