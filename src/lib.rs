//! Decoding of segmented TDMS measurement files: segment lead-ins, object
//! metadata, raw-data-index shapes and the byte layout of channel samples.

pub mod error;
pub mod types;
pub mod reader;
pub mod object_path;
pub mod raw_data_index;
pub mod properties;
pub mod toc;
pub mod segment;
pub mod extract;
