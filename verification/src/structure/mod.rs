//! The order of the top-level boxes of a file: which are read, which passed on, which passed over, and which are out of place

pub mod error;
pub mod fragmented;
pub mod media_segment;
pub mod stack;
pub mod fragmented_reader;
pub mod segment_reader;
pub mod fragmented_writer;
pub mod segment_writer;
