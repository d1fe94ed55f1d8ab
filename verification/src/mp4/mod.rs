//! Sample entries and elementary stream descriptors of ISO/IEC 14496-14, the MP4 file format

pub mod descriptor;
pub mod error;
pub mod es_descriptor;
pub mod esds;
pub mod sample_entry;
pub mod mp4s;
pub mod mp4a;
pub mod mp4v;
