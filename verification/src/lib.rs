//! Sample entries, descriptors, sample layers, the sequence of boxes and file structure of the ISO base media file format

pub mod bytes;
pub mod mp4;
pub mod sample;
pub mod sequence;
pub mod structure;
pub mod text;
