//! Sample layer of an ISO base media file: where its samples lie, and the samples themselves

pub mod error;
pub mod sample;
pub mod track_decode_times;
pub mod sample_flags;
pub mod segment_index;
pub mod random_access;
pub mod sample_reader;
pub mod boxes;
pub mod sample_description;
pub mod sample_table;
pub mod movie_fragment;
pub mod sample_table_writer;
pub mod movie_fragment_writer;
pub mod tables_read_back;
pub mod fragment_read_back;
