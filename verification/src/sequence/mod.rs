//! The sequence of boxes a file is formed as, read off the input as it arrives and laid back down as bytes

pub mod children;
pub mod error;
pub mod event;
pub mod header;
pub mod reader;
pub mod writer;
