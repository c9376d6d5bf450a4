//! Output abstractions: the [`writer::Writer`] capability and its
//! concrete implementations.

pub mod byte_writer;
pub mod char_writer;
pub mod string_writer;
pub mod writer;
