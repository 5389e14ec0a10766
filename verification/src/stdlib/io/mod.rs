pub mod buffered_reader;
pub mod file;
