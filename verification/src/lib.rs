//! Parsing, assembling and simulating Redcode warriors for Core War.

pub mod linker;
pub mod load_file;
pub mod name_map;
pub mod parser;
pub mod sim;
pub mod text;
