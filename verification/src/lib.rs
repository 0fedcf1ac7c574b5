//! Decoder for the `osz2` beatmap package container, and line readers for
//! the text of beatmap files.
//!
//! A package is read in one pass: header, metadata, difficulty table, key
//! check, then the encrypted file table. Every section is held against its
//! checkpoint before the next one is read. [`parse`] is the entry point.
//!
//! A beatmap file is read line by line: [`parser`] says what a line is
//! for, [`section_lines`] and [`list_lines`] what it holds.

pub mod assoc;
pub mod beatmap;
pub mod bytes;
pub mod decryptor_stream;
pub mod difficulty;
pub mod digest;
pub mod error;
pub mod ext;
pub mod fastrandom;
pub mod file_table;
pub mod header;
pub mod key;
pub mod list_lines;
pub mod metadata;
pub mod package;
pub mod parser;
pub mod section_lines;
pub mod text;
pub mod types;
pub mod xxtea;

pub use crate::difficulty::read_difficulty_data;
pub use crate::digest::calc_osz2_hash;
pub use crate::header::{decode_iv, read_data_length, read_magic};
pub use crate::key::{generate_key, read_check_key};
pub use crate::metadata::read_metadata;
pub use crate::package::parse;
