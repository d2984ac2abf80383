//! Decoders for a pair of reverse-engineered binary container formats: an
//! ELF-derived executable image (with mode-dependent field sizes, transparently
//! zlib-compressed sections and string-table name resolution) and a recursively
//! nested tagged-value tree, both read through a byte cursor whose byte order
//! and address width are chosen at run time.

pub mod arc;
pub mod binary_reader;
pub mod common;
pub mod compress;
pub mod elf_header;
pub mod elf_identifier;
pub mod endian;
pub mod errors;
pub(crate) mod fields;
pub mod program_header;
pub mod rpx;
pub mod section_header;
pub mod string_reader;
pub mod strings;
pub mod symbols;
pub mod tags;
pub mod utils;
pub mod values;
