//! The on-disk structures of an ELF file: the identity block, the main header
//! and the program (segment) headers, each decoded into plain values.

pub mod header;
pub mod ident;
pub mod program;
pub mod segment;

pub use header::{Ehdr, Ehdr32, Ehdr64, EhdrN};
pub use ident::{AbiVersion, Class, Data, Ident, Mag, OsAbi, Version};
pub use program::{Flags, Phdr32, Phdr64, SegmentFields, Type};
pub use segment::Phdr;
