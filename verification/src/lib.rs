//! Reading the structural metadata of ELF executables and planning their
//! flattening into a raw binary image.
//!
//! The library decodes the identity block, the main header and the program
//! (segment) headers of both address widths and both byte orders, checks them
//! against the format's rules, and derives the ordered list of loadable
//! segments together with the positions their bytes take in a flat image.
//! Everything here works on byte slices and plain values; opening files and
//! moving bytes is left to the caller.

pub mod elf;
pub mod endian;
pub mod error;
pub mod flags;
pub mod flat;
pub mod overlap;
pub mod select;
pub use flags::parse_flags;
