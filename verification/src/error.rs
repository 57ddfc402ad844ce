//! The ways in which reading or flattening an executable can fail.

use vstd::prelude::*;
use vstd::string::StringExecFns;

verus! {

/// Why an input was rejected. Every failure ends the run.
#[derive(Clone, Copy, Debug, PartialEq, Eq, Structural)]
pub enum ElfError {
    /// The input ends before the structure that is being read does.
    Truncated,
    /// The first four bytes are not the ELF magic.
    MalformedMagic,
    /// The class is neither 32-bit nor 64-bit.
    UnsupportedClass,
    /// The byte order is neither little-endian nor big-endian.
    UnsupportedEndianness,
    /// The format version is not the current one.
    UnsupportedVersion,
    /// The declared size of a segment header is not the size its class gives it.
    SegmentHeaderSizeMismatch,
    /// The segment count is the escape value of the extended numbering.
    ExtendedSegmentCountUnsupported,
    /// A segment that starts at `start` reaches beyond the start of the one
    /// that follows it at `next`.
    OverlapDetected { start: u64, next: u64 },
}

impl ElfError {
    /// What is said to the user about the failure.
    pub open spec fn text(self) -> Seq<char> {
        match self {
            ElfError::Truncated => "failed to fill whole buffer"@,
            ElfError::MalformedMagic => "Invalid magic"@,
            ElfError::UnsupportedClass => "Invalid class"@,
            ElfError::UnsupportedEndianness => "Invalid data (endianness)"@,
            ElfError::UnsupportedVersion => "Invalid version"@,
            ElfError::SegmentHeaderSizeMismatch => "Invalid e_phentsize"@,
            ElfError::ExtendedSegmentCountUnsupported => "Too many segments, unimplemented PN_XNUM"@,
            ElfError::OverlapDetected { .. } => "Overlapping segments (Use --allow-overlaps to use it anyway)"@,
        }
    }

    /// The failure in words.
    pub fn message(&self) -> (r: String)
        ensures
            r@ == self.text(),
    {
        match self {
            ElfError::Truncated => String::from_str("failed to fill whole buffer"),
            ElfError::MalformedMagic => String::from_str("Invalid magic"),
            ElfError::UnsupportedClass => String::from_str("Invalid class"),
            ElfError::UnsupportedEndianness => String::from_str("Invalid data (endianness)"),
            ElfError::UnsupportedVersion => String::from_str("Invalid version"),
            ElfError::SegmentHeaderSizeMismatch => String::from_str("Invalid e_phentsize"),
            ElfError::ExtendedSegmentCountUnsupported => String::from_str(
                "Too many segments, unimplemented PN_XNUM",
            ),
            ElfError::OverlapDetected { .. } => String::from_str(
                "Overlapping segments (Use --allow-overlaps to use it anyway)",
            ),
        }
    }
}

} // verus!
