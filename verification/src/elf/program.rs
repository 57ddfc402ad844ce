//! Program (segment) header entries as they are laid out for each class.

use crate::endian::{field, lemma_value_of_four_bytes, read_u32, read_u64, Endian};
use vstd::prelude::*;

verus! {

/// What kind of segment an entry describes.
#[derive(Debug, PartialEq, Eq, Structural, Hash, Clone, Copy)]
pub struct Type(pub u32);

impl Type {
    /// A segment that is mapped into memory when the file is loaded.
    pub const PT_LOAD: u32 = 1;
}

/// The permissions of a segment, one bit each.
#[derive(Debug, PartialEq, Eq, Structural, Hash, Clone, Copy)]
pub struct Flags(pub u32);

impl Flags {
    /// The segment may be executed.
    pub const PF_X: u32 = 1;

    /// The segment may be written to.
    pub const PF_W: u32 = 2;

    /// The segment may be read.
    pub const PF_R: u32 = 4;

    /// Whether any of the bits of `mask` is set.
    pub open spec fn has_any(self, mask: u32) -> bool {
        self.0 & mask != 0
    }

    /// Whether the executable bit is set.
    pub fn executable(self) -> (r: bool)
        ensures
            r == self.has_any(Self::PF_X),
    {
        self.0 & Self::PF_X != 0
    }

    /// Whether the writable bit is set.
    pub fn writable(self) -> (r: bool)
        ensures
            r == self.has_any(Self::PF_W),
    {
        self.0 & Self::PF_W != 0
    }

    /// Whether the readable bit is set.
    pub fn readable(self) -> (r: bool)
        ensures
            r == self.has_any(Self::PF_R),
    {
        self.0 & Self::PF_R != 0
    }
}

/// The fields of a segment header as plain numbers, whatever the width and
/// the order they were stored with.
pub struct SegmentFields {
    pub p_type: nat,
    pub p_flags: nat,
    pub p_offset: nat,
    pub p_vaddr: nat,
    pub p_paddr: nat,
    pub p_filesz: nat,
    pub p_memsz: nat,
    pub p_align: nat,
}

impl SegmentFields {
    /// Whether these are the fields of the 32-bit entry that `bytes` is. All
    /// eight fields are four bytes wide; the flags come next to last.
    pub open spec fn is_stored_as_32(self, bytes: Seq<u8>, endian: Endian) -> bool {
        &&& bytes.len() == Phdr32::SIZE
        &&& self.p_type == field(bytes, 0, 4, endian)
        &&& self.p_offset == field(bytes, 4, 4, endian)
        &&& self.p_vaddr == field(bytes, 8, 4, endian)
        &&& self.p_paddr == field(bytes, 12, 4, endian)
        &&& self.p_filesz == field(bytes, 16, 4, endian)
        &&& self.p_memsz == field(bytes, 20, 4, endian)
        &&& self.p_flags == field(bytes, 24, 4, endian)
        &&& self.p_align == field(bytes, 28, 4, endian)
    }

    /// Whether these are the fields of the 64-bit entry that `bytes` is. Type
    /// and flags are four bytes wide and stand together at the front; the
    /// other six fields are eight bytes wide.
    pub open spec fn is_stored_as_64(self, bytes: Seq<u8>, endian: Endian) -> bool {
        &&& bytes.len() == Phdr64::SIZE
        &&& self.p_type == field(bytes, 0, 4, endian)
        &&& self.p_flags == field(bytes, 4, 4, endian)
        &&& self.p_offset == field(bytes, 8, 8, endian)
        &&& self.p_vaddr == field(bytes, 16, 8, endian)
        &&& self.p_paddr == field(bytes, 24, 8, endian)
        &&& self.p_filesz == field(bytes, 32, 8, endian)
        &&& self.p_memsz == field(bytes, 40, 8, endian)
        &&& self.p_align == field(bytes, 48, 8, endian)
    }
}

/// A segment header of a 32-bit file, in the order of its layout.
#[derive(Debug, PartialEq, Eq, Clone, Copy)]
pub struct Phdr32 {
    pub p_type: u32,
    pub p_offset: u32,
    pub p_vaddr: u32,
    pub p_paddr: u32,
    pub p_filesz: u32,
    pub p_memsz: u32,
    pub p_flags: u32,
    pub p_align: u32,
}

impl View for Phdr32 {
    type V = SegmentFields;

    open spec fn view(&self) -> SegmentFields {
        SegmentFields {
            p_type: self.p_type as nat,
            p_flags: self.p_flags as nat,
            p_offset: self.p_offset as nat,
            p_vaddr: self.p_vaddr as nat,
            p_paddr: self.p_paddr as nat,
            p_filesz: self.p_filesz as nat,
            p_memsz: self.p_memsz as nat,
            p_align: self.p_align as nat,
        }
    }
}

impl Phdr32 {
    /// The size in bytes of a segment header of a 32-bit file.
    pub const SIZE: usize = 32;

    /// Decodes the entry that `bytes` is, reading its numbers in the order
    /// `endian`. There is an entry only if `bytes` has exactly its size.
    pub fn read_from(bytes: &[u8], endian: Endian) -> (r: Option<Phdr32>)
        ensures
            r is Some <==> bytes@.len() == Self::SIZE,
            r matches Some(p) ==> p@.is_stored_as_32(bytes@, endian),
    {
        if bytes.len() != Self::SIZE {
            return None;
        }
        Some(
            Phdr32 {
                p_type: read_u32(bytes, 0, endian),
                p_offset: read_u32(bytes, 4, endian),
                p_vaddr: read_u32(bytes, 8, endian),
                p_paddr: read_u32(bytes, 12, endian),
                p_filesz: read_u32(bytes, 16, endian),
                p_memsz: read_u32(bytes, 20, endian),
                p_flags: read_u32(bytes, 24, endian),
                p_align: read_u32(bytes, 28, endian),
            },
        )
    }

    /// Widens every field to the canonical form by zero extension.
    pub fn wrap(self) -> (w: Phdr64)
        ensures
            w@ == self@,
    {
        Phdr64 {
            p_type: self.p_type,
            p_flags: self.p_flags,
            p_offset: self.p_offset as u64,
            p_vaddr: self.p_vaddr as u64,
            p_paddr: self.p_paddr as u64,
            p_filesz: self.p_filesz as u64,
            p_memsz: self.p_memsz as u64,
            p_align: self.p_align as u64,
        }
    }
}

/// A segment header of a 64-bit file, in the order of its layout. This is
/// also the canonical form that entries of either class are widened to.
#[derive(Debug, PartialEq, Eq, Clone, Copy)]
pub struct Phdr64 {
    pub p_type: u32,
    pub p_flags: u32,
    pub p_offset: u64,
    pub p_vaddr: u64,
    pub p_paddr: u64,
    pub p_filesz: u64,
    pub p_memsz: u64,
    pub p_align: u64,
}

impl View for Phdr64 {
    type V = SegmentFields;

    open spec fn view(&self) -> SegmentFields {
        SegmentFields {
            p_type: self.p_type as nat,
            p_flags: self.p_flags as nat,
            p_offset: self.p_offset as nat,
            p_vaddr: self.p_vaddr as nat,
            p_paddr: self.p_paddr as nat,
            p_filesz: self.p_filesz as nat,
            p_memsz: self.p_memsz as nat,
            p_align: self.p_align as nat,
        }
    }
}

impl Phdr64 {
    /// The size in bytes of a segment header of a 64-bit file.
    pub const SIZE: usize = 56;

    /// Decodes the entry that `bytes` is, reading its numbers in the order
    /// `endian`. There is an entry only if `bytes` has exactly its size.
    pub fn read_from(bytes: &[u8], endian: Endian) -> (r: Option<Phdr64>)
        ensures
            r is Some <==> bytes@.len() == Self::SIZE,
            r matches Some(p) ==> p@.is_stored_as_64(bytes@, endian),
    {
        if bytes.len() != Self::SIZE {
            return None;
        }
        Some(
            Phdr64 {
                p_type: read_u32(bytes, 0, endian),
                p_flags: read_u32(bytes, 4, endian),
                p_offset: read_u64(bytes, 8, endian),
                p_vaddr: read_u64(bytes, 16, endian),
                p_paddr: read_u64(bytes, 24, endian),
                p_filesz: read_u64(bytes, 32, endian),
                p_memsz: read_u64(bytes, 40, endian),
                p_align: read_u64(bytes, 48, endian),
            },
        )
    }

    /// The canonical form of an entry that already has it.
    pub fn wrap(self) -> (w: Phdr64)
        ensures
            w == self,
    {
        self
    }
}

/// Two canonical entries with the same fields are the same entry.
pub proof fn lemma_fields_determine_entry(a: Phdr64, b: Phdr64)
    requires
        a@ == b@,
    ensures
        a == b,
{
}

/// Widening is zero extension: every field of an entry stored in the 32-bit
/// layout is below 2^32.
pub proof fn lemma_narrow_entry_fits(p: SegmentFields, bytes: Seq<u8>, endian: Endian)
    requires
        p.is_stored_as_32(bytes, endian),
    ensures
        p.p_offset <= u32::MAX,
        p.p_vaddr <= u32::MAX,
        p.p_paddr <= u32::MAX,
        p.p_filesz <= u32::MAX,
        p.p_memsz <= u32::MAX,
        p.p_align <= u32::MAX,
{
    lemma_value_of_four_bytes(bytes.subrange(4, 8));
    lemma_value_of_four_bytes(bytes.subrange(8, 12));
    lemma_value_of_four_bytes(bytes.subrange(12, 16));
    lemma_value_of_four_bytes(bytes.subrange(16, 20));
    lemma_value_of_four_bytes(bytes.subrange(20, 24));
    lemma_value_of_four_bytes(bytes.subrange(28, 32));
}

} // verus!
