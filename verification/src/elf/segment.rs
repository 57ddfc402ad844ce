//! Segment headers in their canonical form, and the table that holds them.

use crate::elf::header::{segment_header_size, Ehdr};
use crate::elf::ident::Class;
use crate::elf::program::{Flags, Phdr32, Phdr64, SegmentFields, Type};
use crate::endian::Endian;
use vstd::prelude::*;
use vstd::pervasive::unreached;
use vstd::slice::slice_subrange;

verus! {

/// One segment header in its canonical form: the same for both classes and
/// both byte orders, with every address, offset and size held in 64 bits.
#[derive(Debug, PartialEq, Eq, Clone, Copy)]
pub struct Phdr(pub Phdr64);

impl View for Phdr {
    type V = SegmentFields;

    open spec fn view(&self) -> SegmentFields {
        self.0@
    }
}

impl Phdr {
    /// Whether this is the entry that `bytes` is in a file of the given
    /// class, with its numbers stored in the order `endian`.
    pub open spec fn is_stored_in(self, bytes: Seq<u8>, class: Class, endian: Endian) -> bool {
        if class.0 == Class::ELFCLASS32 {
            self@.is_stored_as_32(bytes, endian)
        } else {
            self@.is_stored_as_64(bytes, endian)
        }
    }

    /// Decodes the one entry that `data` is, in the layout of the class and
    /// in the byte order that the header declares, and widens it to the
    /// canonical form. The header must name a known class and a known byte
    /// order, and `data` must have exactly the size of an entry of that
    /// class.
    pub fn from_bytes(data: &[u8], ehdr: &Ehdr) -> (r: Self)
        requires
            ehdr.0.e_ident.class.is_known(),
            ehdr.0.e_ident.data.is_known(),
            data@.len() == segment_header_size(ehdr.0.e_ident.class),
        ensures
            r.is_stored_in(data@, ehdr.0.e_ident.class, ehdr.0.e_ident.data.order()->0),
    {
        let endian = match ehdr.0.e_ident.data.endian() {
            Some(endian) => endian,
            None => unreached(),
        };
        let res = if ehdr.0.e_ident.class.0 == Class::ELFCLASS32 {
            match Phdr32::read_from(data, endian) {
                Some(raw) => raw.wrap(),
                None => unreached(),
            }
        } else {
            match Phdr64::read_from(data, endian) {
                Some(raw) => raw.wrap(),
                None => unreached(),
            }
        };
        Self(res)
    }

    /// Decodes the table of segment headers that `bytes` is: one entry after
    /// the other, each of the size that the header declares, in table order.
    /// Bytes left over after the last whole entry are not looked at. The
    /// header must be a valid one.
    pub fn read_table(bytes: &[u8], ehdr: &Ehdr) -> (table: Vec<Phdr>)
        requires
            ehdr.wf(),
        ensures
            table@.len() == bytes@.len() / (ehdr.0.e_phentsize as nat),
            forall|i: int|
                0 <= i < table@.len() ==> (#[trigger] table@[i]).is_stored_in(
                    bytes@.subrange(i * ehdr.0.e_phentsize, (i + 1) * ehdr.0.e_phentsize),
                    ehdr.0.e_ident.class,
                    ehdr.0.e_ident.data.order()->0,
                ),
    {
        let size = ehdr.ph_entry_size();
        let mut table: Vec<Phdr> = Vec::new();
        let mut off: usize = 0;
        assert(0 * size == 0);
        while bytes.len() - off >= size
            invariant
                ehdr.wf(),
                size == ehdr.0.e_phentsize,
                size > 0,
                off <= bytes@.len(),
                off == table@.len() * size,
                forall|i: int|
                    0 <= i < table@.len() ==> (#[trigger] table@[i]).is_stored_in(
                        bytes@.subrange(i * size, (i + 1) * size),
                        ehdr.0.e_ident.class,
                        ehdr.0.e_ident.data.order()->0,
                    ),
            decreases bytes@.len() - off,
        {
            let ghost n = table@.len() as int;
            assert((n + 1) * size == n * size + size) by (nonlinear_arith);
            let entry = Self::from_bytes(slice_subrange(bytes, off, off + size), ehdr);
            table.push(entry);
            off = off + size;
        }
        proof {
            let n = table@.len() as int;
            let len = bytes@.len() as int;
            assert(len / (size as int) == n) by (nonlinear_arith)
                requires
                    size > 0,
                    n * size <= len < n * size + size,
            ;
        }
        table
    }

    /// The kind of the segment.
    pub fn to_type(&self) -> (r: Type)
        ensures
            r.0 == self.0.p_type,
    {
        Type(self.0.p_type)
    }

    /// The permissions of the segment.
    pub fn flags(&self) -> (r: Flags)
        ensures
            r.0 == self.0.p_flags,
    {
        Flags(self.0.p_flags)
    }

    /// The virtual address at which the segment starts in memory.
    pub fn address(&self) -> (r: u64)
        ensures
            r == self.0.p_vaddr,
    {
        self.0.p_vaddr
    }

    /// Where in the file the bytes of the segment start.
    pub fn file_offset(&self) -> (r: u64)
        ensures
            r == self.0.p_offset,
    {
        self.0.p_offset
    }

    /// How many bytes of the segment the file holds.
    pub fn file_size(&self) -> (r: u64)
        ensures
            r == self.0.p_filesz,
    {
        self.0.p_filesz
    }

    /// How many bytes the segment takes in memory.
    pub fn memory_size(&self) -> (r: u64)
        ensures
            r == self.0.p_memsz,
    {
        self.0.p_memsz
    }
}

} // verus!
