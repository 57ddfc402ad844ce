//! The main header, in the layout of either class and in its canonical form.

use crate::elf::ident::{Class, Data, Ident, Mag, Version};
use crate::elf::program::{Phdr32, Phdr64};
use crate::endian::{field, lemma_value_of_four_bytes, read_u16, read_u32, read_u64};
use crate::error::ElfError;
use vstd::prelude::*;

verus! {

/// The main header with address and offset fields of type `UN`: `u32` as a
/// 32-bit file stores them, `u64` as a 64-bit file does and as the canonical
/// form has them. Every number is held decoded, as a plain value.
#[derive(Debug, PartialEq, Eq)]
pub struct EhdrN<UN> {
    pub e_ident: Ident,
    pub e_type: u16,
    pub e_machine: u16,
    pub e_version: u32,
    pub e_entry: UN,
    pub e_phoff: UN,
    pub e_shoff: UN,
    pub e_flags: u32,
    pub e_ehsize: u16,
    pub e_phentsize: u16,
    pub e_phnum: u16,
    pub e_shentsize: u16,
    pub e_shnum: u16,
    pub e_shstrndx: u16,
}

impl<UN: Copy> Clone for EhdrN<UN> {
    fn clone(&self) -> (r: Self)
        ensures
            r == *self,
    {
        *self
    }
}

impl<UN: Copy> Copy for EhdrN<UN> {

}

/// The header as a 32-bit file lays it out.
pub type Ehdr32 = EhdrN<u32>;

/// The header as a 64-bit file lays it out.
pub type Ehdr64 = EhdrN<u64>;

/// The size in bytes of a segment header in a file of the given class: the
/// two classes lay the entry out differently, and their sizes differ.
pub open spec fn segment_header_size(class: Class) -> int {
    if class.0 == Class::ELFCLASS32 {
        Phdr32::SIZE as int
    } else {
        Phdr64::SIZE as int
    }
}

/// The width in bytes of an address or offset field in a file of the given
/// class.
pub open spec fn address_width(class: Class) -> int {
    if class.0 == Class::ELFCLASS32 {
        4
    } else {
        8
    }
}

/// The segment count that stands for "look elsewhere for the real count".
pub const PN_XNUM: u16 = 0xffff;

impl<UN> EhdrN<UN> {
    /// The first rule of the format that this header breaks, if any: first
    /// those of the identity block, then that the declared size of a segment
    /// header is exactly the size its class gives it, then that the segment
    /// count is not the escape value.
    pub open spec fn fault(self) -> Option<ElfError> {
        if self.e_ident.fault() is Some {
            self.e_ident.fault()
        } else if self.e_phentsize != segment_header_size(self.e_ident.class) {
            Some(ElfError::SegmentHeaderSizeMismatch)
        } else if self.e_phnum == PN_XNUM {
            Some(ElfError::ExtendedSegmentCountUnsupported)
        } else {
            None
        }
    }

    /// Checks the identity block, then the declared segment header size, then
    /// the segment count.
    pub fn validate(&self) -> (r: Result<(), ElfError>)
        ensures
            r == match self.fault() {
                Some(e) => Err::<(), ElfError>(e),
                None => Ok(()),
            },
    {
        match self.e_ident.validate() {
            Ok(()) => {},
            Err(e) => {
                return Err(e);
            },
        }
        let phentsize: usize = if self.e_ident.class.0 == Class::ELFCLASS32 {
            Phdr32::SIZE
        } else {
            Phdr64::SIZE
        };
        if self.e_phentsize as usize != phentsize {
            return Err(ElfError::SegmentHeaderSizeMismatch);
        }
        if self.e_phnum == PN_XNUM {
            return Err(ElfError::ExtendedSegmentCountUnsupported);
        }
        Ok(())
    }

    /// Hands the header on if it is valid.
    fn pipe_validate(self) -> (r: Result<Self, ElfError>)
        ensures
            r == match self.fault() {
                Some(e) => Err::<Self, ElfError>(e),
                None => Ok(self),
            },
    {
        match self.validate() {
            Ok(()) => Ok(self),
            Err(e) => Err(e),
        }
    }
}

impl EhdrN<nat> {
    /// Whether these are the fields of the header that `bytes` starts with,
    /// in a layout whose address and offset fields are `width` bytes wide.
    /// The identity block names the byte order of every number. After it
    /// come type, machine and version; then entry point and the two table
    /// offsets, each `width` bytes wide; then the flags and six 16-bit sizes,
    /// counts and indices. Bytes beyond the header are not part of it.
    pub open spec fn is_stored_in(self, bytes: Seq<u8>, width: int) -> bool {
        &&& self.e_ident.is_stored_in(bytes)
        &&& bytes.len() >= 40 + 3 * width
        &&& self.e_ident.data.order() matches Some(endian)
        &&& self.e_type == field(bytes, 16, 2, endian)
        &&& self.e_machine == field(bytes, 18, 2, endian)
        &&& self.e_version == field(bytes, 20, 4, endian)
        &&& self.e_entry == field(bytes, 24, width, endian)
        &&& self.e_phoff == field(bytes, 24 + width, width, endian)
        &&& self.e_shoff == field(bytes, 24 + 2 * width, width, endian)
        &&& self.e_flags == field(bytes, 24 + 3 * width, 4, endian)
        &&& self.e_ehsize == field(bytes, 28 + 3 * width, 2, endian)
        &&& self.e_phentsize == field(bytes, 30 + 3 * width, 2, endian)
        &&& self.e_phnum == field(bytes, 32 + 3 * width, 2, endian)
        &&& self.e_shentsize == field(bytes, 34 + 3 * width, 2, endian)
        &&& self.e_shnum == field(bytes, 36 + 3 * width, 2, endian)
        &&& self.e_shstrndx == field(bytes, 38 + 3 * width, 2, endian)
    }
}

/// Why no header of `size` bytes can be decoded from `bytes`, if none can:
/// the identity block has to be there and name a byte order, and the bytes
/// have to reach to the end of the header.
pub open spec fn undecodable(bytes: Seq<u8>, size: int) -> Option<ElfError> {
    if Ident::unreadable(bytes) is Some {
        Ident::unreadable(bytes)
    } else if !Data(bytes[5]).is_known() {
        Some(ElfError::UnsupportedEndianness)
    } else if bytes.len() < size {
        Some(ElfError::Truncated)
    } else {
        None
    }
}

impl View for EhdrN<u32> {
    type V = EhdrN<nat>;

    open spec fn view(&self) -> EhdrN<nat> {
        EhdrN {
            e_ident: self.e_ident,
            e_type: self.e_type,
            e_machine: self.e_machine,
            e_version: self.e_version,
            e_entry: self.e_entry as nat,
            e_phoff: self.e_phoff as nat,
            e_shoff: self.e_shoff as nat,
            e_flags: self.e_flags,
            e_ehsize: self.e_ehsize,
            e_phentsize: self.e_phentsize,
            e_phnum: self.e_phnum,
            e_shentsize: self.e_shentsize,
            e_shnum: self.e_shnum,
            e_shstrndx: self.e_shstrndx,
        }
    }
}

impl View for EhdrN<u64> {
    type V = EhdrN<nat>;

    open spec fn view(&self) -> EhdrN<nat> {
        EhdrN {
            e_ident: self.e_ident,
            e_type: self.e_type,
            e_machine: self.e_machine,
            e_version: self.e_version,
            e_entry: self.e_entry as nat,
            e_phoff: self.e_phoff as nat,
            e_shoff: self.e_shoff as nat,
            e_flags: self.e_flags,
            e_ehsize: self.e_ehsize,
            e_phentsize: self.e_phentsize,
            e_phnum: self.e_phnum,
            e_shentsize: self.e_shentsize,
            e_shnum: self.e_shnum,
            e_shstrndx: self.e_shstrndx,
        }
    }
}

impl EhdrN<u32> {
    /// The size in bytes of the header of a 32-bit file.
    pub const SIZE: usize = 52;

    /// Decodes the header at the start of `bytes` in the 32-bit layout, every
    /// number in the byte order that the identity block declares.
    pub fn read(bytes: &[u8]) -> (r: Result<Self, ElfError>)
        ensures
            match r {
                Ok(h) => undecodable(bytes@, 52) is None && h@.is_stored_in(bytes@, 4),
                Err(e) => undecodable(bytes@, 52) == Some(e),
            },
    {
        let e_ident = match Ident::read(bytes) {
            Ok(id) => id,
            Err(e) => {
                return Err(e);
            },
        };
        let endian = match e_ident.data.endian() {
            Some(endian) => endian,
            None => {
                return Err(ElfError::UnsupportedEndianness);
            },
        };
        if bytes.len() < Self::SIZE {
            return Err(ElfError::Truncated);
        }
        Ok(
            EhdrN {
                e_ident,
                e_type: read_u16(bytes, 16, endian),
                e_machine: read_u16(bytes, 18, endian),
                e_version: read_u32(bytes, 20, endian),
                e_entry: read_u32(bytes, 24, endian),
                e_phoff: read_u32(bytes, 28, endian),
                e_shoff: read_u32(bytes, 32, endian),
                e_flags: read_u32(bytes, 36, endian),
                e_ehsize: read_u16(bytes, 40, endian),
                e_phentsize: read_u16(bytes, 42, endian),
                e_phnum: read_u16(bytes, 44, endian),
                e_shentsize: read_u16(bytes, 46, endian),
                e_shnum: read_u16(bytes, 48, endian),
                e_shstrndx: read_u16(bytes, 50, endian),
            },
        )
    }

    /// Widens the address and offset fields to the canonical form by zero
    /// extension; every field keeps its value.
    pub fn wrap(self) -> (w: EhdrN<u64>)
        ensures
            w@ == self@,
    {
        EhdrN {
            e_ident: self.e_ident,
            e_type: self.e_type,
            e_machine: self.e_machine,
            e_version: self.e_version,
            e_entry: self.e_entry as u64,
            e_phoff: self.e_phoff as u64,
            e_shoff: self.e_shoff as u64,
            e_flags: self.e_flags,
            e_ehsize: self.e_ehsize,
            e_phentsize: self.e_phentsize,
            e_phnum: self.e_phnum,
            e_shentsize: self.e_shentsize,
            e_shnum: self.e_shnum,
            e_shstrndx: self.e_shstrndx,
        }
    }
}

impl EhdrN<u64> {
    /// The size in bytes of the header of a 64-bit file.
    pub const SIZE: usize = 64;

    /// Decodes the header at the start of `bytes` in the 64-bit layout, every
    /// number in the byte order that the identity block declares.
    pub fn read(bytes: &[u8]) -> (r: Result<Self, ElfError>)
        ensures
            match r {
                Ok(h) => undecodable(bytes@, 64) is None && h@.is_stored_in(bytes@, 8),
                Err(e) => undecodable(bytes@, 64) == Some(e),
            },
    {
        let e_ident = match Ident::read(bytes) {
            Ok(id) => id,
            Err(e) => {
                return Err(e);
            },
        };
        let endian = match e_ident.data.endian() {
            Some(endian) => endian,
            None => {
                return Err(ElfError::UnsupportedEndianness);
            },
        };
        if bytes.len() < Self::SIZE {
            return Err(ElfError::Truncated);
        }
        Ok(
            EhdrN {
                e_ident,
                e_type: read_u16(bytes, 16, endian),
                e_machine: read_u16(bytes, 18, endian),
                e_version: read_u32(bytes, 20, endian),
                e_entry: read_u64(bytes, 24, endian),
                e_phoff: read_u64(bytes, 32, endian),
                e_shoff: read_u64(bytes, 40, endian),
                e_flags: read_u32(bytes, 48, endian),
                e_ehsize: read_u16(bytes, 52, endian),
                e_phentsize: read_u16(bytes, 54, endian),
                e_phnum: read_u16(bytes, 56, endian),
                e_shentsize: read_u16(bytes, 58, endian),
                e_shnum: read_u16(bytes, 60, endian),
                e_shstrndx: read_u16(bytes, 62, endian),
            },
        )
    }

    /// The canonical form of a header that already has it.
    pub fn wrap(self) -> (w: EhdrN<u64>)
        ensures
            w == self,
    {
        self
    }
}

/// The main header in its canonical form: the same for both classes and both
/// byte orders, with every address and offset held in 64 bits.
#[derive(Debug, PartialEq, Eq, Clone, Copy)]
pub struct Ehdr(pub EhdrN<u64>);

impl Ehdr {
    /// The size in bytes of the header in a file of the given class.
    pub open spec fn header_size(class: Class) -> int {
        40 + 3 * address_width(class)
    }

    /// The number that the bytes of the header declare as the size of one
    /// segment header. Its place depends on the class.
    pub open spec fn declared_phentsize(bytes: Seq<u8>) -> nat {
        field(
            bytes,
            30 + 3 * address_width(Class(bytes[4])),
            2,
            Data(bytes[5]).order()->0,
        )
    }

    /// The number that the bytes of the header declare as the segment count.
    pub open spec fn declared_phnum(bytes: Seq<u8>) -> nat {
        field(
            bytes,
            32 + 3 * address_width(Class(bytes[4])),
            2,
            Data(bytes[5]).order()->0,
        )
    }

    /// Why `bytes` is not accepted as the start of an ELF file, if it is not.
    /// The checks come in this order, and the first that fails decides.
    pub open spec fn rejection(bytes: Seq<u8>) -> Option<ElfError> {
        if bytes.len() < Ident::EI_NIDENT {
            Some(ElfError::Truncated)
        } else if !Ident::has_magic(bytes) {
            Some(ElfError::MalformedMagic)
        } else if !Class(bytes[4]).is_known() {
            Some(ElfError::UnsupportedClass)
        } else if !Data(bytes[5]).is_known() {
            Some(ElfError::UnsupportedEndianness)
        } else if bytes.len() < Self::header_size(Class(bytes[4])) {
            Some(ElfError::Truncated)
        } else if !Version(bytes[6]).is_current() {
            Some(ElfError::UnsupportedVersion)
        } else if Self::declared_phentsize(bytes) != segment_header_size(Class(bytes[4])) {
            Some(ElfError::SegmentHeaderSizeMismatch)
        } else if Self::declared_phnum(bytes) == PN_XNUM {
            Some(ElfError::ExtendedSegmentCountUnsupported)
        } else {
            None
        }
    }

    /// Whether the header keeps every rule of the format that this library
    /// checks. Headers that `read` returns do.
    pub open spec fn wf(self) -> bool {
        self.0.fault() is None
    }

    /// Decodes and validates the header at the start of `bytes`, in the
    /// layout of the class and in the byte order that its identity block
    /// declares, and widens it to the canonical form.
    pub fn read(bytes: &[u8]) -> (r: Result<Ehdr, ElfError>)
        ensures
            match r {
                Ok(h) => {
                    &&& Self::rejection(bytes@) is None
                    &&& h.wf()
                    &&& h.0@.is_stored_in(bytes@, address_width(h.0.e_ident.class))
                },
                Err(e) => Self::rejection(bytes@) == Some(e),
            },
    {
        let ident = match Ident::read(bytes) {
            Ok(id) => id,
            Err(e) => {
                return Err(e);
            },
        };
        if !ident.class.valid() {
            return Err(ElfError::UnsupportedClass);
        }
        if !ident.data.valid() {
            return Err(ElfError::UnsupportedEndianness);
        }
        let res = if ident.class.0 == Class::ELFCLASS32 {
            let raw = match Ehdr32::read(bytes) {
                Ok(raw) => raw,
                Err(e) => {
                    return Err(e);
                },
            };
            match raw.pipe_validate() {
                Ok(raw) => raw.wrap(),
                Err(e) => {
                    return Err(e);
                },
            }
        } else {
            let raw = match Ehdr64::read(bytes) {
                Ok(raw) => raw,
                Err(e) => {
                    return Err(e);
                },
            };
            match raw.pipe_validate() {
                Ok(raw) => raw.wrap(),
                Err(e) => {
                    return Err(e);
                },
            }
        };
        Ok(Ehdr(res))
    }

    /// Where in the file the table of segment headers starts.
    pub fn ph_offset(&self) -> (r: u64)
        ensures
            r == self.0.e_phoff,
    {
        self.0.e_phoff
    }

    /// The size in bytes of one entry of that table.
    pub fn ph_entry_size(&self) -> (r: usize)
        ensures
            r == self.0.e_phentsize,
    {
        self.0.e_phentsize as usize
    }

    /// The size in bytes of the whole table: entry size times entry count.
    pub fn ph_size(&self) -> (r: usize)
        ensures
            r == self.0.e_phentsize * self.0.e_phnum,
    {
        let size: usize = self.0.e_phentsize as usize;
        let count: usize = self.0.e_phnum as usize;
        assert(size * count <= 0xffff * 0xffff) by (nonlinear_arith)
            requires
                size <= 0xffff,
                count <= 0xffff,
        ;
        size * count
    }
}

/// Magic bytes that differ from the ELF magic in any one of the four
/// positions have the file rejected as malformed, whatever follows them.
pub proof fn lemma_wrong_magic_is_rejected(bytes: Seq<u8>, i: int)
    requires
        bytes.len() >= Ident::EI_NIDENT,
        0 <= i < 4,
        bytes[i] != Mag::ELFMAG@[i],
    ensures
        Ehdr::rejection(bytes) == Some(ElfError::MalformedMagic),
{
    assert(bytes.subrange(0, 4)[i] == bytes[i]);
}

/// Behind the magic, a class byte other than 1 and 2 has the file rejected
/// for its class. With a known class, a byte-order byte other than 1 and 2
/// has it rejected for its byte order. With both known and the whole header
/// there, a version byte other than 1 has it rejected for its version.
pub proof fn lemma_identity_is_checked(bytes: Seq<u8>)
    requires
        bytes.len() >= Ident::EI_NIDENT,
        Ident::has_magic(bytes),
    ensures
        bytes[4] != 1 && bytes[4] != 2 ==> Ehdr::rejection(bytes) == Some(
            ElfError::UnsupportedClass,
        ),
        (bytes[4] == 1 || bytes[4] == 2) && bytes[5] != 1 && bytes[5] != 2 ==> Ehdr::rejection(bytes)
            == Some(ElfError::UnsupportedEndianness),
        (bytes[4] == 1 || bytes[4] == 2) && (bytes[5] == 1 || bytes[5] == 2) && bytes.len()
            >= Ehdr::header_size(Class(bytes[4])) && bytes[6] != 1 ==> Ehdr::rejection(bytes)
            == Some(ElfError::UnsupportedVersion),
{
}

/// Whether `bytes` holds a whole header behind an identity block that is in
/// order: magic, class, byte order and version.
pub open spec fn identity_in_order(bytes: Seq<u8>) -> bool {
    &&& bytes.len() >= Ident::EI_NIDENT
    &&& Ident::has_magic(bytes)
    &&& Class(bytes[4]).is_known()
    &&& Data(bytes[5]).is_known()
    &&& Version(bytes[6]).is_current()
    &&& bytes.len() >= Ehdr::header_size(Class(bytes[4]))
}

/// Behind an identity block that is in order, a declared segment header size
/// other than the one of the class has the file rejected: 32 for a 32-bit
/// file, 56 for a 64-bit file, and neither passes for the other.
pub proof fn lemma_entry_size_is_checked(bytes: Seq<u8>)
    requires
        identity_in_order(bytes),
    ensures
        bytes[4] == 1 && Ehdr::declared_phentsize(bytes) != 32 ==> Ehdr::rejection(bytes) == Some(
            ElfError::SegmentHeaderSizeMismatch,
        ),
        bytes[4] == 2 && Ehdr::declared_phentsize(bytes) != 56 ==> Ehdr::rejection(bytes) == Some(
            ElfError::SegmentHeaderSizeMismatch,
        ),
{
}

/// Behind an identity block that is in order and with the right segment
/// header size, a segment count of `0xffff` has the file rejected, and any
/// other count has it accepted.
pub proof fn lemma_entry_count_is_checked(bytes: Seq<u8>)
    requires
        identity_in_order(bytes),
        Ehdr::declared_phentsize(bytes) == segment_header_size(Class(bytes[4])),
    ensures
        Ehdr::declared_phnum(bytes) == 0xffff ==> Ehdr::rejection(bytes) == Some(
            ElfError::ExtendedSegmentCountUnsupported,
        ),
        Ehdr::declared_phnum(bytes) != 0xffff ==> Ehdr::rejection(bytes) is None,
{
}

/// Widening is zero extension: in a header stored with address fields of
/// four bytes, the entry point and the two table offsets are below 2^32.
pub proof fn lemma_narrow_header_fits(h: EhdrN<nat>, bytes: Seq<u8>)
    requires
        h.is_stored_in(bytes, 4),
    ensures
        h.e_entry <= u32::MAX,
        h.e_phoff <= u32::MAX,
        h.e_shoff <= u32::MAX,
{
    lemma_value_of_four_bytes(bytes.subrange(24, 28));
    lemma_value_of_four_bytes(bytes.subrange(28, 32));
    lemma_value_of_four_bytes(bytes.subrange(32, 36));
}

} // verus!
