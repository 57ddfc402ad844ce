//! The sixteen bytes that open every ELF file.

use crate::endian::Endian;
use crate::error::ElfError;
use vstd::prelude::*;

verus! {

/// The four magic bytes.
#[derive(Debug, PartialEq, Eq, Hash, Clone, Copy)]
pub struct Mag(pub [u8; 4]);

impl Mag {
    /// The magic of an ELF file: `0x7f`, `E`, `L`, `F`.
    pub const ELFMAG: [u8; 4] = [0x7f, 0x45, 0x4c, 0x46];

    /// Whether these are the bytes an ELF file starts with.
    pub open spec fn is_elf(self) -> bool {
        self.0@ == Self::ELFMAG@
    }

    /// Whether these are the bytes an ELF file starts with.
    #[verifier::when_used_as_spec(is_elf)]
    pub fn valid(self) -> (r: bool)
        ensures
            r == self.is_elf(),
    {
        let r = self.0[0] == Self::ELFMAG[0] && self.0[1] == Self::ELFMAG[1] && self.0[2]
            == Self::ELFMAG[2] && self.0[3] == Self::ELFMAG[3];
        assert(r == (self.0@ =~= Self::ELFMAG@));
        r
    }
}

/// The address width of the file.
#[derive(Debug, PartialEq, Eq, Structural, Hash, Clone, Copy)]
pub struct Class(pub u8);

impl Class {
    /// No class: not a valid one.
    pub const ELFCLASSNONE: u8 = 0;

    /// Addresses and offsets of 32 bits.
    pub const ELFCLASS32: u8 = 1;

    /// Addresses and offsets of 64 bits.
    pub const ELFCLASS64: u8 = 2;

    /// Whether the class is one of the two address widths.
    pub open spec fn is_known(self) -> bool {
        self.0 == Self::ELFCLASS32 || self.0 == Self::ELFCLASS64
    }

    /// Whether the value is one that this library can read.
    #[verifier::when_used_as_spec(is_known)]
    pub fn valid(self) -> (r: bool)
        ensures
            r == self.is_known(),
    {
        self.0 == Self::ELFCLASS32 || self.0 == Self::ELFCLASS64
    }
}

/// The byte order of the file's multi-byte fields.
#[derive(Debug, PartialEq, Eq, Structural, Hash, Clone, Copy)]
pub struct Data(pub u8);

impl Data {
    /// No byte order: not a valid one.
    pub const ELFDATANONE: u8 = 0;

    /// Little-endian: least significant byte first.
    pub const ELFDATA2LSB: u8 = 1;

    /// Big-endian: most significant byte first.
    pub const ELFDATA2MSB: u8 = 2;

    /// Whether the byte order is one of the two known ones.
    pub open spec fn is_known(self) -> bool {
        self.0 == Self::ELFDATA2LSB || self.0 == Self::ELFDATA2MSB
    }

    /// Whether the value is one that this library can read.
    #[verifier::when_used_as_spec(is_known)]
    pub fn valid(self) -> (r: bool)
        ensures
            r == self.is_known(),
    {
        self.0 == Self::ELFDATA2LSB || self.0 == Self::ELFDATA2MSB
    }

    /// The byte order this value declares, if it declares one.
    pub open spec fn order(self) -> Option<Endian> {
        if self.0 == Self::ELFDATA2LSB {
            Some(Endian::Little)
        } else if self.0 == Self::ELFDATA2MSB {
            Some(Endian::Big)
        } else {
            None
        }
    }

    /// The byte order to decode the file's numbers with.
    #[verifier::when_used_as_spec(order)]
    pub fn endian(self) -> (r: Option<Endian>)
        ensures
            r == self.order(),
            r is Some <==> self.is_known(),
    {
        if self.0 == Self::ELFDATA2LSB {
            Some(Endian::Little)
        } else if self.0 == Self::ELFDATA2MSB {
            Some(Endian::Big)
        } else {
            None
        }
    }
}

/// The version of the format.
#[derive(Debug, PartialEq, Eq, Structural, Hash, Clone, Copy)]
pub struct Version(pub u8);

impl Version {
    /// The current version.
    pub const EV_CURRENT: u8 = 1;

    /// Whether this is the current version, the only one there is.
    pub open spec fn is_current(self) -> bool {
        self.0 == Self::EV_CURRENT
    }

    /// Whether this is the current version.
    #[verifier::when_used_as_spec(is_current)]
    pub fn valid(self) -> (r: bool)
        ensures
            r == self.is_current(),
    {
        self.0 == Self::EV_CURRENT
    }
}

/// The operating system or ABI the file is meant for. Not interpreted.
#[derive(Debug, PartialEq, Eq, Structural, Hash, Clone, Copy)]
pub struct OsAbi(pub u8);

/// The version of that ABI. Not interpreted.
#[derive(Debug, PartialEq, Eq, Structural, Hash, Clone, Copy)]
pub struct AbiVersion(pub u8);

/// The identity block: what kind of ELF file this is and how to read the rest.
#[derive(Debug, PartialEq, Eq, Clone, Copy)]
pub struct Ident {
    pub magic: [u8; 4],
    pub class: Class,
    pub data: Data,
    pub version: Version,
    pub os_abi: OsAbi,
    pub abi_version: AbiVersion,
    pub pad: [u8; 7],
}

impl Ident {
    /// The size of the identity block in bytes.
    pub const EI_NIDENT: usize = 16;

    /// Whether `bytes` opens with the ELF magic.
    pub open spec fn has_magic(bytes: Seq<u8>) -> bool {
        bytes.len() >= 4 && bytes.subrange(0, 4) == Mag::ELFMAG@
    }

    /// Why no identity block can be read from `bytes`, if none can.
    pub open spec fn unreadable(bytes: Seq<u8>) -> Option<ElfError> {
        if bytes.len() < Self::EI_NIDENT {
            Some(ElfError::Truncated)
        } else if !Self::has_magic(bytes) {
            Some(ElfError::MalformedMagic)
        } else {
            None
        }
    }

    /// Whether this is the identity block that the first sixteen bytes of
    /// `bytes` hold, field by field.
    pub open spec fn is_stored_in(self, bytes: Seq<u8>) -> bool {
        &&& bytes.len() >= Self::EI_NIDENT
        &&& self.magic@ == bytes.subrange(0, 4)
        &&& self.class.0 == bytes[4]
        &&& self.data.0 == bytes[5]
        &&& self.version.0 == bytes[6]
        &&& self.os_abi.0 == bytes[7]
        &&& self.abi_version.0 == bytes[8]
        &&& self.pad@ == bytes.subrange(9, 16)
    }

    /// The first rule of the format that this identity block breaks, if any:
    /// the class is checked first, then the byte order, then the version.
    pub open spec fn fault(self) -> Option<ElfError> {
        if !self.class.is_known() {
            Some(ElfError::UnsupportedClass)
        } else if !self.data.is_known() {
            Some(ElfError::UnsupportedEndianness)
        } else if !self.version.is_current() {
            Some(ElfError::UnsupportedVersion)
        } else {
            None
        }
    }

    /// Checks class, byte order and version, in that order.
    pub fn validate(&self) -> (r: Result<(), ElfError>)
        ensures
            r == match self.fault() {
                Some(e) => Err::<(), ElfError>(e),
                None => Ok(()),
            },
    {
        if !self.class.valid() {
            return Err(ElfError::UnsupportedClass);
        }
        if !self.data.valid() {
            return Err(ElfError::UnsupportedEndianness);
        }
        if !self.version.valid() {
            return Err(ElfError::UnsupportedVersion);
        }
        Ok(())
    }

    /// Decodes the identity block at the start of `bytes`. Bytes beyond the
    /// sixteenth are not looked at.
    pub fn read(bytes: &[u8]) -> (r: Result<Ident, ElfError>)
        ensures
            match r {
                Ok(id) => Self::unreadable(bytes@) is None && id.is_stored_in(bytes@),
                Err(e) => Self::unreadable(bytes@) == Some(e),
            },
    {
        if bytes.len() < Self::EI_NIDENT {
            return Err(ElfError::Truncated);
        }
        let magic: [u8; 4] = [bytes[0], bytes[1], bytes[2], bytes[3]];
        assert(magic@ =~= bytes@.subrange(0, 4));
        if !Mag(magic).valid() {
            return Err(ElfError::MalformedMagic);
        }
        let pad: [u8; 7] = [
            bytes[9],
            bytes[10],
            bytes[11],
            bytes[12],
            bytes[13],
            bytes[14],
            bytes[15],
        ];
        assert(pad@ =~= bytes@.subrange(9, 16));
        Ok(
            Ident {
                magic,
                class: Class(bytes[4]),
                data: Data(bytes[5]),
                version: Version(bytes[6]),
                os_abi: OsAbi(bytes[7]),
                abi_version: AbiVersion(bytes[8]),
                pad,
            },
        )
    }
}

/// Magic bytes that differ from the ELF magic in any one of the four
/// positions make the identity block malformed.
pub proof fn lemma_wrong_magic_is_malformed(bytes: Seq<u8>, i: int)
    requires
        bytes.len() >= Ident::EI_NIDENT,
        0 <= i < 4,
        bytes[i] != Mag::ELFMAG@[i],
    ensures
        Ident::unreadable(bytes) == Some(ElfError::MalformedMagic),
{
    assert(bytes.subrange(0, 4)[i] == bytes[i]);
}

/// Sixteen bytes or more that open with the magic always give an identity
/// block, whatever the other twelve bytes are.
pub proof fn lemma_magic_suffices(bytes: Seq<u8>)
    requires
        bytes.len() >= Ident::EI_NIDENT,
        bytes[0] == 0x7f,
        bytes[1] == 0x45,
        bytes[2] == 0x4c,
        bytes[3] == 0x46,
    ensures
        Ident::unreadable(bytes) is None,
{
    assert(bytes.subrange(0, 4) =~= Mag::ELFMAG@);
}

/// A class byte other than 1 and 2 is an unsupported class. With a known
/// class, a byte-order byte other than 1 and 2 is an unsupported byte order.
/// With both known, a version byte other than 1 is an unsupported version.
pub proof fn lemma_identity_faults(id: Ident)
    ensures
        id.class.0 != 1 && id.class.0 != 2 ==> id.fault() == Some(ElfError::UnsupportedClass),
        (id.class.0 == 1 || id.class.0 == 2) && id.data.0 != 1 && id.data.0 != 2 ==> id.fault()
            == Some(ElfError::UnsupportedEndianness),
        (id.class.0 == 1 || id.class.0 == 2) && (id.data.0 == 1 || id.data.0 == 2) && id.version.0
            != 1 ==> id.fault() == Some(ElfError::UnsupportedVersion),
        (id.class.0 == 1 || id.class.0 == 2) && (id.data.0 == 1 || id.data.0 == 2) && id.version.0
            == 1 ==> id.fault() is None,
{
}

} // verus!
