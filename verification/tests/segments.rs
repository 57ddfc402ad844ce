use elfcopyflat::elf::{Ehdr, EhdrN, Flags, Ident, Phdr, Phdr32, Phdr64, Type};
use elfcopyflat::elf::{AbiVersion, Class, Data, OsAbi, Version};
use elfcopyflat::endian::{read_u16, read_u32, read_u64, Endian};

fn word32(v: u32, big: bool) -> [u8; 4] {
    if big {
        v.to_be_bytes()
    } else {
        v.to_le_bytes()
    }
}

fn word64(v: u64, big: bool) -> [u8; 8] {
    if big {
        v.to_be_bytes()
    } else {
        v.to_le_bytes()
    }
}

/// The bytes of a 32-bit entry: type, offset, vaddr, paddr, filesz, memsz,
/// flags, align.
fn entry32(fields: [u32; 8], big: bool) -> Vec<u8> {
    let mut b: Vec<u8> = Vec::new();
    for f in fields {
        b.extend_from_slice(&word32(f, big));
    }
    b
}

/// The bytes of a 64-bit entry: type and flags, then offset, vaddr, paddr,
/// filesz, memsz, align.
fn entry64(p_type: u32, p_flags: u32, fields: [u64; 6], big: bool) -> Vec<u8> {
    let mut b: Vec<u8> = Vec::new();
    b.extend_from_slice(&word32(p_type, big));
    b.extend_from_slice(&word32(p_flags, big));
    for f in fields {
        b.extend_from_slice(&word64(f, big));
    }
    b
}

fn header_for(class: u8, data: u8) -> Ehdr {
    Ehdr(EhdrN {
        e_ident: Ident {
            magic: [0x7f, 0x45, 0x4c, 0x46],
            class: Class(class),
            data: Data(data),
            version: Version(1),
            os_abi: OsAbi(0),
            abi_version: AbiVersion(0),
            pad: [0; 7],
        },
        e_type: 2,
        e_machine: 0xf3,
        e_version: 1,
        e_entry: 0,
        e_phoff: 64,
        e_shoff: 0,
        e_flags: 0,
        e_ehsize: if class == 1 { 52 } else { 64 },
        e_phentsize: if class == 1 { 32 } else { 56 },
        e_phnum: 2,
        e_shentsize: 0,
        e_shnum: 0,
        e_shstrndx: 0,
    })
}

const FIELDS32: [u32; 8] = [
    1,
    0x0000_1000,
    0x8001_0000,
    0x8002_0000,
    0x0000_0234,
    0x0000_0400,
    5,
    0x0000_1000,
];

fn canonical32() -> Phdr {
    Phdr(Phdr64 {
        p_type: 1,
        p_flags: 5,
        p_offset: 0x1000,
        p_vaddr: 0x8001_0000,
        p_paddr: 0x8002_0000,
        p_filesz: 0x234,
        p_memsz: 0x400,
        p_align: 0x1000,
    })
}

const FIELDS64: [u64; 6] = [
    0x0000_0001_0000_2000,
    0xffff_ffff_8000_0000,
    0x0000_0000_8000_0000,
    0x0000_0000_0000_0abc,
    0x0000_0002_0000_0000,
    0x0000_0000_0020_0000,
];

fn canonical64() -> Phdr {
    Phdr(Phdr64 {
        p_type: 0x6474_e551,
        p_flags: 6,
        p_offset: 0x0000_0001_0000_2000,
        p_vaddr: 0xffff_ffff_8000_0000,
        p_paddr: 0x8000_0000,
        p_filesz: 0xabc,
        p_memsz: 0x0000_0002_0000_0000,
        p_align: 0x0020_0000,
    })
}

#[test]
fn integers_are_read_in_the_declared_order() {
    let bytes: [u8; 10] = [0xaa, 0x01, 0x02, 0x03, 0x04, 0x05, 0x06, 0x07, 0x08, 0xbb];
    assert_eq!(read_u16(&bytes, 1, Endian::Little), 0x0201);
    assert_eq!(read_u16(&bytes, 1, Endian::Big), 0x0102);
    assert_eq!(read_u32(&bytes, 1, Endian::Little), 0x0403_0201);
    assert_eq!(read_u32(&bytes, 1, Endian::Big), 0x0102_0304);
    assert_eq!(read_u64(&bytes, 1, Endian::Little), 0x0807_0605_0403_0201);
    assert_eq!(read_u64(&bytes, 1, Endian::Big), 0x0102_0304_0506_0708);
    assert_eq!(read_u16(&bytes, 8, Endian::Big), 0x08bb);
    assert_eq!(read_u64(&bytes, 2, Endian::Little), 0xbb08_0706_0504_0302);
}

#[test]
fn integers_with_the_top_bit_set_stay_unsigned() {
    let bytes: [u8; 8] = [0xff, 0xff, 0xff, 0xff, 0xff, 0xff, 0xff, 0x80];
    assert_eq!(read_u16(&bytes, 6, Endian::Little), 0x80ff);
    assert_eq!(read_u32(&bytes, 4, Endian::Little), 0x80ff_ffff);
    assert_eq!(read_u64(&bytes, 0, Endian::Little), 0x80ff_ffff_ffff_ffff);
    assert_eq!(read_u64(&bytes, 0, Endian::Big), 0xffff_ffff_ffff_ff80);
}

#[test]
fn entry_32_bit_is_decoded_in_its_own_field_order() {
    for big in [false, true] {
        let endian: Endian = if big { Endian::Big } else { Endian::Little };
        let raw: Phdr32 = Phdr32::read_from(&entry32(FIELDS32, big), endian).unwrap();
        assert_eq!(
            raw,
            Phdr32 {
                p_type: 1,
                p_offset: 0x1000,
                p_vaddr: 0x8001_0000,
                p_paddr: 0x8002_0000,
                p_filesz: 0x234,
                p_memsz: 0x400,
                p_flags: 5,
                p_align: 0x1000,
            }
        );
        assert_eq!(Phdr(raw.wrap()), canonical32());
    }
}

#[test]
fn entry_64_bit_is_decoded_in_its_own_field_order() {
    for big in [false, true] {
        let endian: Endian = if big { Endian::Big } else { Endian::Little };
        let raw: Phdr64 =
            Phdr64::read_from(&entry64(0x6474_e551, 6, FIELDS64, big), endian).unwrap();
        assert_eq!(Phdr(raw), canonical64());
        assert_eq!(raw.wrap(), raw);
    }
}

#[test]
fn entry_of_the_wrong_size_is_no_entry() {
    let bytes: Vec<u8> = entry64(1, 5, FIELDS64, false);
    assert_eq!(bytes.len(), 56);
    assert_eq!(Phdr32::read_from(&bytes, Endian::Little), None);
    assert_eq!(Phdr64::read_from(&bytes[..55], Endian::Little), None);
    assert_eq!(Phdr64::read_from(&[], Endian::Big), None);
    let bytes: Vec<u8> = entry32(FIELDS32, true);
    assert_eq!(bytes.len(), 32);
    assert_eq!(Phdr64::read_from(&bytes, Endian::Big), None);
    assert_eq!(Phdr32::read_from(&bytes[..31], Endian::Big), None);
    let mut longer: Vec<u8> = bytes.clone();
    longer.push(0);
    assert_eq!(Phdr32::read_from(&longer, Endian::Big), None);
    assert_eq!(Phdr32::SIZE, 32);
    assert_eq!(Phdr64::SIZE, 56);
}

#[test]
fn widening_an_entry_is_zero_extension() {
    let raw: Phdr32 = Phdr32 {
        p_type: 1,
        p_offset: 0xffff_ffff,
        p_vaddr: 0x8000_0000,
        p_paddr: 0xdead_beef,
        p_filesz: 0xf000_0000,
        p_memsz: 0xf000_0001,
        p_flags: 0x8000_0007,
        p_align: 0x8000_0000,
    };
    assert_eq!(
        raw.wrap(),
        Phdr64 {
            p_type: 1,
            p_flags: 0x8000_0007,
            p_offset: 0x0000_0000_ffff_ffff,
            p_vaddr: 0x0000_0000_8000_0000,
            p_paddr: 0x0000_0000_dead_beef,
            p_filesz: 0x0000_0000_f000_0000,
            p_memsz: 0x0000_0000_f000_0001,
            p_align: 0x0000_0000_8000_0000,
        }
    );
}

#[test]
fn from_bytes_follows_class_and_byte_order_of_the_header() {
    assert_eq!(Phdr::from_bytes(&entry32(FIELDS32, false), &header_for(1, 1)), canonical32());
    assert_eq!(Phdr::from_bytes(&entry32(FIELDS32, true), &header_for(1, 2)), canonical32());
    assert_eq!(
        Phdr::from_bytes(&entry64(0x6474_e551, 6, FIELDS64, false), &header_for(2, 1)),
        canonical64()
    );
    assert_eq!(
        Phdr::from_bytes(&entry64(0x6474_e551, 6, FIELDS64, true), &header_for(2, 2)),
        canonical64()
    );
}

#[test]
fn from_bytes_in_the_other_order_gives_other_numbers() {
    let p: Phdr = Phdr::from_bytes(&entry32(FIELDS32, false), &header_for(1, 2));
    assert_eq!(p.to_type(), Type(0x0100_0000));
    assert_eq!(p.address(), 0x0000_0180);
    assert_eq!(p.flags(), Flags(0x0500_0000));
}

#[test]
fn accessors_give_the_canonical_fields() {
    let p: Phdr = canonical64();
    assert_eq!(p.to_type(), Type(0x6474_e551));
    assert_eq!(p.flags(), Flags(6));
    assert_eq!(p.address(), 0xffff_ffff_8000_0000);
    assert_eq!(p.file_offset(), 0x0000_0001_0000_2000);
    assert_eq!(p.file_size(), 0xabc);
    assert_eq!(p.memory_size(), 0x0000_0002_0000_0000);
    assert_eq!(canonical32().to_type(), Type(Type::PT_LOAD));
}

#[test]
fn flag_bits() {
    assert_eq!(Flags::PF_X, 1);
    assert_eq!(Flags::PF_W, 2);
    assert_eq!(Flags::PF_R, 4);
    assert!(Flags(1).executable() && !Flags(1).writable() && !Flags(1).readable());
    assert!(!Flags(2).executable() && Flags(2).writable() && !Flags(2).readable());
    assert!(!Flags(4).executable() && !Flags(4).writable() && Flags(4).readable());
    assert!(Flags(7).executable() && Flags(7).writable() && Flags(7).readable());
    assert!(!Flags(0).executable() && !Flags(0).writable() && !Flags(0).readable());
    assert!(!Flags(0xffff_fff8).executable());
    assert!(!Flags(0xffff_fff8).writable());
    assert!(!Flags(0xffff_fff8).readable());
    assert!(Flags(0xffff_fffd).executable() && !Flags(0xffff_fffd).writable());
}

#[test]
fn table_is_read_entry_by_entry() {
    for big in [false, true] {
        let data: u8 = if big { 2 } else { 1 };
        let mut other: [u32; 8] = FIELDS32;
        other[2] = 0x1000;
        other[6] = 6;
        let mut bytes: Vec<u8> = entry32(FIELDS32, big);
        bytes.extend_from_slice(&entry32(other, big));
        let table: Vec<Phdr> = Phdr::read_table(&bytes, &header_for(1, data));
        assert_eq!(table.len(), 2);
        assert_eq!(table[0], canonical32());
        assert_eq!(table[1].address(), 0x1000);
        assert_eq!(table[1].flags(), Flags(6));

        let mut bytes: Vec<u8> = entry64(1, 5, FIELDS64, big);
        bytes.extend_from_slice(&entry64(0x6474_e551, 6, FIELDS64, big));
        bytes.extend_from_slice(&entry64(1, 7, [1, 2, 3, 4, 5, 6], big));
        let table: Vec<Phdr> = Phdr::read_table(&bytes, &header_for(2, data));
        assert_eq!(table.len(), 3);
        assert_eq!(table[0].to_type(), Type(1));
        assert_eq!(table[1], canonical64());
        assert_eq!(
            table[2],
            Phdr(Phdr64 {
                p_type: 1,
                p_flags: 7,
                p_offset: 1,
                p_vaddr: 2,
                p_paddr: 3,
                p_filesz: 4,
                p_memsz: 5,
                p_align: 6,
            })
        );
    }
}

#[test]
fn table_leaves_out_a_broken_last_entry() {
    let mut bytes: Vec<u8> = entry32(FIELDS32, false);
    bytes.extend_from_slice(&[0u8; 31]);
    let table: Vec<Phdr> = Phdr::read_table(&bytes, &header_for(1, 1));
    assert_eq!(table.len(), 1);
    assert_eq!(table[0], canonical32());
    let table: Vec<Phdr> = Phdr::read_table(&bytes[..31], &header_for(1, 1));
    assert_eq!(table.len(), 0);
    let table: Vec<Phdr> = Phdr::read_table(&[], &header_for(2, 2));
    assert_eq!(table.len(), 0);
}
