use initium::elf::{
    read_u16, read_u32, read_u64, u64_to_le_bytes, DynamicEntry, ElfFile, ObjectType,
    ProgramHeader, Rela, SegmentType,
};
use initium::error::LoadError;
use initium::kernel::relocations::{check_is_in_load, find_rela_table, RelaTable};

fn header(type_: u32, flags: u32) -> ProgramHeader {
    ProgramHeader { type_, flags, offset: 0, virtual_addr: 0x1000, physical_addr: 0, file_size: 0x10, mem_size: 0x20, align: 8 }
}

#[test]
fn integers_are_read_lowest_byte_first() {
    let bytes = [0x01u8, 0x02, 0x03, 0x04, 0x05, 0x06, 0x07, 0x08, 0x09];
    assert_eq!(read_u16(&bytes, 1), 0x0302);
    assert_eq!(read_u32(&bytes, 0), 0x0403_0201);
    assert_eq!(read_u64(&bytes, 1), 0x0908_0706_0504_0302);
    assert_eq!(u64_to_le_bytes(0x0908_0706_0504_0302), [2, 3, 4, 5, 6, 7, 8, 9]);
    assert_eq!(read_u64(&u64_to_le_bytes(u64::MAX - 5), 0), u64::MAX - 5);
}

#[test]
fn segment_types_are_decoded() {
    let types = [
        (0, Ok(SegmentType::Null)),
        (1, Ok(SegmentType::Load)),
        (2, Ok(SegmentType::Dynamic)),
        (3, Ok(SegmentType::Interp)),
        (4, Ok(SegmentType::Note)),
        (5, Ok(SegmentType::ShLib)),
        (6, Ok(SegmentType::Phdr)),
        (7, Ok(SegmentType::Tls)),
        (0x6474_e552, Ok(SegmentType::GnuRelro)),
        (0x6000_0000, Ok(SegmentType::OsSpecific(0x6000_0000))),
        (0x7fff_ffff, Ok(SegmentType::ProcessorSpecific(0x7fff_ffff))),
        (8, Err(LoadError::InvalidSegmentType)),
        (0x8000_0000, Err(LoadError::InvalidSegmentType)),
    ];
    for (raw, expected) in types {
        assert_eq!(header(raw, 0).get_type(), expected);
    }
    assert_eq!(LoadError::InvalidSegmentType.message(), "Invalid type");
}

#[test]
fn segment_permissions_are_decoded() {
    assert!(header(1, 1).is_execute() && !header(1, 1).is_write());
    assert!(!header(1, 2).is_execute() && header(1, 2).is_write());
    assert!(!header(1, 4).is_execute() && !header(1, 4).is_write());
    assert!(header(1, 0xffff_ffff).is_execute() && header(1, 0xffff_ffff).is_write());
}

#[test]
fn relocation_is_decoded() {
    let mut bytes = Vec::new();
    bytes.extend_from_slice(&0x1122u64.to_le_bytes());
    bytes.extend_from_slice(&0x0000_0007_0000_0008u64.to_le_bytes());
    bytes.extend_from_slice(&0xffff_ffff_ffff_fff0u64.to_le_bytes());
    let rela = Rela::decode(&bytes);
    assert_eq!(rela.get_offset(), 0x1122);
    assert_eq!(rela.get_symbol_table_index(), 7);
    assert_eq!(rela.get_type(), 8);
    assert_eq!(rela.get_addend(), 0xffff_ffff_ffff_fff0);
}

#[test]
fn headers_of_both_classes_are_read() {
    let mut wide = vec![0u8; 64 + 56];
    wide[..7].copy_from_slice(&[0x7f, b'E', b'L', b'F', 2, 1, 1]);
    wide[16] = 3;
    wide[24..32].copy_from_slice(&0x1234_5678_9abcu64.to_le_bytes());
    wide[32] = 64;
    wide[54] = 56;
    wide[56] = 1;
    wide[64] = 1;
    wide[64 + 4] = 6;
    wide[64 + 16..64 + 24].copy_from_slice(&0xffff_8000_0000_0000u64.to_le_bytes());
    let file = ElfFile::new(&wide).unwrap();
    assert!(file.header.is_64);
    assert_eq!(file.object_type(), ObjectType::SharedObject);
    assert_eq!(file.header.entry_point, 0x1234_5678_9abc);
    let segments = file.program_headers().unwrap();
    assert_eq!(segments.len(), 1);
    assert_eq!((segments[0].type_, segments[0].flags, segments[0].virtual_addr), (1, 6, 0xffff_8000_0000_0000));
    assert_eq!(file.check_header(), Err(LoadError::HeaderSizeMismatch));
    let mut narrow = vec![0u8; 52 + 32];
    narrow[..7].copy_from_slice(&[0x7f, b'E', b'L', b'F', 1, 1, 1]);
    narrow[16] = 2;
    narrow[24..28].copy_from_slice(&0x8049000u32.to_le_bytes());
    narrow[28] = 52;
    narrow[40] = 52;
    narrow[42] = 32;
    narrow[44] = 1;
    narrow[52] = 1;
    narrow[52 + 8..52 + 12].copy_from_slice(&0x8048000u32.to_le_bytes());
    narrow[52 + 24] = 5;
    let file = ElfFile::new(&narrow).unwrap();
    assert!(!file.header.is_64);
    assert_eq!(file.object_type(), ObjectType::Executable);
    assert_eq!(file.header.entry_point, 0x8049000);
    let segments = file.program_headers().unwrap();
    assert_eq!((segments[0].type_, segments[0].flags, segments[0].virtual_addr), (1, 5, 0x8048000));
    assert_eq!(file.check_header(), Ok(()));
    assert_eq!(file.check_segment(&segments[0]), Ok(()));
    assert_eq!(file.dynamic_entries(&segments[0]), Err(LoadError::MalformedDynamicSection));
    for (raw, object) in [(0u8, ObjectType::NoType), (1, ObjectType::Relocatable), (4, ObjectType::Core), (9, ObjectType::ProcessorSpecific(9))] {
        narrow[16] = raw;
        assert_eq!(ElfFile::new(&narrow).unwrap().object_type(), object);
    }
}

#[test]
fn headers_without_a_table_give_no_segments() {
    let mut bytes = vec![0u8; 64];
    bytes[..7].copy_from_slice(&[0x7f, b'E', b'L', b'F', 2, 1, 1]);
    bytes[56] = 3;
    assert_eq!(ElfFile::new(&bytes).unwrap().program_headers().unwrap().len(), 0);
    bytes[32] = 64;
    assert_eq!(ElfFile::new(&bytes).unwrap().program_headers().unwrap().len(), 0);
    bytes[54] = 56;
    assert_eq!(ElfFile::new(&bytes).unwrap().program_headers(), Err(LoadError::TruncatedProgramHeaders));
    bytes[56] = 0;
    assert_eq!(ElfFile::new(&bytes).unwrap().program_headers().unwrap().len(), 0);
}

#[test]
fn relocation_table_is_found() {
    let entry = |tag, value| DynamicEntry { tag, value };
    assert_eq!(find_rela_table(&vec![]), Ok(None));
    assert_eq!(
        find_rela_table(&vec![entry(9, 24), entry(5, 0), entry(7, 0x100), entry(8, 48), entry(0, 0)]),
        Ok(Some(RelaTable { offset: 0x100, total_size: 48, entry_size: 24 }))
    );
    assert_eq!(find_rela_table(&vec![entry(7, 1), entry(35, 0)]), Err(LoadError::InvalidTag));
    assert_eq!(find_rela_table(&vec![entry(0x6fff_fffb, 1), entry(0x6000_000c, 0)]), Err(LoadError::InvalidTag));
    assert_eq!(find_rela_table(&vec![entry(0x7000_0001, 1), entry(0x6000_000d, 0)]), Ok(None));
}

#[test]
fn offsets_are_looked_up_in_the_loaded_segments() {
    let segments = vec![header(2, 0), header(1, 4)];
    assert_eq!(check_is_in_load(&segments, 0x1000), Ok(()));
    assert_eq!(check_is_in_load(&segments, 0x101f), Ok(()));
    assert_eq!(check_is_in_load(&segments, 0x1020), Err(LoadError::OffsetNotInLoad));
    assert_eq!(check_is_in_load(&segments, 0xfff), Err(LoadError::OffsetNotInLoad));
    assert_eq!(check_is_in_load(&vec![header(2, 0)], 0x1000), Err(LoadError::OffsetNotInLoad));
}
