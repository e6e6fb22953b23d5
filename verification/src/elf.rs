use vstd::prelude::*;
use crate::error::LoadError;

verus! {

/// The number of bytes of the identification at the start of an ELF file.
pub const IDENT_SIZE: usize = 16;

/// The number of bytes of the header of a 32-bit ELF file.
pub const HEADER_SIZE_32: usize = 52;

/// The number of bytes of the header of a 64-bit ELF file.
pub const HEADER_SIZE_64: usize = 64;

/// The number of bytes of a program header of a 32-bit ELF file.
pub const PROGRAM_HEADER_SIZE_32: usize = 32;

/// The number of bytes of a program header of a 64-bit ELF file.
pub const PROGRAM_HEADER_SIZE_64: usize = 56;

/// The number of bytes of an entry of a 64-bit dynamic section.
pub const DYNAMIC_ENTRY_SIZE: usize = 16;

/// The number of bytes of a relocation with addend of a 64-bit ELF file.
pub const RELA_SIZE: u64 = 24;

/// The type of a segment that is to be loaded.
pub const PT_LOAD: u32 = 1;

/// The type of the segment that holds the dynamic section.
pub const PT_DYNAMIC: u32 = 2;

/// The type of the segment that names what is read-only after relocation.
pub const PT_GNU_RELRO: u32 = 0x6474_e552;

/// The tag of the dynamic entry that holds the address of the relocation table.
pub const DT_RELA: u64 = 7;

/// The tag of the dynamic entry that holds the size of the relocation table.
pub const DT_RELASZ: u64 = 8;

/// The tag of the dynamic entry that holds the size of one relocation.
pub const DT_RELAENT: u64 = 9;

/// The type of a relocation that adds the base address to the addend.
pub const R_X86_64_RELATIVE: u32 = 8;

/// The value of the two bytes at `at`, the low byte first.
pub open spec fn le_u16(bytes: Seq<u8>, at: int) -> int {
    bytes[at] + 0x100 * bytes[at + 1]
}

/// The value of the four bytes at `at`, the lowest byte first.
pub open spec fn le_u32(bytes: Seq<u8>, at: int) -> int {
    le_u16(bytes, at) + 0x1_0000 * le_u16(bytes, at + 2)
}

/// The value of the eight bytes at `at`, the lowest byte first.
pub open spec fn le_u64(bytes: Seq<u8>, at: int) -> int {
    le_u32(bytes, at) + 0x1_0000_0000 * le_u32(bytes, at + 4)
}

/// The eight bytes of `value`, the lowest byte first.
pub open spec fn le_bytes(value: u64) -> Seq<u8> {
    seq![
        (value % 0x100) as u8,
        (value / 0x100 % 0x100) as u8,
        (value / 0x1_0000 % 0x100) as u8,
        (value / 0x100_0000 % 0x100) as u8,
        (value / 0x1_0000_0000 % 0x100) as u8,
        (value / 0x100_0000_0000 % 0x100) as u8,
        (value / 0x1_0000_0000_0000 % 0x100) as u8,
        (value / 0x100_0000_0000_0000 % 0x100) as u8,
    ]
}

/// Reading the eight bytes of a value gives the value.
pub proof fn lemma_le_round_trip(value: u64)
    ensures
        le_bytes(value).len() == 8,
        le_u64(le_bytes(value), 0) == value,
{
    let v = value as int;
    let v1 = v / 0x100;
    let v2 = v1 / 0x100;
    let v3 = v2 / 0x100;
    let v4 = v3 / 0x100;
    let v5 = v4 / 0x100;
    let v6 = v5 / 0x100;
    let v7 = v6 / 0x100;
    vstd::arithmetic::div_mod::lemma_div_denominator(v, 0x100, 0x100);
    vstd::arithmetic::div_mod::lemma_div_denominator(v, 0x1_0000, 0x100);
    vstd::arithmetic::div_mod::lemma_div_denominator(v, 0x100_0000, 0x100);
    vstd::arithmetic::div_mod::lemma_div_denominator(v, 0x1_0000_0000, 0x100);
    vstd::arithmetic::div_mod::lemma_div_denominator(v, 0x100_0000_0000, 0x100);
    vstd::arithmetic::div_mod::lemma_div_denominator(v, 0x1_0000_0000_0000, 0x100);
    assert(v2 == v / 0x1_0000);
    assert(v3 == v / 0x100_0000);
    assert(v4 == v / 0x1_0000_0000);
    assert(v5 == v / 0x100_0000_0000);
    assert(v6 == v / 0x1_0000_0000_0000);
    assert(v7 == v / 0x100_0000_0000_0000);
    assert(v7 < 0x100);
    let b = le_bytes(value);
    assert(b[0] == v % 0x100 && b[1] == v1 % 0x100 && b[2] == v2 % 0x100 && b[3] == v3 % 0x100);
    assert(b[4] == v4 % 0x100 && b[5] == v5 % 0x100 && b[6] == v6 % 0x100 && b[7] == v7 % 0x100);
    assert(v == v % 0x100 + 0x100 * v1);
    assert(v1 == v1 % 0x100 + 0x100 * v2);
    assert(v2 == v2 % 0x100 + 0x100 * v3);
    assert(v3 == v3 % 0x100 + 0x100 * v4);
    assert(v4 == v4 % 0x100 + 0x100 * v5);
    assert(v5 == v5 % 0x100 + 0x100 * v6);
    assert(v6 == v6 % 0x100 + 0x100 * v7);
}

pub fn read_u16(bytes: &[u8], at: usize) -> (r: u16)
    requires
        at + 2 <= bytes.len(),
    ensures
        r == le_u16(bytes@, at as int),
{
    (bytes[at] as u16) + 0x100 * (bytes[at + 1] as u16)
}

pub fn read_u32(bytes: &[u8], at: usize) -> (r: u32)
    requires
        at + 4 <= bytes.len(),
    ensures
        r == le_u32(bytes@, at as int),
{
    (read_u16(bytes, at) as u32) + 0x1_0000 * (read_u16(bytes, at + 2) as u32)
}

pub fn read_u64(bytes: &[u8], at: usize) -> (r: u64)
    requires
        at + 8 <= bytes.len(),
    ensures
        r == le_u64(bytes@, at as int),
{
    (read_u32(bytes, at) as u64) + 0x1_0000_0000 * (read_u32(bytes, at + 4) as u64)
}

/// The eight bytes of `value`, the lowest byte first.
pub fn u64_to_le_bytes(value: u64) -> (r: [u8; 8])
    ensures
        r@ == le_bytes(value),
{
    let r = [
        (value % 0x100) as u8,
        (value / 0x100 % 0x100) as u8,
        (value / 0x1_0000 % 0x100) as u8,
        (value / 0x100_0000 % 0x100) as u8,
        (value / 0x1_0000_0000 % 0x100) as u8,
        (value / 0x100_0000_0000 % 0x100) as u8,
        (value / 0x1_0000_0000_0000 % 0x100) as u8,
        (value / 0x100_0000_0000_0000 % 0x100) as u8,
    ];
    assert(r@ =~= le_bytes(value));
    r
}

/// What kind of object an ELF file holds.
#[derive(Debug, Clone, Copy, PartialEq, Eq, Structural)]
pub enum ObjectType {
    NoType,
    Relocatable,
    Executable,
    SharedObject,
    Core,
    ProcessorSpecific(u16),
}

/// The kind of object that the type field `raw` of an ELF header stands for.
pub open spec fn object_type_of(raw: u16) -> ObjectType {
    if raw == 0 {
        ObjectType::NoType
    } else if raw == 1 {
        ObjectType::Relocatable
    } else if raw == 2 {
        ObjectType::Executable
    } else if raw == 3 {
        ObjectType::SharedObject
    } else if raw == 4 {
        ObjectType::Core
    } else {
        ObjectType::ProcessorSpecific(raw)
    }
}

/// `xmas_elf::header::Type_::as_type`: 0 to 4 stand for no type, relocatable,
/// executable, shared object and core file; every other value is handed on as
/// specific to a processor.
#[verifier::external_body]
fn object_type(raw: u16) -> (r: ObjectType)
    ensures
        r == object_type_of(raw),
{
    match xmas_elf::header::Type_(raw).as_type() {
        xmas_elf::header::Type::None => ObjectType::NoType,
        xmas_elf::header::Type::Relocatable => ObjectType::Relocatable,
        xmas_elf::header::Type::Executable => ObjectType::Executable,
        xmas_elf::header::Type::SharedObject => ObjectType::SharedObject,
        xmas_elf::header::Type::Core => ObjectType::Core,
        xmas_elf::header::Type::ProcessorSpecific(x) => ObjectType::ProcessorSpecific(x),
    }
}

/// `xmas_elf::program::Flags::is_execute`: whether bit 0 of the flags of a
/// segment is set.
#[verifier::external_body]
fn flags_is_execute(flags: u32) -> (r: bool)
    ensures
        r == (flags % 2 == 1),
{
    xmas_elf::program::Flags(flags).is_execute()
}

/// `xmas_elf::program::Flags::is_write`: whether bit 1 of the flags of a
/// segment is set.
#[verifier::external_body]
fn flags_is_write(flags: u32) -> (r: bool)
    ensures
        r == (flags / 2 % 2 == 1),
{
    xmas_elf::program::Flags(flags).is_write()
}

/// The kind of a segment.
#[derive(Debug, Clone, Copy, PartialEq, Eq, Structural)]
pub enum SegmentType {
    Null,
    Load,
    Dynamic,
    Interp,
    Note,
    ShLib,
    Phdr,
    Tls,
    GnuRelro,
    OsSpecific(u32),
    ProcessorSpecific(u32),
}

/// The kind of segment that the type field `raw` of a program header stands
/// for, if it is defined.
pub open spec fn segment_type_of(raw: u32) -> Result<SegmentType, LoadError> {
    if raw == 0 {
        Ok(SegmentType::Null)
    } else if raw == 1 {
        Ok(SegmentType::Load)
    } else if raw == 2 {
        Ok(SegmentType::Dynamic)
    } else if raw == 3 {
        Ok(SegmentType::Interp)
    } else if raw == 4 {
        Ok(SegmentType::Note)
    } else if raw == 5 {
        Ok(SegmentType::ShLib)
    } else if raw == 6 {
        Ok(SegmentType::Phdr)
    } else if raw == 7 {
        Ok(SegmentType::Tls)
    } else if raw == PT_GNU_RELRO {
        Ok(SegmentType::GnuRelro)
    } else if 0x6000_0000 <= raw <= 0x6fff_ffff {
        Ok(SegmentType::OsSpecific(raw))
    } else if 0x7000_0000 <= raw <= 0x7fff_ffff {
        Ok(SegmentType::ProcessorSpecific(raw))
    } else {
        Err(LoadError::InvalidSegmentType)
    }
}

/// A program header of an ELF file: one segment of the image.
#[derive(Debug, Clone, Copy, PartialEq, Eq, Structural)]
pub struct ProgramHeader {
    /// The kind of the segment, as the file encodes it.
    pub type_: u32,
    /// The permissions of the segment.
    pub flags: u32,
    /// Where the segment starts in the file.
    pub offset: u64,
    /// Where the segment starts in virtual memory.
    pub virtual_addr: u64,
    /// Where the segment starts in physical memory; not used.
    pub physical_addr: u64,
    /// The number of bytes that the file holds of the segment.
    pub file_size: u64,
    /// The number of bytes of the segment in memory.
    pub mem_size: u64,
    /// The alignment of the segment.
    pub align: u64,
}

impl ProgramHeader {
    /// The kind of the segment.
    pub fn get_type(&self) -> (r: Result<SegmentType, LoadError>)
        ensures
            r == segment_type_of(self.type_),
    {
        let raw = self.type_;
        if raw == 0 {
            Ok(SegmentType::Null)
        } else if raw == 1 {
            Ok(SegmentType::Load)
        } else if raw == 2 {
            Ok(SegmentType::Dynamic)
        } else if raw == 3 {
            Ok(SegmentType::Interp)
        } else if raw == 4 {
            Ok(SegmentType::Note)
        } else if raw == 5 {
            Ok(SegmentType::ShLib)
        } else if raw == 6 {
            Ok(SegmentType::Phdr)
        } else if raw == 7 {
            Ok(SegmentType::Tls)
        } else if raw == PT_GNU_RELRO {
            Ok(SegmentType::GnuRelro)
        } else if 0x6000_0000 <= raw && raw <= 0x6fff_ffff {
            Ok(SegmentType::OsSpecific(raw))
        } else if 0x7000_0000 <= raw && raw <= 0x7fff_ffff {
            Ok(SegmentType::ProcessorSpecific(raw))
        } else {
            Err(LoadError::InvalidSegmentType)
        }
    }

    /// Whether the segment is to be loaded.
    pub open spec fn is_load(self) -> bool {
        self.type_ == PT_LOAD
    }

    /// Whether the segment may be executed.
    pub open spec fn executable(self) -> bool {
        self.flags % 2 == 1
    }

    /// Whether the segment may be written.
    pub open spec fn writable(self) -> bool {
        self.flags / 2 % 2 == 1
    }

    /// Whether the segment may be executed.
    pub fn is_execute(&self) -> (r: bool)
        ensures
            r == self.executable(),
    {
        flags_is_execute(self.flags)
    }

    /// Whether the segment may be written.
    pub fn is_write(&self) -> (r: bool)
        ensures
            r == self.writable(),
    {
        flags_is_write(self.flags)
    }
}

/// The header of an ELF file.
#[derive(Debug, Clone, Copy, PartialEq, Eq, Structural)]
pub struct ElfHeader {
    /// Whether the file is a 64-bit file; a 32-bit file otherwise.
    pub is_64: bool,
    /// The data encoding that the file names.
    pub data: u8,
    /// The version that the identification names.
    pub version: u8,
    /// The kind of object, as the file encodes it.
    pub type_: u16,
    pub machine: u16,
    /// The virtual address at which the image is entered.
    pub entry_point: u64,
    /// Where the program header table starts in the file.
    pub ph_offset: u64,
    /// Where the section header table starts in the file.
    pub sh_offset: u64,
    /// The size of this header, as the file gives it.
    pub header_size: u16,
    /// The size of one entry of the program header table.
    pub ph_entry_size: u16,
    /// The number of entries of the program header table.
    pub ph_count: u16,
    /// The size of one entry of the section header table.
    pub sh_entry_size: u16,
    /// The number of entries of the section header table.
    pub sh_count: u16,
}

/// The header that a file starts with, or why the file has none.
pub open spec fn header_of(bytes: Seq<u8>) -> Result<ElfHeader, LoadError> {
    if bytes.len() < IDENT_SIZE {
        Err(LoadError::TruncatedIdent)
    } else if !(bytes[0] == 0x7f && bytes[1] == 0x45 && bytes[2] == 0x4c && bytes[3] == 0x46) {
        Err(LoadError::BadMagic)
    } else if bytes[4] == 1 {
        if bytes.len() < HEADER_SIZE_32 {
            Err(LoadError::TruncatedHeader)
        } else {
            Ok(
                ElfHeader {
                    is_64: false,
                    data: bytes[5],
                    version: bytes[6],
                    type_: le_u16(bytes, 16) as u16,
                    machine: le_u16(bytes, 18) as u16,
                    entry_point: le_u32(bytes, 24) as u64,
                    ph_offset: le_u32(bytes, 28) as u64,
                    sh_offset: le_u32(bytes, 32) as u64,
                    header_size: le_u16(bytes, 40) as u16,
                    ph_entry_size: le_u16(bytes, 42) as u16,
                    ph_count: le_u16(bytes, 44) as u16,
                    sh_entry_size: le_u16(bytes, 46) as u16,
                    sh_count: le_u16(bytes, 48) as u16,
                },
            )
        }
    } else if bytes[4] == 2 {
        if bytes.len() < HEADER_SIZE_64 {
            Err(LoadError::TruncatedHeader)
        } else {
            Ok(
                ElfHeader {
                    is_64: true,
                    data: bytes[5],
                    version: bytes[6],
                    type_: le_u16(bytes, 16) as u16,
                    machine: le_u16(bytes, 18) as u16,
                    entry_point: le_u64(bytes, 24) as u64,
                    ph_offset: le_u64(bytes, 32) as u64,
                    sh_offset: le_u64(bytes, 40) as u64,
                    header_size: le_u16(bytes, 52) as u16,
                    ph_entry_size: le_u16(bytes, 54) as u16,
                    ph_count: le_u16(bytes, 56) as u16,
                    sh_entry_size: le_u16(bytes, 58) as u16,
                    sh_count: le_u16(bytes, 60) as u16,
                },
            )
        }
    } else {
        Err(LoadError::InvalidClass)
    }
}

/// The program header that starts at `at`.
pub open spec fn program_header_at(bytes: Seq<u8>, is_64: bool, at: int) -> ProgramHeader {
    if is_64 {
        ProgramHeader {
            type_: le_u32(bytes, at) as u32,
            flags: le_u32(bytes, at + 4) as u32,
            offset: le_u64(bytes, at + 8) as u64,
            virtual_addr: le_u64(bytes, at + 16) as u64,
            physical_addr: le_u64(bytes, at + 24) as u64,
            file_size: le_u64(bytes, at + 32) as u64,
            mem_size: le_u64(bytes, at + 40) as u64,
            align: le_u64(bytes, at + 48) as u64,
        }
    } else {
        ProgramHeader {
            type_: le_u32(bytes, at) as u32,
            offset: le_u32(bytes, at + 4) as u64,
            virtual_addr: le_u32(bytes, at + 8) as u64,
            physical_addr: le_u32(bytes, at + 12) as u64,
            file_size: le_u32(bytes, at + 16) as u64,
            mem_size: le_u32(bytes, at + 20) as u64,
            flags: le_u32(bytes, at + 24) as u32,
            align: le_u32(bytes, at + 28) as u64,
        }
    }
}

/// The number of bytes of a program header of a file of the given class.
pub open spec fn program_header_size(is_64: bool) -> int {
    if is_64 {
        PROGRAM_HEADER_SIZE_64 as int
    } else {
        PROGRAM_HEADER_SIZE_32 as int
    }
}

/// Whether the header names a program header table.
pub open spec fn has_program_headers(header: ElfHeader) -> bool {
    header.ph_offset > 0 && header.ph_entry_size > 0
}

/// Whether the program header table lies within a file of `len` bytes and its
/// entries are large enough to hold a program header.
pub open spec fn program_headers_readable(header: ElfHeader, len: int) -> bool {
    header.ph_count > 0 ==> header.ph_entry_size >= program_header_size(header.is_64)
        && header.ph_offset + header.ph_count * header.ph_entry_size <= len
}

/// The program headers of a file: those that the table of the header holds;
/// none where the header names no table.
pub open spec fn program_headers_of(bytes: Seq<u8>, header: ElfHeader) -> Result<
    Seq<ProgramHeader>,
    LoadError,
> {
    if !has_program_headers(header) {
        Ok(Seq::empty())
    } else if !program_headers_readable(header, bytes.len() as int) {
        Err(LoadError::TruncatedProgramHeaders)
    } else {
        Ok(
            Seq::new(
                header.ph_count as nat,
                |i: int|
                    program_header_at(
                        bytes,
                        header.is_64,
                        header.ph_offset + i * header.ph_entry_size,
                    ),
            ),
        )
    }
}

/// What is checked of the header before an image is loaded.
pub open spec fn header_checked(header: ElfHeader, len: int) -> Result<(), LoadError> {
    if IDENT_SIZE + (if header.is_64 {
        HEADER_SIZE_64 - IDENT_SIZE
    } else {
        HEADER_SIZE_32 - IDENT_SIZE
    }) != header.header_size {
        Err(LoadError::HeaderSizeMismatch)
    } else if header.version == 0 {
        Err(LoadError::NoVersion)
    } else if header.data == 0 {
        Err(LoadError::NoDataFormat)
    } else if header.ph_offset + header.ph_entry_size * header.ph_count > len {
        Err(LoadError::ProgramTableOutOfRange)
    } else if header.sh_offset + header.sh_entry_size * header.sh_count > len {
        Err(LoadError::SectionTableOutOfRange)
    } else {
        Ok(())
    }
}

/// What is checked of a program header before an image is loaded.
pub open spec fn segment_checked(segment: ProgramHeader, header: ElfHeader, len: int) -> Result<
    (),
    LoadError,
> {
    if program_header_size(header.is_64) != header.ph_entry_size {
        Err(LoadError::ProgramHeaderSizeMismatch)
    } else if segment.offset + segment.file_size >= len {
        Err(LoadError::SegmentOutOfRange)
    } else if segment_type_of(segment.type_) is Err {
        Err(LoadError::InvalidSegmentType)
    } else if segment_type_of(segment.type_) == Ok::<SegmentType, LoadError>(SegmentType::ShLib) {
        Err(LoadError::ShLibSegment)
    } else if segment.align > 1 && segment.virtual_addr % segment.align != segment.offset
        % segment.align {
        Err(LoadError::InvalidAlignment)
    } else {
        Ok(())
    }
}

/// An entry of the dynamic section.
#[derive(Debug, Clone, Copy, PartialEq, Eq, Structural)]
pub struct DynamicEntry {
    pub tag: u64,
    pub value: u64,
}

/// Whether `tag` is a tag that a dynamic entry may have.
pub open spec fn valid_tag(tag: u64) -> bool {
    tag <= 30 || 32 <= tag <= 34 || 0x6000_000d <= tag <= 0x6fff_ffff || 0x7000_0000 <= tag
        <= 0x7fff_ffff
}

/// The entries of the dynamic section that the segment `segment` holds, in a
/// file whose header is `header`.
pub open spec fn dynamic_entries_of(bytes: Seq<u8>, header: ElfHeader, segment: ProgramHeader) -> Result<
    Seq<DynamicEntry>,
    LoadError,
> {
    if !header.is_64 || segment.offset + segment.file_size > bytes.len() || segment.file_size
        % (DYNAMIC_ENTRY_SIZE as u64) != 0 {
        Err(LoadError::MalformedDynamicSection)
    } else {
        Ok(
            Seq::new(
                (segment.file_size / (DYNAMIC_ENTRY_SIZE as u64)) as nat,
                |i: int|
                    DynamicEntry {
                        tag: le_u64(bytes, segment.offset + i * DYNAMIC_ENTRY_SIZE) as u64,
                        value: le_u64(bytes, segment.offset + i * DYNAMIC_ENTRY_SIZE + 8) as u64,
                    },
            ),
        )
    }
}

/// A relocation with addend.
#[derive(Debug, Clone, Copy, PartialEq, Eq, Structural)]
pub struct Rela {
    pub offset: u64,
    pub info: u64,
    pub addend: u64,
}

impl Rela {
    /// The relocation that the 24 bytes at the start of `bytes` encode.
    pub open spec fn decoded(bytes: Seq<u8>) -> Rela {
        Rela {
            offset: le_u64(bytes, 0) as u64,
            info: le_u64(bytes, 8) as u64,
            addend: le_u64(bytes, 16) as u64,
        }
    }

    /// The relocation that the 24 bytes at the start of `bytes` encode.
    pub fn decode(bytes: &[u8]) -> (r: Rela)
        requires
            bytes@.len() >= RELA_SIZE,
        ensures
            r == Rela::decoded(bytes@),
    {
        Rela { offset: read_u64(bytes, 0), info: read_u64(bytes, 8), addend: read_u64(bytes, 16) }
    }

    /// The index of the symbol that the relocation refers to: the upper half
    /// of `info`.
    pub open spec fn symbol_table_index(self) -> u32 {
        (self.info / 0x1_0000_0000) as u32
    }

    /// The type of the relocation: the lower half of `info`.
    pub open spec fn relocation_type(self) -> u32 {
        (self.info % 0x1_0000_0000) as u32
    }

    pub fn get_offset(&self) -> (r: u64)
        ensures
            r == self.offset,
    {
        self.offset
    }

    pub fn get_addend(&self) -> (r: u64)
        ensures
            r == self.addend,
    {
        self.addend
    }

    pub fn get_symbol_table_index(&self) -> (r: u32)
        ensures
            r == self.symbol_table_index(),
    {
        (self.info / 0x1_0000_0000) as u32
    }

    pub fn get_type(&self) -> (r: u32)
        ensures
            r == self.relocation_type(),
    {
        (self.info % 0x1_0000_0000) as u32
    }
}

/// An ELF file: its bytes and its header.
#[derive(Debug, Clone, Copy)]
pub struct ElfFile<'a> {
    pub input: &'a [u8],
    pub header: ElfHeader,
}

impl<'a> ElfFile<'a> {
    /// The invariant of the type: the header is that of the bytes.
    pub open spec fn wf(&self) -> bool {
        header_of(self.input@) == Ok::<ElfHeader, LoadError>(self.header)
    }

    /// Reads the header of `input`.
    pub fn new(input: &'a [u8]) -> (r: Result<ElfFile<'a>, LoadError>)
        ensures
            r is Ok == header_of(input@) is Ok,
            r matches Ok(file) ==> file.input@ == input@ && Ok::<ElfHeader, LoadError>(file.header)
                == header_of(input@) && file.wf(),
            r matches Err(e) ==> Err::<ElfHeader, LoadError>(e) == header_of(input@),
    {
        if input.len() < IDENT_SIZE {
            return Err(LoadError::TruncatedIdent);
        }
        if !(input[0] == 0x7f && input[1] == 0x45 && input[2] == 0x4c && input[3] == 0x46) {
            return Err(LoadError::BadMagic);
        }
        let class = input[4];
        if class == 1 {
            if input.len() < HEADER_SIZE_32 {
                return Err(LoadError::TruncatedHeader);
            }
            let header = ElfHeader {
                is_64: false,
                data: input[5],
                version: input[6],
                type_: read_u16(input, 16),
                machine: read_u16(input, 18),
                entry_point: read_u32(input, 24) as u64,
                ph_offset: read_u32(input, 28) as u64,
                sh_offset: read_u32(input, 32) as u64,
                header_size: read_u16(input, 40),
                ph_entry_size: read_u16(input, 42),
                ph_count: read_u16(input, 44),
                sh_entry_size: read_u16(input, 46),
                sh_count: read_u16(input, 48),
            };
            Ok(ElfFile { input, header })
        } else if class == 2 {
            if input.len() < HEADER_SIZE_64 {
                return Err(LoadError::TruncatedHeader);
            }
            let header = ElfHeader {
                is_64: true,
                data: input[5],
                version: input[6],
                type_: read_u16(input, 16),
                machine: read_u16(input, 18),
                entry_point: read_u64(input, 24),
                ph_offset: read_u64(input, 32),
                sh_offset: read_u64(input, 40),
                header_size: read_u16(input, 52),
                ph_entry_size: read_u16(input, 54),
                ph_count: read_u16(input, 56),
                sh_entry_size: read_u16(input, 58),
                sh_count: read_u16(input, 60),
            };
            Ok(ElfFile { input, header })
        } else {
            Err(LoadError::InvalidClass)
        }
    }

    /// The kind of object that the file holds.
    pub fn object_type(&self) -> (r: ObjectType)
        ensures
            r == object_type_of(self.header.type_),
    {
        object_type(self.header.type_)
    }

    /// The program headers of the file.
    pub fn program_headers(&self) -> (r: Result<Vec<ProgramHeader>, LoadError>)
        ensures
            r is Ok == program_headers_of(self.input@, self.header) is Ok,
            r matches Ok(headers) ==> Ok::<Seq<ProgramHeader>, LoadError>(headers@)
                == program_headers_of(self.input@, self.header),
            r matches Err(e) ==> Err::<Seq<ProgramHeader>, LoadError>(e) == program_headers_of(
                self.input@,
                self.header,
            ),
    {
        let header = self.header;
        let mut headers: Vec<ProgramHeader> = Vec::new();
        if !(header.ph_offset > 0 && header.ph_entry_size > 0) {
            assert(headers@ =~= Seq::<ProgramHeader>::empty());
            return Ok(headers);
        }
        let len = self.input.len();
        let entry_size: usize = header.ph_entry_size as usize;
        let count: usize = header.ph_count as usize;
        let size: usize = if header.is_64 {
            PROGRAM_HEADER_SIZE_64
        } else {
            PROGRAM_HEADER_SIZE_32
        };
        if count == 0 {
            assert(headers@ =~= program_headers_of(self.input@, self.header).unwrap());
            return Ok(headers);
        }
        assert(count * entry_size <= 0xffff * 0xffff) by (nonlinear_arith)
            requires
                count <= 0xffff,
                entry_size <= 0xffff,
        ;
        if entry_size < size || header.ph_offset > len as u64 {
            return Err(LoadError::TruncatedProgramHeaders);
        }
        let start: usize = header.ph_offset as usize;
        if count * entry_size > len - start {
            return Err(LoadError::TruncatedProgramHeaders);
        }
        let mut i: usize = 0;
        while i < count
            invariant
                i <= count,
                count == header.ph_count,
                entry_size == header.ph_entry_size,
                start == header.ph_offset,
                size == program_header_size(header.is_64),
                header == self.header,
                len == self.input@.len(),
                has_program_headers(header),
                program_headers_readable(header, len as int),
                len == self.input.len(),
                start + count * entry_size <= len,
                headers@.len() == i,
                forall|j: int|
                    0 <= j < i ==> headers@[j] == program_header_at(
                        self.input@,
                        header.is_64,
                        start + j * entry_size,
                    ),
            decreases count - i,
        {
            assert(start + i * entry_size + entry_size <= start + count * entry_size)
                by (nonlinear_arith)
                requires
                    i < count,
                    0 <= entry_size,
            ;
            assert(0 <= i * entry_size) by (nonlinear_arith)
                requires
                    0 <= i,
                    0 <= entry_size,
            ;
            let at: usize = start + i * entry_size;
            let segment = self.read_program_header(at);
            headers.push(segment);
            i += 1;
        }
        assert(headers@ =~= program_headers_of(self.input@, self.header).unwrap());
        Ok(headers)
    }

    /// Reads the program header that starts at `at`.
    fn read_program_header(&self, at: usize) -> (r: ProgramHeader)
        requires
            at + program_header_size(self.header.is_64) <= self.input.len(),
        ensures
            r == program_header_at(self.input@, self.header.is_64, at as int),
    {
        let bytes = self.input;
        if self.header.is_64 {
            ProgramHeader {
                type_: read_u32(bytes, at),
                flags: read_u32(bytes, at + 4),
                offset: read_u64(bytes, at + 8),
                virtual_addr: read_u64(bytes, at + 16),
                physical_addr: read_u64(bytes, at + 24),
                file_size: read_u64(bytes, at + 32),
                mem_size: read_u64(bytes, at + 40),
                align: read_u64(bytes, at + 48),
            }
        } else {
            ProgramHeader {
                type_: read_u32(bytes, at),
                offset: read_u32(bytes, at + 4) as u64,
                virtual_addr: read_u32(bytes, at + 8) as u64,
                physical_addr: read_u32(bytes, at + 12) as u64,
                file_size: read_u32(bytes, at + 16) as u64,
                mem_size: read_u32(bytes, at + 20) as u64,
                flags: read_u32(bytes, at + 24),
                align: read_u32(bytes, at + 28) as u64,
            }
        }
    }

    /// Checks the header: its size, version and data encoding, and that the
    /// tables it names lie within the file.
    pub fn check_header(&self) -> (r: Result<(), LoadError>)
        ensures
            r == header_checked(self.header, self.input@.len() as int),
    {
        let header = self.header;
        let len = self.input.len() as u128;
        let size: u16 = if header.is_64 {
            64
        } else {
            52
        };
        if size != header.header_size {
            return Err(LoadError::HeaderSizeMismatch);
        }
        if header.version == 0 {
            return Err(LoadError::NoVersion);
        }
        if header.data == 0 {
            return Err(LoadError::NoDataFormat);
        }
        assert(header.ph_entry_size * header.ph_count <= 0xffff * 0xffff) by (nonlinear_arith)
            requires
                header.ph_entry_size <= 0xffff,
                header.ph_count <= 0xffff,
        ;
        assert(header.sh_entry_size * header.sh_count <= 0xffff * 0xffff) by (nonlinear_arith)
            requires
                header.sh_entry_size <= 0xffff,
                header.sh_count <= 0xffff,
        ;
        if header.ph_offset as u128 + (header.ph_entry_size as u128) * (header.ph_count as u128)
            > len {
            return Err(LoadError::ProgramTableOutOfRange);
        }
        if header.sh_offset as u128 + (header.sh_entry_size as u128) * (header.sh_count as u128)
            > len {
            return Err(LoadError::SectionTableOutOfRange);
        }
        Ok(())
    }

    /// Checks a program header: that the table's entries have its size, that
    /// the segment ends before the file does, that its type is defined and in
    /// use, and that its address and file offset agree up to its alignment.
    pub fn check_segment(&self, segment: &ProgramHeader) -> (r: Result<(), LoadError>)
        ensures
            r == segment_checked(*segment, self.header, self.input@.len() as int),
    {
        let size: u16 = if self.header.is_64 {
            56
        } else {
            32
        };
        if size != self.header.ph_entry_size {
            return Err(LoadError::ProgramHeaderSizeMismatch);
        }
        if segment.offset as u128 + segment.file_size as u128 >= self.input.len() as u128 {
            return Err(LoadError::SegmentOutOfRange);
        }
        match segment.get_type() {
            Err(_) => {
                return Err(LoadError::InvalidSegmentType);
            },
            Ok(SegmentType::ShLib) => {
                return Err(LoadError::ShLibSegment);
            },
            Ok(_) => {},
        }
        if segment.align > 1 && segment.virtual_addr % segment.align != segment.offset
            % segment.align {
            return Err(LoadError::InvalidAlignment);
        }
        Ok(())
    }

    /// The entries of the dynamic section that `segment` holds.
    pub fn dynamic_entries(&self, segment: &ProgramHeader) -> (r: Result<
        Vec<DynamicEntry>,
        LoadError,
    >)
        ensures
            r is Ok == dynamic_entries_of(self.input@, self.header, *segment) is Ok,
            r matches Ok(entries) ==> Ok::<Seq<DynamicEntry>, LoadError>(entries@)
                == dynamic_entries_of(self.input@, self.header, *segment),
            r matches Err(e) ==> Err::<Seq<DynamicEntry>, LoadError>(e) == dynamic_entries_of(
                self.input@,
                self.header,
                *segment,
            ),
    {
        let len = self.input.len();
        if !self.header.is_64 || segment.offset as u128 + segment.file_size as u128 > len as u128
            || segment.file_size % (DYNAMIC_ENTRY_SIZE as u64) != 0 {
            return Err(LoadError::MalformedDynamicSection);
        }
        let start: usize = segment.offset as usize;
        let count: usize = (segment.file_size / (DYNAMIC_ENTRY_SIZE as u64)) as usize;
        assert(count * DYNAMIC_ENTRY_SIZE == segment.file_size);
        let mut entries: Vec<DynamicEntry> = Vec::new();
        let mut i: usize = 0;
        while i < count
            invariant
                i <= count,
                count == segment.file_size / (DYNAMIC_ENTRY_SIZE as u64),
                start == segment.offset,
                start + segment.file_size <= self.input.len(),
                count * DYNAMIC_ENTRY_SIZE == segment.file_size,
                entries@.len() == i,
                forall|j: int|
                    0 <= j < i ==> entries@[j] == (DynamicEntry {
                        tag: le_u64(self.input@, start + j * DYNAMIC_ENTRY_SIZE) as u64,
                        value: le_u64(self.input@, start + j * DYNAMIC_ENTRY_SIZE + 8) as u64,
                    }),
            decreases count - i,
        {
            let at: usize = start + i * DYNAMIC_ENTRY_SIZE;
            entries.push(
                DynamicEntry { tag: read_u64(self.input, at), value: read_u64(self.input, at + 8) },
            );
            i += 1;
        }
        assert(entries@ =~= dynamic_entries_of(self.input@, self.header, *segment).unwrap());
        Ok(entries)
    }
}

} // verus!
