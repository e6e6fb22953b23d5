use vstd::prelude::*;

verus! {

/// Why a kernel image could not be read or loaded.
#[derive(Clone, Copy, Debug, PartialEq, Eq, Structural)]
pub enum LoadError {
    /// The file is shorter than the identification at the start of an ELF file.
    TruncatedIdent,
    /// The file does not start with the ELF magic number.
    BadMagic,
    /// The file is neither a 32-bit nor a 64-bit ELF file.
    InvalidClass,
    /// The file is shorter than the ELF header.
    TruncatedHeader,
    /// The program header table reaches beyond the end of the file, or its
    /// entries are smaller than a program header.
    TruncatedProgramHeaders,
    /// A program header has a type that is not defined.
    InvalidSegmentType,
    /// The size of a program header table entry is not that of a program header.
    ProgramHeaderSizeMismatch,
    /// A segment reaches to the end of the file or beyond it.
    SegmentOutOfRange,
    /// A segment of the reserved type `PT_SHLIB`.
    ShLibSegment,
    /// Address, file offset and alignment of a segment do not fit together.
    InvalidAlignment,
    /// The header's own size as the header gives it is wrong.
    HeaderSizeMismatch,
    /// The header names no version.
    NoVersion,
    /// The header names no data encoding.
    NoDataFormat,
    /// The program header table does not lie within the file.
    ProgramTableOutOfRange,
    /// The section header table does not lie within the file.
    SectionTableOutOfRange,
    /// The dynamic section holds a tag that is not defined.
    InvalidTag,
    /// The dynamic section has not the form of a 64-bit dynamic section.
    MalformedDynamicSection,
    /// The image does not start at a multiple of the page size.
    KernelNotAligned,
    /// The image is of a type that cannot be loaded: neither an executable nor
    /// a shared object.
    UnsupportedObjectType,
    /// There is no room in the address space for the image.
    NoFreeAddress,
    /// An address that had to be computed does not exist.
    AddressOutOfRange,
    /// A page of a segment is mapped already.
    MapToFailed,
    /// A page that a segment needs zeroed is mapped already.
    BssMapToFailed,
    /// No frame is left.
    FrameAllocationFailed,
    /// A page that had to be read or changed is not mapped.
    PageNotMapped,
    /// A byte that had to be read lies in a frame of which the boot loader
    /// neither knows nor decides what it holds.
    ContentsUnknown,
    /// More than one segment with a thread-local storage template.
    MultipleTlsSegments,
    /// The dynamic section names the relocation table twice.
    MultipleRela,
    /// The dynamic section gives the size of the relocation table twice.
    MultipleRelaSize,
    /// The dynamic section gives the size of a relocation twice.
    MultipleRelaEnt,
    /// The dynamic section gives sizes for a relocation table that it does not name.
    RelaMissing,
    /// The dynamic section names a relocation table without its size.
    RelaSizeMissing,
    /// The dynamic section names a relocation table without the size of a relocation.
    RelaEntMissing,
    /// The relocations have a size, refer to a symbol, or are of a type that
    /// the loader does not handle.
    UnsupportedRelocation,
    /// A relocation is to be applied outside of every loaded segment.
    OffsetNotInLoad,
    /// An address that was reserved has not the alignment that was asked for.
    AddressNotAligned,
    /// The memory map has more regions than the array that is to hold it.
    MemoryMapOverflow,
    /// The kernel's file reaches beyond the memory region in which it starts or
    /// ends.
    KernelOutsideRegion,
    /// There is a mapping for the framebuffer, but no framebuffer.
    FramebufferMissing,
}

impl LoadError {
    /// Whether the boot loader halts on the error with a message of its own,
    /// rather than with the message that `message` gives.
    pub open spec fn spec_is_fatal(self) -> bool {
        self is TruncatedProgramHeaders || self is MalformedDynamicSection || self
            is UnsupportedObjectType || self is NoFreeAddress || self is AddressOutOfRange || self
            is FrameAllocationFailed || self is PageNotMapped || self is ContentsUnknown || self is UnsupportedRelocation
            || self is AddressNotAligned || self is MemoryMapOverflow || self
            is KernelOutsideRegion || self is FramebufferMissing
    }

    /// Whether the boot loader halts on the error with a message of its own.
    pub fn is_fatal(&self) -> (r: bool)
        ensures
            r == self.spec_is_fatal(),
    {
        match self {
            LoadError::TruncatedProgramHeaders
            | LoadError::MalformedDynamicSection
            | LoadError::UnsupportedObjectType
            | LoadError::NoFreeAddress
            | LoadError::AddressOutOfRange
            | LoadError::FrameAllocationFailed
            | LoadError::PageNotMapped
            | LoadError::ContentsUnknown
            | LoadError::UnsupportedRelocation
            | LoadError::AddressNotAligned
            | LoadError::MemoryMapOverflow
            | LoadError::KernelOutsideRegion
            | LoadError::FramebufferMissing => true,
            _ => false,
        }
    }

    /// The message that describes the error.
    pub open spec fn spec_message(self) -> Seq<char> {
        match self {
            LoadError::TruncatedIdent => "File is shorter than the first ELF header part"@,
            LoadError::BadMagic => "Did not find ELF magic number"@,
            LoadError::InvalidClass => "Invalid ELF class"@,
            LoadError::TruncatedHeader => "File is shorter than ELF headers"@,
            LoadError::TruncatedProgramHeaders => "program header table is truncated"@,
            LoadError::InvalidSegmentType => "Invalid type"@,
            LoadError::ProgramHeaderSizeMismatch => "program header size mismatch"@,
            LoadError::SegmentOutOfRange => "entry point out of range"@,
            LoadError::ShLibSegment => "Shouldn't use ShLib"@,
            LoadError::InvalidAlignment => "Invalid combination of virtual_addr, offset, and align"@,
            LoadError::HeaderSizeMismatch => "header_size does not match size of header"@,
            LoadError::NoVersion => "no version"@,
            LoadError::NoDataFormat => "no data format"@,
            LoadError::ProgramTableOutOfRange => "program header table out of range"@,
            LoadError::SectionTableOutOfRange => "section header table out of range"@,
            LoadError::InvalidTag => "Invalid tag value"@,
            LoadError::MalformedDynamicSection => "expected Dynamic64 segment"@,
            LoadError::KernelNotAligned => "Loaded kernel ELF file is not sufficiently aligned"@,
            LoadError::UnsupportedObjectType => "unsupported ELF type"@,
            LoadError::NoFreeAddress => "no usable level 4 entries found"@,
            LoadError::AddressOutOfRange => "address outside of the address space"@,
            LoadError::MapToFailed => "map_to failed"@,
            LoadError::BssMapToFailed => "Failed to map new frame for bss memory"@,
            LoadError::FrameAllocationFailed => "frame allocation failed"@,
            LoadError::PageNotMapped => "address is not mapped to the kernel's memory space"@,
            LoadError::ContentsUnknown => "nothing is known of what the address holds"@,
            LoadError::MultipleTlsSegments => "multiple TLS segments not supported"@,
            LoadError::MultipleRela => "Dynamic section contains more than one Rela entry"@,
            LoadError::MultipleRelaSize => "Dynamic section contains more than one RelaSize entry"@,
            LoadError::MultipleRelaEnt => "Dynamic section contains more than one RelaEnt entry"@,
            LoadError::RelaMissing => "Rela entry is missing but RelaSize or RelaEnt have been provided"@,
            LoadError::RelaSizeMissing => "RelaSize entry is missing"@,
            LoadError::RelaEntMissing => "RelaEnt entry is missing"@,
            LoadError::UnsupportedRelocation => "relocation not supported"@,
            LoadError::OffsetNotInLoad => "offset is not in load segment"@,
            LoadError::AddressNotAligned => "address is not properly aligned"@,
            LoadError::MemoryMapOverflow => "cannot add region: no more free entries in memory map"@,
            LoadError::KernelOutsideRegion => "region overlaps with kernel, but does not hold all of it"@,
            LoadError::FramebufferMissing => "there shouldn't be a mapping for the framebuffer if there is no framebuffer"@,
        }
    }

    /// The message that describes the error.
    pub fn message(&self) -> (r: &'static str)
        ensures
            r@ == self.spec_message(),
    {
        match self {
            LoadError::TruncatedIdent => "File is shorter than the first ELF header part",
            LoadError::BadMagic => "Did not find ELF magic number",
            LoadError::InvalidClass => "Invalid ELF class",
            LoadError::TruncatedHeader => "File is shorter than ELF headers",
            LoadError::TruncatedProgramHeaders => "program header table is truncated",
            LoadError::InvalidSegmentType => "Invalid type",
            LoadError::ProgramHeaderSizeMismatch => "program header size mismatch",
            LoadError::SegmentOutOfRange => "entry point out of range",
            LoadError::ShLibSegment => "Shouldn't use ShLib",
            LoadError::InvalidAlignment => "Invalid combination of virtual_addr, offset, and align",
            LoadError::HeaderSizeMismatch => "header_size does not match size of header",
            LoadError::NoVersion => "no version",
            LoadError::NoDataFormat => "no data format",
            LoadError::ProgramTableOutOfRange => "program header table out of range",
            LoadError::SectionTableOutOfRange => "section header table out of range",
            LoadError::InvalidTag => "Invalid tag value",
            LoadError::MalformedDynamicSection => "expected Dynamic64 segment",
            LoadError::KernelNotAligned => "Loaded kernel ELF file is not sufficiently aligned",
            LoadError::UnsupportedObjectType => "unsupported ELF type",
            LoadError::NoFreeAddress => "no usable level 4 entries found",
            LoadError::AddressOutOfRange => "address outside of the address space",
            LoadError::MapToFailed => "map_to failed",
            LoadError::BssMapToFailed => "Failed to map new frame for bss memory",
            LoadError::FrameAllocationFailed => "frame allocation failed",
            LoadError::PageNotMapped => "address is not mapped to the kernel's memory space",
            LoadError::ContentsUnknown => "nothing is known of what the address holds",
            LoadError::MultipleTlsSegments => "multiple TLS segments not supported",
            LoadError::MultipleRela => "Dynamic section contains more than one Rela entry",
            LoadError::MultipleRelaSize => "Dynamic section contains more than one RelaSize entry",
            LoadError::MultipleRelaEnt => "Dynamic section contains more than one RelaEnt entry",
            LoadError::RelaMissing => "Rela entry is missing but RelaSize or RelaEnt have been provided",
            LoadError::RelaSizeMissing => "RelaSize entry is missing",
            LoadError::RelaEntMissing => "RelaEnt entry is missing",
            LoadError::UnsupportedRelocation => "relocation not supported",
            LoadError::OffsetNotInLoad => "offset is not in load segment",
            LoadError::AddressNotAligned => "address is not properly aligned",
            LoadError::MemoryMapOverflow => "cannot add region: no more free entries in memory map",
            LoadError::KernelOutsideRegion => "region overlaps with kernel, but does not hold all of it",
            LoadError::FramebufferMissing => "there shouldn't be a mapping for the framebuffer if there is no framebuffer",
        }
    }
}

} // verus!
