use vstd::prelude::*;
use vstd::arithmetic::power2::is_pow2;
use crate::addr::{p4_start, PhysAddr, VirtAddr, LEVEL_4_SIZE, PAGE_SIZE, PHYS_LIMIT};
use crate::elf::{
    header_checked, header_of, object_type_of, program_headers_of, segment_checked,
    segment_type_of, ElfFile, ElfHeader, ObjectType, ProgramHeader, SegmentType, PT_DYNAMIC,
    PT_GNU_RELRO, PT_LOAD,
};
use crate::entries::{
    entries_for, first_free_run, has_free_run, lemma_first_free_run, marked, marked_segments,
    is_markable, segment_markable, Entries,
};
use crate::error::LoadError;
use crate::frame_allocator::{LegacyFrameAllocator, LegacyMemoryRegion};
use crate::kernel::memory::{state_of, Image, Inner, LoadState};
use crate::kernel::relocations::{dynamic_segment_handled, moved_address};
use crate::kernel::segments::{
    copied_removed, load_segment_handled, segment_cleared, tls_template_of,
};
use crate::paging::{AddressSpace, Mapping};
use crate::tls_template::TlsTemplate;

pub mod memory;
pub mod segments;
pub mod relocations;
pub mod laws;
pub mod memory_laws;
pub mod bss_laws;
pub mod flag_laws;
pub mod page_laws;

verus! {

/// How far the kernel's image is moved from the addresses that its file names:
/// the value that is added to each virtual address of the file.
#[derive(Clone, Copy, Debug)]
pub struct VirtualAddressOffset {
    virtual_address_offset: i128,
}

impl View for VirtualAddressOffset {
    type V = int;

    closed spec fn view(&self) -> int {
        self.virtual_address_offset as int
    }
}

impl VirtualAddressOffset {
    /// The result of moving `address` by an offset of `offset`, where it is an
    /// address of 64 bits.
    pub open spec fn moved(offset: int, address: int) -> Option<u64> {
        if 0 <= offset + address <= u64::MAX {
            Some((offset + address) as u64)
        } else {
            None
        }
    }

    /// No offset: the image stays where its file says.
    pub fn zero() -> (r: Self)
        ensures
            r@ == 0,
    {
        Self::new(0)
    }

    pub fn new(virtual_address_offset: i128) -> (r: Self)
        ensures
            r@ == virtual_address_offset,
    {
        Self { virtual_address_offset }
    }

    pub fn virtual_address_offset(&self) -> (r: i128)
        ensures
            r == self@,
    {
        self.virtual_address_offset
    }

    /// The address `offset` of the file, moved by this offset.
    pub fn apply(self, offset: u64) -> (r: u64)
        requires
            Self::moved(self@, offset as int).is_some(),
        ensures
            Some(r) == Self::moved(self@, offset as int),
    {
        self.checked_apply(offset).unwrap()
    }

    /// The address `offset` of the file, moved by this offset, if the result is
    /// an address of 64 bits.
    pub fn checked_apply(self, offset: u64) -> (r: Option<u64>)
        ensures
            r == Self::moved(self@, offset as int),
    {
        match self.virtual_address_offset.checked_add(offset as i128) {
            Some(sum) => {
                if 0 <= sum && sum <= u64::MAX as i128 {
                    Some(sum as u64)
                } else {
                    None
                }
            },
            None => None,
        }
    }
}

/// The kernel's file as it lies in memory.
pub struct Kernel<'a> {
    /// The file, with its header read.
    pub elf: ElfFile<'a>,
    /// The physical address of the first byte of the file.
    pub start_address: u64,
    /// The number of bytes of the file.
    pub len: usize,
}

impl<'a> Kernel<'a> {
    /// The invariant of the type.
    pub open spec fn wf(&self) -> bool {
        self.elf.wf() && self.len == self.elf.input@.len()
    }

    /// The kernel whose file `kernel_slice` lies at the physical address
    /// `start_address`. The file has to start with an ELF header.
    pub fn parse(kernel_slice: &'a [u8], start_address: u64) -> (r: Self)
        requires
            header_of(kernel_slice@) is Ok,
        ensures
            r.wf(),
            r.elf.input@ == kernel_slice@,
            r.start_address == start_address,
    {
        let kernel_elf = ElfFile::new(kernel_slice).unwrap();
        Kernel { elf: kernel_elf, start_address, len: kernel_slice.len() }
    }

    /// The kernel whose file `kernel_slice` lies at the physical address
    /// `start_address`, or why the file does not start with an ELF header.
    pub fn try_parse(kernel_slice: &'a [u8], start_address: u64) -> (r: Result<Self, LoadError>)
        ensures
            r is Ok == header_of(kernel_slice@) is Ok,
            r matches Ok(k) ==> k.wf() && k.elf.input@ == kernel_slice@ && k.start_address
                == start_address,
            r matches Err(e) ==> Err::<ElfHeader, LoadError>(e) == header_of(kernel_slice@),
    {
        match ElfFile::new(kernel_slice) {
            Ok(kernel_elf) => Ok(
                Kernel { elf: kernel_elf, start_address, len: kernel_slice.len() },
            ),
            Err(e) => Err(e),
        }
    }
}

/// The result of checking each program header in turn: the first error.
pub open spec fn segments_checked(segments: Seq<ProgramHeader>, header: ElfHeader, len: int) -> Result<
    (),
    LoadError,
>
    decreases segments.len(),
{
    if segments.len() == 0 {
        Ok(())
    } else {
        match segments_checked(segments.drop_last(), header, len) {
            Err(e) => Err(e),
            Ok(()) => segment_checked(segments.last(), header, len),
        }
    }
}

/// Whether a segment that is loaded ends beyond the last address.
pub open spec fn loads_overflow(segments: Seq<ProgramHeader>) -> bool {
    exists|i: int|
        0 <= i < segments.len() && (#[trigger] segments[i]).is_load() && segments[i].virtual_addr
            + segments[i].mem_size > u64::MAX
}

/// The largest address at which a loaded segment ends; zero where no segment
/// is loaded.
pub open spec fn load_max(segments: Seq<ProgramHeader>) -> int
    decreases segments.len(),
{
    if segments.len() == 0 {
        0
    } else {
        let before = load_max(segments.drop_last());
        let s = segments.last();
        if s.is_load() && s.virtual_addr + s.mem_size > before {
            s.virtual_addr + s.mem_size
        } else {
            before
        }
    }
}

/// The smallest address at which a loaded segment starts.
pub open spec fn load_min(segments: Seq<ProgramHeader>) -> Option<u64>
    decreases segments.len(),
{
    if segments.len() == 0 {
        None
    } else {
        let before = load_min(segments.drop_last());
        let s = segments.last();
        if s.is_load() && (before.is_none() || s.virtual_addr < before.unwrap()) {
            Some(s.virtual_addr)
        } else {
            before
        }
    }
}

/// The largest alignment of a loaded segment.
pub open spec fn load_align(segments: Seq<ProgramHeader>) -> Option<u64>
    decreases segments.len(),
{
    if segments.len() == 0 {
        None
    } else {
        let before = load_align(segments.drop_last());
        let s = segments.last();
        if s.is_load() && (before.is_none() || s.align > before.unwrap()) {
            Some(s.align)
        } else {
            before
        }
    }
}

/// The value of an optional number, or `default` where it has none.
pub open spec fn value_or(v: Option<u64>, default: u64) -> u64 {
    match v {
        Some(x) => x,
        None => default,
    }
}

/// Whether room for `size` bytes with the alignment `align` can be taken from
/// the address space.
pub open spec fn has_room(entries: Seq<bool>, size: int, align: int) -> bool {
    is_pow2(align) && size + (LEVEL_4_SIZE - 1) <= u64::MAX && entries_for(size) >= 1
        && has_free_run(entries, entries_for(size))
}

/// How far the image is moved, and which level 4 entries are taken afterwards:
/// an executable stays where its file says; a shared object is moved to the
/// first free run of level 4 entries that holds its loaded segments.
pub open spec fn offset_chosen(
    object: ObjectType,
    segments: Seq<ProgramHeader>,
    entries: Seq<bool>,
) -> Result<(int, Seq<bool>), LoadError> {
    match object {
        ObjectType::Executable => Ok((0, entries)),
        ObjectType::SharedObject => if loads_overflow(segments) {
            Err(LoadError::AddressOutOfRange)
        } else {
            let min = value_or(load_min(segments), 0);
            let size = load_max(segments) - min;
            let align = value_or(load_align(segments), 1);
            if has_room(entries, size, align as int) {
                let index = first_free_run(entries, entries_for(size));
                Ok((p4_start(index) - min, marked(entries, index, index + entries_for(size) - 1)))
            } else {
                Err(LoadError::NoFreeAddress)
            }
        },
        _ => Err(LoadError::UnsupportedObjectType),
    }
}

/// Whether the range of every segment can be marked when the image is moved
/// by `offset`.
pub open spec fn all_markable(segments: Seq<ProgramHeader>, offset: int) -> bool {
    forall|i: int| 0 <= i < segments.len() ==> segment_markable(#[trigger] segments[i], offset)
}

/// What is decided before an image is loaded: how far it is moved, and which
/// level 4 entries are taken once room for it was found and its segments were
/// marked; or why the image cannot be loaded.
pub open spec fn loader_planned(
    bytes: Seq<u8>,
    header: ElfHeader,
    start_address: u64,
    entries: Seq<bool>,
) -> Result<(int, Seq<bool>), LoadError> {
    if start_address >= PHYS_LIMIT {
        Err(LoadError::AddressOutOfRange)
    } else if start_address % PAGE_SIZE != 0 {
        Err(LoadError::KernelNotAligned)
    } else {
        match program_headers_of(bytes, header) {
            Err(e) => Err(e),
            Ok(segments) => match segments_checked(segments, header, bytes.len() as int) {
                Err(e) => Err(e),
                Ok(()) => match offset_chosen(object_type_of(header.type_), segments, entries) {
                    Err(e) => Err(e),
                    Ok((offset, taken)) => if !all_markable(segments, offset) {
                        Err(LoadError::AddressOutOfRange)
                    } else {
                        match header_checked(header, bytes.len() as int) {
                            Err(e) => Err(e),
                            Ok(()) => Ok((offset, marked_segments(taken, segments, offset))),
                        }
                    },
                },
            },
        }
    }
}

/// The level 4 entries that are taken after an image was checked and room
/// for it was sought: those that were taken before, where the image is turned
/// down before room for it was found; with them, where room was found, the
/// entries of that room; and with those, where every segment then has a place,
/// the entries that the segments touch.
pub open spec fn entries_planned(
    bytes: Seq<u8>,
    header: ElfHeader,
    start_address: u64,
    entries: Seq<bool>,
) -> Seq<bool> {
    if start_address >= PHYS_LIMIT || start_address % PAGE_SIZE != 0 {
        entries
    } else {
        match program_headers_of(bytes, header) {
            Err(_) => entries,
            Ok(segments) => match segments_checked(segments, header, bytes.len() as int) {
                Err(_) => entries,
                Ok(()) => match offset_chosen(object_type_of(header.type_), segments, entries) {
                    Err(_) => entries,
                    Ok((offset, taken)) => if all_markable(segments, offset) {
                        marked_segments(taken, segments, offset)
                    } else {
                        taken
                    },
                },
            },
        }
    }
}

/// The state after the segments to be loaded were loaded in turn, and the
/// thread-local storage template of the image, if a segment describes one.
#[verifier::opaque]
pub open spec fn loads_handled<D: LegacyMemoryRegion>(
    state: LoadState<D>,
    image: Image,
    offset: int,
    segments: Seq<ProgramHeader>,
) -> Result<(LoadState<D>, Option<TlsTemplate>), LoadError>
    decreases segments.len(),
{
    if segments.len() == 0 {
        Ok((state, None))
    } else {
        match loads_handled(state, image, offset, segments.drop_last()) {
            Err(e) => Err(e),
            Ok((s, tls)) => load_handled(s, tls, image, offset, segments.last()),
        }
    }
}

/// What one segment adds when the segments are loaded: a segment to be loaded
/// is loaded; a segment with a thread-local storage template gives the
/// template, unless there is one already.
pub open spec fn load_handled<D: LegacyMemoryRegion>(
    state: LoadState<D>,
    tls: Option<TlsTemplate>,
    image: Image,
    offset: int,
    segment: ProgramHeader,
) -> Result<(LoadState<D>, Option<TlsTemplate>), LoadError> {
    match segment_type_of(segment.type_) {
        Err(e) => Err(e),
        Ok(SegmentType::Load) => match load_segment_handled(state, image, offset, segment) {
            Err(e) => Err(e),
            Ok(s) => Ok((s, tls)),
        },
        Ok(SegmentType::Tls) => if tls.is_some() {
            Err(LoadError::MultipleTlsSegments)
        } else {
            match tls_template_of(offset, segment) {
                Err(e) => Err(e),
                Ok(t) => Ok((state, Some(t))),
            }
        },
        Ok(_) => Ok((state, tls)),
    }
}

/// The state after the relocations of every dynamic section were applied.
#[verifier::opaque]
pub open spec fn dynamics_handled<D: LegacyMemoryRegion>(
    state: LoadState<D>,
    image: Image,
    offset: int,
    header: ElfHeader,
    segments: Seq<ProgramHeader>,
    count: nat,
) -> Result<LoadState<D>, LoadError>
    decreases count,
{
    if count == 0 {
        Ok(state)
    } else {
        match dynamics_handled(state, image, offset, header, segments, (count - 1) as nat) {
            Err(e) => Err(e),
            Ok(s) => if segments[count - 1].type_ == PT_DYNAMIC {
                dynamic_segment_handled(s, image, offset, header, segments, segments[count - 1])
            } else {
                Ok(s)
            },
        }
    }
}

/// The space after the permission to write was taken from what each segment
/// names as read-only after relocation.
#[verifier::opaque]
pub open spec fn relros_handled(
    space: Map<u64, Mapping>,
    offset: int,
    segments: Seq<ProgramHeader>,
) -> Result<Map<u64, Mapping>, LoadError>
    decreases segments.len(),
{
    if segments.len() == 0 {
        Ok(space)
    } else {
        match relros_handled(space, offset, segments.drop_last()) {
            Err(e) => Err(e),
            Ok(s) => if segments.last().type_ == PT_GNU_RELRO {
                segment_cleared(s, offset, segments.last(), true)
            } else {
                Ok(s)
            },
        }
    }
}

/// The state after an image was loaded, and its thread-local storage
/// template: the segments are loaded, then the relocations are applied, then
/// what is read-only after relocation loses the permission to write, and at
/// last the marks that the loader set on pages are removed.
pub open spec fn segments_loaded<D: LegacyMemoryRegion>(
    state: LoadState<D>,
    image: Image,
    offset: int,
    header: ElfHeader,
    segments: Seq<ProgramHeader>,
) -> Result<(LoadState<D>, Option<TlsTemplate>), LoadError> {
    match loads_handled(state, image, offset, segments) {
        Err(e) => Err(e),
        Ok((s1, tls)) => match dynamics_handled(
            s1,
            image,
            offset,
            header,
            segments,
            segments.len(),
        ) {
            Err(e) => Err(e),
            Ok(s2) => match relros_handled(s2.space, offset, segments) {
                Err(e) => Err(e),
                Ok(space3) => match copied_removed(space3, offset, segments) {
                    Err(e) => Err(e),
                    Ok(space4) => Ok((LoadState { space: space4, ..s2 }, tls)),
                },
            },
        },
    }
}

/// Loading one segment more: the segments before it come first.
pub proof fn lemma_loads_handled_step<D: LegacyMemoryRegion>(
    state: LoadState<D>,
    image: Image,
    offset: int,
    segments: Seq<ProgramHeader>,
    i: int,
)
    requires
        0 <= i < segments.len(),
    ensures
        loads_handled(state, image, offset, segments.subrange(0, 0)) == Ok::<
            (LoadState<D>, Option<TlsTemplate>),
            LoadError,
        >((state, None)),
        loads_handled(state, image, offset, segments.subrange(0, i + 1)) == (match loads_handled(
            state,
            image,
            offset,
            segments.subrange(0, i),
        ) {
            Err(e) => Err(e),
            Ok((s, tls)) => load_handled(s, tls, image, offset, segments[i]),
        }),
{
    reveal_with_fuel(loads_handled, 2);
    assert(segments.subrange(0, i + 1).drop_last() =~= segments.subrange(0, i));
    assert(segments.subrange(0, i + 1).last() == segments[i]);
}

/// Where loading the first `part` segments fails, loading all of them fails in
/// the same way.
pub proof fn lemma_loads_handled_fails<D: LegacyMemoryRegion>(
    state: LoadState<D>,
    image: Image,
    offset: int,
    segments: Seq<ProgramHeader>,
    part: int,
)
    requires
        0 <= part <= segments.len(),
    ensures
        loads_handled(state, image, offset, segments.subrange(0, part)) matches Err(e)
            ==> loads_handled(state, image, offset, segments) == Err::<
            (LoadState<D>, Option<TlsTemplate>),
            LoadError,
        >(e),
    decreases segments.len() - part,
{
    if part < segments.len() {
        lemma_loads_handled_fails(state, image, offset, segments, part + 1);
        lemma_loads_handled_step(state, image, offset, segments, part);
    } else {
        assert(segments.subrange(0, part) =~= segments);
    }
}

/// Handling one dynamic section more: the sections before it come first.
pub proof fn lemma_dynamics_handled_step<D: LegacyMemoryRegion>(
    state: LoadState<D>,
    image: Image,
    offset: int,
    header: ElfHeader,
    segments: Seq<ProgramHeader>,
    count: nat,
)
    ensures
        dynamics_handled(state, image, offset, header, segments, 0) == Ok::<
            LoadState<D>,
            LoadError,
        >(state),
        dynamics_handled(state, image, offset, header, segments, count + 1) == (
        match dynamics_handled(state, image, offset, header, segments, count) {
            Err(e) => Err(e),
            Ok(s) => if segments[count as int].type_ == PT_DYNAMIC {
                dynamic_segment_handled(s, image, offset, header, segments, segments[count as int])
            } else {
                Ok(s)
            },
        }),
{
    reveal_with_fuel(dynamics_handled, 2);
}

/// Where handling the first `part` segments for their dynamic sections fails,
/// handling `count` of them fails in the same way.
pub proof fn lemma_dynamics_handled_fails<D: LegacyMemoryRegion>(
    state: LoadState<D>,
    image: Image,
    offset: int,
    header: ElfHeader,
    segments: Seq<ProgramHeader>,
    count: nat,
    part: nat,
)
    requires
        part <= count,
    ensures
        dynamics_handled(state, image, offset, header, segments, part) matches Err(e)
            ==> dynamics_handled(state, image, offset, header, segments, count) == Err::<
            LoadState<D>,
            LoadError,
        >(e),
    decreases count - part,
{
    if part < count {
        lemma_dynamics_handled_fails(state, image, offset, header, segments, count, part + 1);
        lemma_dynamics_handled_step(state, image, offset, header, segments, part);
    }
}

/// Handling one segment more for what is read-only after relocation: the
/// segments before it come first.
pub proof fn lemma_relros_handled_step(
    space: Map<u64, Mapping>,
    offset: int,
    segments: Seq<ProgramHeader>,
    i: int,
)
    requires
        0 <= i < segments.len(),
    ensures
        relros_handled(space, offset, segments.subrange(0, 0)) == Ok::<
            Map<u64, Mapping>,
            LoadError,
        >(space),
        relros_handled(space, offset, segments.subrange(0, i + 1)) == (match relros_handled(
            space,
            offset,
            segments.subrange(0, i),
        ) {
            Err(e) => Err(e),
            Ok(s) => if segments[i].type_ == PT_GNU_RELRO {
                segment_cleared(s, offset, segments[i], true)
            } else {
                Ok(s)
            },
        }),
{
    reveal_with_fuel(relros_handled, 2);
    assert(segments.subrange(0, i + 1).drop_last() =~= segments.subrange(0, i));
    assert(segments.subrange(0, i + 1).last() == segments[i]);
}

/// Where that fails for the first `part` segments, it fails for all of them in
/// the same way.
pub proof fn lemma_relros_handled_fails(
    space: Map<u64, Mapping>,
    offset: int,
    segments: Seq<ProgramHeader>,
    part: int,
)
    requires
        0 <= part <= segments.len(),
    ensures
        relros_handled(space, offset, segments.subrange(0, part)) matches Err(e) ==> relros_handled(
            space,
            offset,
            segments,
        ) == Err::<Map<u64, Mapping>, LoadError>(e),
    decreases segments.len() - part,
{
    if part < segments.len() {
        lemma_relros_handled_fails(space, offset, segments, part + 1);
        lemma_relros_handled_step(space, offset, segments, part);
    } else {
        assert(segments.subrange(0, part) =~= segments);
    }
}

/// What loading an image gives: the state afterwards, the level 4 entries
/// that are taken, the address at which the kernel is entered, and the
/// thread-local storage template of the image.
pub struct Loaded<D> {
    pub state: LoadState<D>,
    pub entries: Seq<bool>,
    pub entry_point: u64,
    pub tls_template: Option<TlsTemplate>,
}

/// Loading the image whose file `bytes` lies at the physical address
/// `start_address`.
pub open spec fn kernel_loaded<D: LegacyMemoryRegion>(
    state: LoadState<D>,
    entries: Seq<bool>,
    bytes: Seq<u8>,
    header: ElfHeader,
    start_address: u64,
) -> Result<Loaded<D>, LoadError> {
    match loader_planned(bytes, header, start_address, entries) {
        Err(e) => Err(e),
        Ok((offset, taken)) => match segments_loaded(
            state,
            Image { bytes, start: start_address },
            offset,
            header,
            program_headers_of(bytes, header).unwrap(),
        ) {
            Err(e) => Err(e),
            Ok((s, tls_template)) => match moved_address(offset, header.entry_point as int) {
                None => Err(LoadError::AddressOutOfRange),
                Some(entry_point) => Ok(Loaded { state: s, entries: taken, entry_point, tls_template }),
            },
        },
    }
}

/// An image that is ready to be loaded: its segments have been checked, and
/// it has been decided how far it is moved.
pub struct Loader<'a> {
    elf_file: ElfFile<'a>,
    segments: Vec<ProgramHeader>,
    inner: Inner<'a>,
}

impl<'a> Loader<'a> {
    /// The invariant of the type.
    pub closed spec fn wf(&self) -> bool {
        &&& self.elf_file.wf()
        &&& self.inner.wf()
        &&& self.inner.kernel@ == self.elf_file.input@
        &&& program_headers_of(self.elf_file.input@, self.elf_file.header) == Ok::<
            Seq<ProgramHeader>,
            LoadError,
        >(self.segments@)
    }

    /// How far the image is moved.
    pub closed spec fn offset(&self) -> int {
        self.inner.virtual_address_offset@
    }

    /// The image.
    pub closed spec fn image(&self) -> Image {
        self.inner.image()
    }

    /// The header of the image's file.
    pub closed spec fn header(&self) -> ElfHeader {
        self.elf_file.header
    }

    /// The segments of the image.
    pub closed spec fn segments(&self) -> Seq<ProgramHeader> {
        self.segments@
    }

    /// Checks the image and decides how far it is moved; takes the level 4
    /// entries that it touches. See `loader_planned`.
    pub fn new(kernel: Kernel<'a>, used_entries: &mut Entries) -> (r: Result<Self, LoadError>)
        requires
            kernel.wf(),
            old(used_entries)@.len() == 512,
        ensures
            final(used_entries)@.len() == 512,
            old(used_entries).wf() ==> final(used_entries).wf(),
            match loader_planned(
                kernel.elf.input@,
                kernel.elf.header,
                kernel.start_address,
                old(used_entries)@,
            ) {
                Ok((offset, taken)) => r matches Ok(loader) && loader.wf() && loader.offset()
                    == offset && loader.image() == (Image {
                    bytes: kernel.elf.input@,
                    start: kernel.start_address,
                }) && loader.header() == kernel.elf.header && Ok::<Seq<ProgramHeader>, LoadError>(
                    loader.segments(),
                ) == program_headers_of(kernel.elf.input@, kernel.elf.header) && final(used_entries)@ == taken,
                Err(e) => r matches Err(f) && f == e,
            },
            final(used_entries)@ == entries_planned(
                kernel.elf.input@,
                kernel.elf.header,
                kernel.start_address,
                old(used_entries)@,
            ),
            kernel.start_address % PAGE_SIZE != 0 ==> final(used_entries)@ == old(used_entries)@,
    {
        if kernel.start_address >= PHYS_LIMIT {
            return Err(LoadError::AddressOutOfRange);
        }
        let kernel_offset = PhysAddr::new(kernel.start_address);
        if kernel.start_address % PAGE_SIZE != 0 {
            return Err(LoadError::KernelNotAligned);
        }
        let elf_file = kernel.elf;
        let segments = match elf_file.program_headers() {
            Ok(segments) => segments,
            Err(e) => {
                return Err(e);
            },
        };
        let ghost len = elf_file.input@.len() as int;
        let mut i: usize = 0;
        assert(segments@.subrange(0, 0) =~= Seq::<ProgramHeader>::empty());
        while i < segments.len()
            invariant
                i <= segments@.len(),
                len == elf_file.input@.len(),
                used_entries@ == old(used_entries)@,
                used_entries@.len() == 512,
                kernel.start_address < PHYS_LIMIT,
                kernel.start_address % PAGE_SIZE == 0,
                elf_file == kernel.elf,
                program_headers_of(kernel.elf.input@, kernel.elf.header) == Ok::<
                    Seq<ProgramHeader>,
                    LoadError,
                >(segments@),
                segments_checked(segments@.subrange(0, i as int), elf_file.header, len) == Ok::<
                    (),
                    LoadError,
                >(()),
            decreases segments@.len() - i,
        {
            proof {
                assert(segments@.subrange(0, i + 1).drop_last() =~= segments@.subrange(0, i as int));
                assert(segments@.subrange(0, i + 1).last() == segments@[i as int]);
                lemma_segments_checked_fails(segments@, elf_file.header, len, i + 1);
            }
            match elf_file.check_segment(&segments[i]) {
                Ok(()) => {},
                Err(e) => {
                    return Err(e);
                },
            }
            i += 1;
        }
        assert(segments@.subrange(0, i as int) =~= segments@);
        let virtual_address_offset = match elf_file.object_type() {
            ObjectType::Executable => VirtualAddressOffset::zero(),
            ObjectType::SharedObject => {
                let (min_addr, max_addr, align) = match Self::load_bounds(&segments) {
                    Some(bounds) => bounds,
                    None => {
                        return Err(LoadError::AddressOutOfRange);
                    },
                };
                let size = max_addr - min_addr;
                proof {
                    if has_room(used_entries@, size as int, align as int) {
                        lemma_first_free_run(used_entries@, entries_for(size as int));
                    }
                }
                let offset = match used_entries.try_get_free_address(size, align) {
                    Some(address) => address.as_u64(),
                    None => {
                        return Err(LoadError::NoFreeAddress);
                    },
                };
                VirtualAddressOffset::new(offset as i128 - min_addr as i128)
            },
            _ => {
                return Err(LoadError::UnsupportedObjectType);
            },
        };
        let mut j: usize = 0;
        while j < segments.len()
            invariant
                j <= segments@.len(),
                len == elf_file.input@.len(),
                used_entries@.len() == 512,
                old(used_entries).wf() ==> used_entries.wf(),
                kernel.start_address < PHYS_LIMIT,
                kernel.start_address % PAGE_SIZE == 0,
                elf_file == kernel.elf,
                program_headers_of(kernel.elf.input@, kernel.elf.header) == Ok::<
                    Seq<ProgramHeader>,
                    LoadError,
                >(segments@),
                segments_checked(segments@, elf_file.header, len) == Ok::<(), LoadError>(()),
                offset_chosen(
                    object_type_of(kernel.elf.header.type_),
                    segments@,
                    old(used_entries)@,
                ) == Ok::<(int, Seq<bool>), LoadError>((virtual_address_offset@, used_entries@)),
                forall|k: int|
                    0 <= k < j ==> segment_markable(
                        #[trigger] segments@[k],
                        virtual_address_offset@,
                    ),
            decreases segments@.len() - j,
        {
            if !is_markable(&segments[j], virtual_address_offset) {
                assert(!segment_markable(segments@[j as int], virtual_address_offset@));
                return Err(LoadError::AddressOutOfRange);
            }
            j += 1;
        }
        used_entries.mark_segments(&segments, virtual_address_offset);
        match elf_file.check_header() {
            Ok(()) => {},
            Err(e) => {
                return Err(e);
            },
        }
        Ok(
            Loader {
                elf_file,
                segments,
                inner: Inner { kernel: elf_file.input, kernel_offset, virtual_address_offset },
            },
        )
    }

    /// The smallest start, the largest end and the largest alignment of the
    /// segments that are loaded; none where a segment ends beyond the last
    /// address.
    fn load_bounds(segments: &Vec<ProgramHeader>) -> (r: Option<(u64, u64, u64)>)
        ensures
            r.is_none() == loads_overflow(segments@),
            r matches Some((min, max, align)) ==> min == value_or(load_min(segments@), 0) && max
                == load_max(segments@) && align == value_or(load_align(segments@), 1) && min
                <= max,
    {
        let mut min: Option<u64> = None;
        let mut max: u64 = 0;
        let mut align: Option<u64> = None;
        let mut i: usize = 0;
        assert(segments@.subrange(0, 0) =~= Seq::<ProgramHeader>::empty());
        while i < segments.len()
            invariant
                i <= segments@.len(),
                min == load_min(segments@.subrange(0, i as int)),
                max == load_max(segments@.subrange(0, i as int)),
                align == load_align(segments@.subrange(0, i as int)),
                min matches Some(m) ==> m <= max,
                forall|k: int|
                    0 <= k < i ==> !((#[trigger] segments@[k]).is_load()
                        && segments@[k].virtual_addr + segments@[k].mem_size > u64::MAX),
            decreases segments@.len() - i,
        {
            let s = segments[i];
            proof {
                assert(segments@.subrange(0, i + 1).drop_last() =~= segments@.subrange(0, i as int));
                assert(segments@.subrange(0, i + 1).last() == s);
            }
            if s.type_ == PT_LOAD {
                let end = match s.virtual_addr.checked_add(s.mem_size) {
                    Some(end) => end,
                    None => {
                        assert(segments@[i as int].is_load());
                        return None;
                    },
                };
                if end > max {
                    max = end;
                }
                let lower = match min {
                    Some(m) => s.virtual_addr < m,
                    None => true,
                };
                if lower {
                    min = Some(s.virtual_addr);
                }
                let larger = match align {
                    Some(a) => s.align > a,
                    None => true,
                };
                if larger {
                    align = Some(s.align);
                }
            }
            i += 1;
        }
        assert(segments@.subrange(0, i as int) =~= segments@);
        let min = match min {
            Some(m) => m,
            None => 0,
        };
        let align = match align {
            Some(a) => a,
            None => 1,
        };
        Some((min, max, align))
    }

    /// Loads the image: loads its segments, applies its relocations, takes the
    /// permission to write from what is read-only after relocation, and removes
    /// the marks that were set on pages meanwhile. Returns the thread-local
    /// storage template of the image. See `segments_loaded`.
    pub fn load_segments<D: LegacyMemoryRegion>(
        &self,
        page_table: &mut AddressSpace,
        frame_allocator: &mut LegacyFrameAllocator<D>,
    ) -> (r: Result<Option<TlsTemplate>, LoadError>)
        requires
            self.wf(),
            old(page_table).wf(),
            old(frame_allocator).wf(),
        ensures
            final(page_table).wf(),
            final(frame_allocator).wf(),
            final(frame_allocator)@.regions == old(frame_allocator)@.regions,
            match segments_loaded(
                state_of(old(page_table), old(frame_allocator)),
                self.image(),
                self.offset(),
                self.header(),
                self.segments(),
            ) {
                Ok((s, tls)) => r matches Ok(t) && t == tls && state_of(
                    final(page_table),
                    final(frame_allocator),
                ) == s,
                Err(e) => r matches Err(f) && f == e,
            },
    {
        let ghost start = state_of(page_table, frame_allocator);
        let ghost image = self.inner.image();
        let ghost offset = self.inner.virtual_address_offset@;
        let mut tls_template: Option<TlsTemplate> = None;
        let mut i: usize = 0;
        proof {
            if self.segments@.len() > 0 {
                lemma_loads_handled_step(start, image, offset, self.segments@, 0);
            } else {
                reveal(loads_handled);
                assert(self.segments@.subrange(0, 0) =~= self.segments@);
            }
        }
        while i < self.segments.len()
            invariant
                self.wf(),
                page_table.wf(),
                frame_allocator.wf(),
                i <= self.segments@.len(),
                image == self.inner.image(),
                offset == self.inner.virtual_address_offset@,
                start == state_of(old(page_table), old(frame_allocator)),
                frame_allocator@.regions == start.allocator.regions,
                loads_handled(start, image, offset, self.segments@.subrange(0, i as int)) == Ok::<
                    (LoadState<D>, Option<TlsTemplate>),
                    LoadError,
                >((state_of(page_table, frame_allocator), tls_template)),
            decreases self.segments@.len() - i,
        {
            let program_header = self.segments[i];
            proof {
                lemma_loads_handled_step(start, image, offset, self.segments@, i as int);
                lemma_loads_handled_fails(start, image, offset, self.segments@, i + 1);
            }
            match program_header.get_type() {
                Err(e) => {
                    return Err(e);
                },
                Ok(SegmentType::Load) => {
                    match self.inner.handle_load_segment(
                        page_table,
                        frame_allocator,
                        &program_header,
                    ) {
                        Ok(()) => {},
                        Err(e) => {
                            return Err(e);
                        },
                    }
                },
                Ok(SegmentType::Tls) => {
                    if tls_template.is_none() {
                        match self.inner.handle_tls_segment(&program_header) {
                            Ok(template) => {
                                tls_template = Some(template);
                            },
                            Err(e) => {
                                return Err(e);
                            },
                        }
                    } else {
                        return Err(LoadError::MultipleTlsSegments);
                    }
                },
                Ok(_) => {},
            }
            i += 1;
        }
        assert(self.segments@.subrange(0, i as int) =~= self.segments@);
        let ghost loaded = state_of(page_table, frame_allocator);
        let mut j: usize = 0;
        proof {
            lemma_dynamics_handled_step(
                loaded,
                image,
                offset,
                self.elf_file.header,
                self.segments@,
                0,
            );
        }
        while j < self.segments.len()
            invariant
                self.wf(),
                page_table.wf(),
                frame_allocator.wf(),
                j <= self.segments@.len(),
                image == self.inner.image(),
                offset == self.inner.virtual_address_offset@,
                start == state_of(old(page_table), old(frame_allocator)),
                frame_allocator@.regions == start.allocator.regions,
                loads_handled(start, image, offset, self.segments@) == Ok::<
                    (LoadState<D>, Option<TlsTemplate>),
                    LoadError,
                >((loaded, tls_template)),
                dynamics_handled(
                    loaded,
                    image,
                    offset,
                    self.elf_file.header,
                    self.segments@,
                    j as nat,
                ) == Ok::<LoadState<D>, LoadError>(state_of(page_table, frame_allocator)),
            decreases self.segments@.len() - j,
        {
            let program_header = self.segments[j];
            proof {
                lemma_dynamics_handled_step(
                    loaded,
                    image,
                    offset,
                    self.elf_file.header,
                    self.segments@,
                    j as nat,
                );
                lemma_dynamics_handled_fails(
                    loaded,
                    image,
                    offset,
                    self.elf_file.header,
                    self.segments@,
                    self.segments@.len(),
                    (j + 1) as nat,
                );
            }
            if program_header.type_ == PT_DYNAMIC {
                match self.inner.handle_dynamic_segment(
                    page_table,
                    frame_allocator,
                    &program_header,
                    &self.elf_file,
                    &self.segments,
                ) {
                    Ok(()) => {},
                    Err(e) => {
                        return Err(e);
                    },
                }
            }
            j += 1;
        }
        let ghost relocated = state_of(page_table, frame_allocator);
        let mut k: usize = 0;
        proof {
            if self.segments@.len() > 0 {
                lemma_relros_handled_step(relocated.space, offset, self.segments@, 0);
            } else {
                reveal(relros_handled);
                assert(self.segments@.subrange(0, 0) =~= self.segments@);
            }
        }
        while k < self.segments.len()
            invariant
                self.wf(),
                page_table.wf(),
                frame_allocator.wf(),
                k <= self.segments@.len(),
                image == self.inner.image(),
                offset == self.inner.virtual_address_offset@,
                start == state_of(old(page_table), old(frame_allocator)),
                frame_allocator@ == relocated.allocator,
                frame_allocator@.regions == start.allocator.regions,
                loads_handled(start, image, offset, self.segments@) == Ok::<
                    (LoadState<D>, Option<TlsTemplate>),
                    LoadError,
                >((loaded, tls_template)),
                dynamics_handled(
                    loaded,
                    image,
                    offset,
                    self.elf_file.header,
                    self.segments@,
                    self.segments@.len(),
                ) == Ok::<LoadState<D>, LoadError>(relocated),
                relros_handled(relocated.space, offset, self.segments@.subrange(0, k as int)) == Ok::<
                    Map<u64, Mapping>,
                    LoadError,
                >(page_table@),
            decreases self.segments@.len() - k,
        {
            let program_header = self.segments[k];
            proof {
                lemma_relros_handled_step(relocated.space, offset, self.segments@, k as int);
                lemma_relros_handled_fails(relocated.space, offset, self.segments@, k + 1);
            }
            if program_header.type_ == PT_GNU_RELRO {
                match self.inner.handle_relro_segment(page_table, &program_header) {
                    Ok(()) => {},
                    Err(e) => {
                        return Err(e);
                    },
                }
            }
            k += 1;
        }
        assert(self.segments@.subrange(0, k as int) =~= self.segments@);
        match self.inner.remove_copied_flags(page_table, &self.segments) {
            Ok(()) => {},
            Err(e) => {
                return Err(e);
            },
        }
        Ok(tls_template)
    }

    /// The address at which the kernel is entered, if the entry point of the
    /// file, moved as the image is, is an address.
    pub fn entry_point(&self) -> (r: Option<VirtAddr>)
        requires
            self.wf(),
        ensures
            r.is_some() == moved_address(self.offset(), self.header().entry_point as int).is_some(),
            r matches Some(a) ==> a.wf() && Some(a@) == moved_address(
                self.offset(),
                self.header().entry_point as int,
            ),
    {
        match self.inner.virtual_address_offset.checked_apply(self.elf_file.header.entry_point) {
            Some(a) => VirtAddr::try_new(a),
            None => None,
        }
    }
}

/// Where checking the first `part` program headers fails, checking all of
/// them fails in the same way.
pub proof fn lemma_segments_checked_fails(
    segments: Seq<ProgramHeader>,
    header: ElfHeader,
    len: int,
    part: int,
)
    requires
        0 <= part <= segments.len(),
    ensures
        segments_checked(segments.subrange(0, part), header, len) matches Err(e)
            ==> segments_checked(segments, header, len) == Err::<(), LoadError>(e),
    decreases segments.len() - part,
{
    if part < segments.len() {
        lemma_segments_checked_fails(segments, header, len, part + 1);
        assert(segments.subrange(0, part + 1).drop_last() =~= segments.subrange(0, part));
    } else {
        assert(segments.subrange(0, part) =~= segments);
    }
}

/// Loads the kernel into the address space `page_table`: checks its file,
/// finds room for it, maps its segments, applies its relocations and protects
/// what is read-only after relocation. Returns the address at which the kernel
/// is entered and its thread-local storage template. See `kernel_loaded`.
pub fn load_kernel<D: LegacyMemoryRegion>(
    kernel: Kernel<'_>,
    page_table: &mut AddressSpace,
    frame_allocator: &mut LegacyFrameAllocator<D>,
    used_entries: &mut Entries,
) -> (r: Result<(VirtAddr, Option<TlsTemplate>), LoadError>)
    requires
        kernel.wf(),
        old(page_table).wf(),
        old(frame_allocator).wf(),
        old(used_entries)@.len() == 512,
    ensures
        final(page_table).wf(),
        final(frame_allocator).wf(),
        final(frame_allocator)@.regions == old(frame_allocator)@.regions,
        final(used_entries)@.len() == 512,
        old(used_entries).wf() ==> final(used_entries).wf(),
        match kernel_loaded(
            state_of(old(page_table), old(frame_allocator)),
            old(used_entries)@,
            kernel.elf.input@,
            kernel.elf.header,
            kernel.start_address,
        ) {
            Ok(loaded) => r matches Ok((entry_point, tls_template)) && entry_point@
                == loaded.entry_point && entry_point.wf() && tls_template == loaded.tls_template
                && state_of(final(page_table), final(frame_allocator)) == loaded.state && final(used_entries)@ == loaded.entries,
            Err(e) => r matches Err(f) && f == e,
        },
        final(used_entries)@ == entries_planned(
            kernel.elf.input@,
            kernel.elf.header,
            kernel.start_address,
            old(used_entries)@,
        ),
        kernel.start_address % PAGE_SIZE != 0 ==> final(used_entries)@ == old(used_entries)@,
        loader_planned(
            kernel.elf.input@,
            kernel.elf.header,
            kernel.start_address,
            old(used_entries)@,
        ) is Err ==> state_of(final(page_table), final(frame_allocator)) == state_of(
            old(page_table),
            old(frame_allocator),
        ),
{
    let loader = match Loader::new(kernel, used_entries) {
        Ok(loader) => loader,
        Err(e) => {
            return Err(e);
        },
    };
    let tls_template = match loader.load_segments(page_table, frame_allocator) {
        Ok(tls_template) => tls_template,
        Err(e) => {
            return Err(e);
        },
    };
    match loader.entry_point() {
        Some(entry_point) => Ok((entry_point, tls_template)),
        None => Err(LoadError::AddressOutOfRange),
    }
}

} // verus!
