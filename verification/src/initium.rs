use vstd::prelude::*;
use crate::addr::{
    aligned_down, canonical_form, is_canonical, lemma_aligned_down, lemma_page_size_is_pow2,
    p4_start, page_after, Page, PageTableIndex, PhysAddr, PhysFrame, VirtAddr, LEVEL_4_SIZE,
    PAGE_SIZE, PHYS_LIMIT,
};
use crate::entries::{entries_for, first_free_run, lemma_first_free_run, marked, Entries};
use crate::error::LoadError;
use crate::frame_allocator::{LegacyFrameAllocator, LegacyMemoryRegion};
use crate::framebuffer::FramebufferInfo;
use crate::kernel::memory::{lemma_page_of, page_of, state_of, Inner, LoadState};
use crate::boot::{BootConfig, BootInfo};
use crate::frame_allocator::{constructible, memory_map, AllocatorState};
use crate::framebuffer::Framebuffer;
use crate::kernel::segments::{file_pages_mapped, fresh_pages_mapped, touched_pages};
use crate::memory::{MemoryRegion, MemoryRegions};
use crate::optional::Optional;
use crate::kernel::{has_room, kernel_loaded, load_kernel, Kernel};
use crate::paging::{AddressSpace, Mapping, PageFlags};
use crate::tls_template::TlsTemplate;

verus! {

/// The size of the kernel's stack in bytes.
pub const KERNEL_STACK_SIZE: u64 = 80 * 1024;

/// The number of pages of the kernel's stack.
pub const KERNEL_STACK_PAGES: u64 = 20;

/// What the firmware says of the framebuffer.
#[derive(Debug, Copy, Clone)]
pub struct RawFramebufferInfo {
    /// The physical address of the framebuffer.
    pub addr: PhysAddr,
    pub info: FramebufferInfo,
}

/// What the firmware says of the machine.
#[derive(Debug, Copy, Clone)]
pub struct SystemInfo {
    pub framebuffer: Option<RawFramebufferInfo>,
    /// The address of the root system description pointer of ACPI.
    pub rsdp_addr: Option<PhysAddr>,
    /// The physical address of the ramdisk.
    pub ramdisk_addr: Option<u64>,
    /// The number of bytes of the ramdisk.
    pub ramdisk_len: u64,
}

/// The address spaces that the boot loader sets up.
pub struct PageTables {
    /// What is mapped into the boot loader's own address space in addition to
    /// what the firmware mapped.
    pub bootloader: AddressSpace,
    /// The address space of the kernel.
    pub kernel: AddressSpace,
    /// The frame of the level 4 table of the kernel's address space.
    pub kernel_level_4_frame: PhysFrame,
}

/// Where the boot loader has put things in the kernel's address space.
pub struct Mappings {
    /// The address at which the kernel is entered.
    pub entry_point: VirtAddr,
    /// The first address above the kernel's stack.
    pub stack_top: VirtAddr,
    /// The level 4 entries that are taken.
    pub used_entries: Entries,
    /// The address of the framebuffer, if there is one.
    pub framebuffer: Option<VirtAddr>,
    /// The address at which all physical memory is mapped, if it is.
    pub physical_memory_offset: Option<VirtAddr>,
    /// The level 4 entry that maps the level 4 table itself, if one does.
    pub recursive_index: Option<PageTableIndex>,
    /// The thread-local storage template of the kernel, if it has one.
    pub tls_template: Option<TlsTemplate>,
    /// The physical address of the kernel's file.
    pub kernel_slice_start: u64,
    /// The number of bytes of the kernel's file.
    pub kernel_slice_len: u64,
    /// The address of the ramdisk, if there is one.
    pub ramdisk_slice_start: Option<VirtAddr>,
    /// The number of bytes of the ramdisk.
    pub ramdisk_slice_len: u64,
    /// The frame that is to hold the global descriptor table.
    pub gdt_frame: PhysFrame,
}

/// What the boot loader was doing when it failed.
#[derive(Clone, Copy, Debug, PartialEq, Eq, Structural)]
pub enum Stage {
    Kernel,
    Stack,
    ContextSwitch,
    Gdt,
    Framebuffer,
    Ramdisk,
    BootInfo,
}

/// Why the kernel could not be started.
#[derive(Clone, Copy, Debug, PartialEq, Eq, Structural)]
pub struct BootError {
    pub stage: Stage,
    pub cause: LoadError,
}

impl BootError {
    /// What the boot loader was doing when it failed, in words.
    pub open spec fn spec_stage_name(self) -> Seq<char> {
        match self.stage {
            Stage::Kernel => "loading the kernel"@,
            Stage::Stack => "mapping a kernel stack"@,
            Stage::ContextSwitch => "mapping the context switch function"@,
            Stage::Gdt => "mapping the GDT"@,
            Stage::Framebuffer => "mapping the framebuffer"@,
            Stage::Ramdisk => "mapping the ramdisk"@,
            Stage::BootInfo => "creating the boot info"@,
        }
    }

    /// What the boot loader was doing when it failed, in words.
    pub fn stage_name(&self) -> (r: &'static str)
        ensures
            r@ == self.spec_stage_name(),
    {
        match self.stage {
            Stage::Kernel => "loading the kernel",
            Stage::Stack => "mapping a kernel stack",
            Stage::ContextSwitch => "mapping the context switch function",
            Stage::Gdt => "mapping the GDT",
            Stage::Framebuffer => "mapping the framebuffer",
            Stage::Ramdisk => "mapping the ramdisk",
            Stage::BootInfo => "creating the boot info",
        }
    }
}

/// The flags of memory that the kernel may read and write.
pub open spec fn data_flags() -> PageFlags {
    PageFlags { present: true, writable: true, no_execute: false, copied: false }
}

/// The flags of memory that the kernel may read and execute.
pub open spec fn code_flags() -> PageFlags {
    PageFlags { present: true, writable: false, no_execute: false, copied: false }
}

/// The level 4 entries of a new address space: only the first is taken.
pub open spec fn fresh_entries() -> Seq<bool> {
    Seq::new(512, |i: int| i == 0)
}

/// Reserving room for `size` bytes in the address space: the address at which
/// the first free run of level 4 entries starts that is long enough, and the
/// level 4 entries that are taken afterwards. The address has to be a multiple
/// of `alignment`.
pub open spec fn address_reserved(entries: Seq<bool>, size: u64, alignment: u64) -> Result<
    (u64, Seq<bool>),
    LoadError,
> {
    if has_room(entries, size as int, alignment as int) {
        let index = first_free_run(entries, entries_for(size as int));
        if p4_start(index) % (alignment as int) == 0 {
            Ok((p4_start(index) as u64, marked(entries, index, index + entries_for(size as int) - 1)))
        } else {
            Err(LoadError::AddressNotAligned)
        }
    } else {
        Err(LoadError::NoFreeAddress)
    }
}

/// The space after the frame `frame` was mapped to the page of the same
/// address.
pub open spec fn identity_mapped(space: Map<u64, Mapping>, frame: u64, flags: PageFlags) -> Result<
    Map<u64, Mapping>,
    LoadError,
> {
    match canonical_form(frame) {
        None => Err(LoadError::AddressOutOfRange),
        Some(a) => if space.contains_key(page_of(a)) {
            Err(LoadError::MapToFailed)
        } else {
            Ok(space.insert(page_of(a), Mapping { frame, flags, data: None, copy_of: None }))
        },
    }
}

/// The frames that hold the bytes from `first` to `last`, both included: the
/// first of them and their number.
pub open spec fn frame_range(first: int, last: int) -> Result<(u64, nat), LoadError> {
    let f = aligned_down(first, PAGE_SIZE as int);
    let l = aligned_down(last, PAGE_SIZE as int);
    if f > l {
        Ok((f as u64, 0))
    } else if l + PAGE_SIZE >= PHYS_LIMIT {
        Err(LoadError::AddressOutOfRange)
    } else {
        Ok((f as u64, ((l - f) / (PAGE_SIZE as int) + 1) as nat))
    }
}

/// The state after the kernel's stack was set up, the level 4 entries that are
/// taken, and the first address above the stack: below the stack a page stays
/// unmapped, and each page of the stack gets a frame of its own.
pub open spec fn stack_mapped<D: LegacyMemoryRegion>(
    state: LoadState<D>,
    entries: Seq<bool>,
) -> Result<(LoadState<D>, Seq<bool>, u64), LoadError> {
    match address_reserved(entries, (PAGE_SIZE + KERNEL_STACK_SIZE) as u64, PAGE_SIZE) {
        Err(e) => Err(e),
        Ok((guard, taken)) => match fresh_pages_mapped(
            state,
            (guard + PAGE_SIZE) as u64,
            KERNEL_STACK_PAGES as nat,
            data_flags(),
            None,
            LoadError::MapToFailed,
        ) {
            Err(e) => Err(e),
            Ok(s) => Ok(
                (
                    s,
                    taken,
                    aligned_down(guard + PAGE_SIZE + KERNEL_STACK_SIZE, 16) as u64,
                ),
            ),
        },
    }
}

/// The space after the two frames from the one that holds the address
/// `function` on were mapped to the pages of the same addresses.
pub open spec fn trampoline_mapped(space: Map<u64, Mapping>, function: u64) -> Result<
    Map<u64, Mapping>,
    LoadError,
> {
    let frame = aligned_down(function as int, PAGE_SIZE as int);
    if frame + 2 * PAGE_SIZE >= PHYS_LIMIT {
        Err(LoadError::AddressOutOfRange)
    } else {
        match identity_mapped(space, frame as u64, code_flags()) {
            Err(e) => Err(e),
            Ok(s) => identity_mapped(s, (frame + PAGE_SIZE) as u64, code_flags()),
        }
    }
}

/// The state after a frame for the global descriptor table was taken and
/// mapped to the page of the same address, and the frame.
pub open spec fn gdt_mapped<D: LegacyMemoryRegion>(state: LoadState<D>) -> Result<
    (LoadState<D>, u64),
    LoadError,
> {
    match state.allocator.allocate().0 {
        None => Err(LoadError::FrameAllocationFailed),
        Some(frame) => match identity_mapped(state.space, frame, code_flags()) {
            Err(e) => Err(e),
            Ok(space) => Ok((LoadState { space, allocator: state.allocator.allocate().1 }, frame)),
        },
    }
}

/// The space after the `byte_len` bytes of the framebuffer at the physical
/// address `addr` were mapped, the level 4 entries that are taken, and the
/// address of the framebuffer.
pub open spec fn framebuffer_mapped(
    space: Map<u64, Mapping>,
    entries: Seq<bool>,
    addr: u64,
    byte_len: u64,
) -> Result<(Map<u64, Mapping>, Seq<bool>, u64), LoadError> {
    if addr + byte_len >= PHYS_LIMIT || addr + byte_len < 1 {
        Err(LoadError::AddressOutOfRange)
    } else {
        match frame_range(addr as int, addr + byte_len - 1) {
            Err(e) => Err(e),
            Ok((frame, count)) => match address_reserved(entries, byte_len, PAGE_SIZE) {
                Err(e) => Err(e),
                Ok((page, taken)) => match file_pages_mapped(
                    space,
                    page,
                    frame,
                    count,
                    data_flags(),
                ) {
                    Err(e) => Err(e),
                    Ok(s) => Ok((s, taken, page)),
                },
            },
        }
    }
}

/// The space after the `len` bytes of the ramdisk at the physical address
/// `addr` were mapped, the level 4 entries that are taken, and the address of
/// the ramdisk.
pub open spec fn ramdisk_mapped(
    space: Map<u64, Mapping>,
    entries: Seq<bool>,
    addr: u64,
    len: u64,
) -> Result<(Map<u64, Mapping>, Seq<bool>, u64), LoadError> {
    match address_reserved(entries, len, PAGE_SIZE) {
        Err(e) => Err(e),
        Ok((page, taken)) => {
            let frame = aligned_down(addr as int, PAGE_SIZE as int);
            let pages = (len - 1) / (PAGE_SIZE as int) + 1;
            if addr >= PHYS_LIMIT || frame + pages * PAGE_SIZE >= PHYS_LIMIT {
                Err(LoadError::AddressOutOfRange)
            } else {
                match file_pages_mapped(space, page, frame as u64, pages as nat, data_flags()) {
                    Err(e) => Err(e),
                    Ok(s) => Ok((s, taken, page)),
                }
            }
        },
    }
}

/// What setting up the kernel's address space gives.
pub struct SetUp<D> {
    /// The kernel's address space and the frame allocator.
    pub state: LoadState<D>,
    /// The level 4 entries that are taken.
    pub entries: Seq<bool>,
    pub entry_point: u64,
    pub tls_template: Option<TlsTemplate>,
    pub stack_top: u64,
    pub gdt_frame: u64,
    pub framebuffer: Option<u64>,
    pub ramdisk: Option<u64>,
}

/// Setting up the kernel's address space: the kernel is loaded, then its stack
/// is set up, then the function that switches to the kernel and the global
/// descriptor table are mapped where they lie, then the framebuffer and the
/// ramdisk are mapped where there are any.
pub open spec fn mappings_set_up<D: LegacyMemoryRegion>(
    state: LoadState<D>,
    bytes: Seq<u8>,
    header: crate::elf::ElfHeader,
    start_address: u64,
    function: u64,
    framebuffer: Option<(u64, u64)>,
    ramdisk: Option<u64>,
    ramdisk_len: u64,
) -> Result<SetUp<D>, BootError> {
    match kernel_loaded(state, fresh_entries(), bytes, header, start_address) {
        Err(cause) => Err(BootError { stage: Stage::Kernel, cause }),
        Ok(loaded) => surroundings_set_up(loaded, function, framebuffer, ramdisk, ramdisk_len),
    }
}

/// What is set up around a kernel that was loaded: its stack, then the
/// function that switches to the kernel and the global descriptor table, then
/// the framebuffer and the ramdisk where there are any.
pub open spec fn surroundings_set_up<D: LegacyMemoryRegion>(
    loaded: crate::kernel::Loaded<D>,
    function: u64,
    framebuffer: Option<(u64, u64)>,
    ramdisk: Option<u64>,
    ramdisk_len: u64,
) -> Result<SetUp<D>, BootError> {
    match stack_mapped(loaded.state, loaded.entries) {
        Err(cause) => Err(BootError { stage: Stage::Stack, cause }),
        Ok((s1, e1, stack_top)) => match trampoline_mapped(s1.space, function) {
            Err(cause) => Err(BootError { stage: Stage::ContextSwitch, cause }),
            Ok(space2) => match gdt_mapped(LoadState { space: space2, ..s1 }) {
                Err(cause) => Err(BootError { stage: Stage::Gdt, cause }),
                Ok((s3, gdt_frame)) => match framebuffer_set_up(s3.space, e1, framebuffer) {
                    Err(cause) => Err(BootError { stage: Stage::Framebuffer, cause }),
                    Ok((space4, e4, fb)) => match ramdisk_set_up(space4, e4, ramdisk, ramdisk_len) {
                        Err(cause) => Err(BootError { stage: Stage::Ramdisk, cause }),
                        Ok((space5, e5, rd)) => Ok(
                            SetUp {
                                state: LoadState { space: space5, ..s3 },
                                entries: e5,
                                entry_point: loaded.entry_point,
                                tls_template: loaded.tls_template,
                                stack_top,
                                gdt_frame,
                                framebuffer: fb,
                                ramdisk: rd,
                            },
                        ),
                    },
                },
            },
        },
    }
}

/// Mapping the framebuffer where there is one.
pub open spec fn framebuffer_set_up(
    space: Map<u64, Mapping>,
    entries: Seq<bool>,
    framebuffer: Option<(u64, u64)>,
) -> Result<(Map<u64, Mapping>, Seq<bool>, Option<u64>), LoadError> {
    match framebuffer {
        None => Ok((space, entries, None)),
        Some((addr, byte_len)) => match framebuffer_mapped(space, entries, addr, byte_len) {
            Err(e) => Err(e),
            Ok((s, e, a)) => Ok((s, e, Some(a))),
        },
    }
}

/// Mapping the ramdisk where there is one.
pub open spec fn ramdisk_set_up(
    space: Map<u64, Mapping>,
    entries: Seq<bool>,
    ramdisk: Option<u64>,
    len: u64,
) -> Result<(Map<u64, Mapping>, Seq<bool>, Option<u64>), LoadError> {
    match ramdisk {
        None => Ok((space, entries, None)),
        Some(addr) => match ramdisk_mapped(space, entries, addr, len) {
            Err(e) => Err(e),
            Ok((s, e, a)) => Ok((s, e, Some(a))),
        },
    }
}

/// Reserves room for `size` bytes in the address space and returns the address
/// where that is a multiple of `alignment`; see `address_reserved`.
pub fn mapping_addr(size: u64, alignment: u64, used_entries: &mut Entries) -> (r: Result<
    VirtAddr,
    LoadError,
>)
    requires
        old(used_entries)@.len() == 512,
    ensures
        final(used_entries)@.len() == 512,
        old(used_entries).wf() ==> final(used_entries).wf(),
        match address_reserved(old(used_entries)@, size, alignment) {
            Ok((addr, taken)) => r matches Ok(a) && a@ == addr && a.wf() && final(used_entries)@
                == taken,
            Err(e) => r matches Err(f) && f == e,
        },
        r matches Ok(a) ==> a@ as int % alignment as int == 0 && exists|index: int|
            0 <= index < 512 && a@ == #[trigger] p4_start(index),
{
    proof {
        if has_room(used_entries@, size as int, alignment as int) {
            lemma_first_free_run(used_entries@, entries_for(size as int));
        }
    }
    let addr = match used_entries.try_get_free_address(size, alignment) {
        Some(addr) => addr,
        None => {
            return Err(LoadError::NoFreeAddress);
        },
    };
    if addr.is_aligned(alignment) {
        Ok(addr)
    } else {
        Err(LoadError::AddressNotAligned)
    }
}

/// Reserves room for `size` bytes in the address space and returns the page
/// at which it starts.
pub fn mapping_addr_page_aligned(size: u64, used_entries: &mut Entries) -> (r: Result<
    Page,
    LoadError,
>)
    requires
        old(used_entries)@.len() == 512,
    ensures
        final(used_entries)@.len() == 512,
        old(used_entries).wf() ==> final(used_entries).wf(),
        match address_reserved(old(used_entries)@, size, PAGE_SIZE) {
            Ok((addr, taken)) => r matches Ok(page) && page@ == addr && page.wf() && final(used_entries)@ == taken,
            Err(e) => r matches Err(f) && f == e,
        },
        r matches Ok(page) ==> exists|index: int|
            0 <= index < 512 && page@ == #[trigger] p4_start(index),
{
    match mapping_addr(size, PAGE_SIZE, used_entries) {
        Ok(addr) => Ok(Page::from_start_address(addr).unwrap()),
        Err(e) => Err(e),
    }
}

/// Maps `frame` to the page of the same address; see `identity_mapped`.
pub fn identity_map(page_table: &mut AddressSpace, frame: PhysFrame, flags: PageFlags) -> (r:
    Result<(), LoadError>)
    requires
        old(page_table).wf(),
        frame.wf(),
    ensures
        final(page_table).wf(),
        match identity_mapped(old(page_table)@, frame@, flags) {
            Ok(space) => r is Ok && final(page_table)@ == space,
            Err(e) => r matches Err(f) && f == e,
        },
{
    let addr = match VirtAddr::try_new(frame.start_address().as_u64()) {
        Some(addr) => addr,
        None => {
            return Err(LoadError::AddressOutOfRange);
        },
    };
    proof {
        lemma_page_of(addr@);
    }
    let page = Page::containing_address(addr);
    match page_table.map_to(page, frame, flags) {
        Ok(()) => Ok(()),
        Err(_) => Err(LoadError::MapToFailed),
    }
}

/// Within the part of the address space that a level 4 entry covers, every
/// address is canonical.
pub proof fn lemma_level_4_region(index: int, offset: int)
    requires
        0 <= index < 512,
        0 <= offset < LEVEL_4_SIZE,
    ensures
        is_canonical(p4_start(index) + offset),
        0 <= p4_start(index) + offset <= u64::MAX,
        p4_start(index) % (PAGE_SIZE as int) == 0,
{
    assert(index * LEVEL_4_SIZE <= 511 * LEVEL_4_SIZE) by (nonlinear_arith)
        requires
            0 <= index <= 511,
            LEVEL_4_SIZE == 0x80_0000_0000,
    ;
    assert(0 <= index * LEVEL_4_SIZE) by (nonlinear_arith)
        requires
            0 <= index,
            LEVEL_4_SIZE == 0x80_0000_0000,
    ;
    if index < 256 {
        assert(index * LEVEL_4_SIZE <= 255 * LEVEL_4_SIZE) by (nonlinear_arith)
            requires
                0 <= index <= 255,
                LEVEL_4_SIZE == 0x80_0000_0000,
        ;
    } else {
        assert(index * LEVEL_4_SIZE >= 256 * LEVEL_4_SIZE) by (nonlinear_arith)
            requires
                256 <= index,
                LEVEL_4_SIZE == 0x80_0000_0000,
        ;
    }
    assert((index * LEVEL_4_SIZE) % (PAGE_SIZE as int) == 0) by (nonlinear_arith)
        requires
            LEVEL_4_SIZE == 0x80_0000_0000,
            PAGE_SIZE == 4096,
    ;
}

/// The flags of memory that the kernel may read and write.
pub fn data_page_flags() -> (r: PageFlags)
    ensures
        r == data_flags(),
{
    PageFlags { present: true, writable: true, no_execute: false, copied: false }
}

/// The flags of memory that the kernel may read and execute.
pub fn code_page_flags() -> (r: PageFlags)
    ensures
        r == code_flags(),
{
    PageFlags { present: true, writable: false, no_execute: false, copied: false }
}

/// Sets up the kernel's stack and returns the first address above it; see
/// `stack_mapped`.
pub fn map_stack<D: LegacyMemoryRegion>(
    page_table: &mut AddressSpace,
    frame_allocator: &mut LegacyFrameAllocator<D>,
    used_entries: &mut Entries,
) -> (r: Result<VirtAddr, LoadError>)
    requires
        old(page_table).wf(),
        old(frame_allocator).wf(),
        old(used_entries)@.len() == 512,
    ensures
        final(page_table).wf(),
        final(frame_allocator).wf(),
        final(frame_allocator)@.regions == old(frame_allocator)@.regions,
        final(used_entries)@.len() == 512,
        old(used_entries).wf() ==> final(used_entries).wf(),
        match stack_mapped(state_of(old(page_table), old(frame_allocator)), old(used_entries)@) {
            Ok((s, taken, stack_top)) => r matches Ok(top) && top@ == stack_top && top.wf()
                && state_of(final(page_table), final(frame_allocator)) == s && final(used_entries)@
                == taken,
            Err(e) => r matches Err(f) && f == e,
        },
{
    let guard_page = match mapping_addr_page_aligned(PAGE_SIZE + KERNEL_STACK_SIZE, used_entries) {
        Ok(page) => page,
        Err(e) => {
            return Err(e);
        },
    };
    let ghost index = choose|index: int| 0 <= index < 512 && guard_page@ == #[trigger] p4_start(index);
    proof {
        lemma_level_4_region(index, PAGE_SIZE as int);
        lemma_level_4_region(index, PAGE_SIZE + KERNEL_STACK_SIZE);
        lemma_level_4_region(index, 0);
    }
    let stack_start = guard_page.checked_add(1).unwrap();
    proof {
        assert forall|i: int| 0 <= i < KERNEL_STACK_PAGES implies is_canonical(
            stack_start@ + i * PAGE_SIZE,
        ) && #[trigger] page_after(stack_start@, i) == Some((stack_start@ + i * PAGE_SIZE) as u64) by {
            lemma_level_4_region(index, PAGE_SIZE + i * PAGE_SIZE);
        }
    }
    match Inner::map_fresh_pages(
        page_table,
        frame_allocator,
        stack_start,
        KERNEL_STACK_PAGES,
        data_page_flags(),
        false,
        LoadError::MapToFailed,
    ) {
        Ok(()) => {},
        Err(e) => {
            return Err(e);
        },
    }
    let stack_end_addr: u64 = stack_start.start_address().as_u64() + KERNEL_STACK_SIZE;
    proof {
        lemma_page_size_is_pow2();
        lemma_aligned_down(stack_end_addr as int, 16);
        assert(stack_end_addr % 16 == 0) by {
            assert(guard_page@ % PAGE_SIZE == 0);
        }
    }
    Ok(VirtAddr::new(crate::addr::align_down(stack_end_addr, 16)))
}

/// Maps the two frames from the one that holds the address
/// `context_switch_function` on to the pages of the same addresses; see
/// `trampoline_mapped`.
pub fn map_context_switch(page_table: &mut AddressSpace, context_switch_function: PhysAddr) -> (r:
    Result<(), LoadError>)
    requires
        old(page_table).wf(),
        context_switch_function.wf(),
    ensures
        final(page_table).wf(),
        match trampoline_mapped(old(page_table)@, context_switch_function@) {
            Ok(space) => r is Ok && final(page_table)@ == space,
            Err(e) => r matches Err(f) && f == e,
        },
{
    let start_frame = PhysFrame::containing_address(context_switch_function);
    if start_frame.start_address().as_u64() >= PHYS_LIMIT - 2 * PAGE_SIZE {
        return Err(LoadError::AddressOutOfRange);
    }
    match identity_map(page_table, start_frame, code_page_flags()) {
        Ok(()) => {},
        Err(e) => {
            return Err(e);
        },
    }
    identity_map(page_table, start_frame.next(), code_page_flags())
}

/// Takes a frame for the global descriptor table and maps it to the page of
/// the same address; see `gdt_mapped`.
pub fn map_gdt<D: LegacyMemoryRegion>(
    page_table: &mut AddressSpace,
    frame_allocator: &mut LegacyFrameAllocator<D>,
) -> (r: Result<PhysFrame, LoadError>)
    requires
        old(page_table).wf(),
        old(frame_allocator).wf(),
    ensures
        final(page_table).wf(),
        final(frame_allocator).wf(),
        final(frame_allocator)@.regions == old(frame_allocator)@.regions,
        match gdt_mapped(state_of(old(page_table), old(frame_allocator))) {
            Ok((s, frame)) => r matches Ok(f) && f@ == frame && f.wf() && state_of(
                final(page_table),
                final(frame_allocator),
            ) == s,
            Err(e) => r matches Err(f) && f == e,
        },
{
    let gdt_frame = match frame_allocator.allocate_frame() {
        Some(frame) => frame,
        None => {
            return Err(LoadError::FrameAllocationFailed);
        },
    };
    match identity_map(page_table, gdt_frame, code_page_flags()) {
        Ok(()) => Ok(gdt_frame),
        Err(e) => Err(e),
    }
}

/// Maps the framebuffer into the kernel's address space and returns its
/// address; see `framebuffer_mapped`.
pub fn map_framebuffer(
    page_table: &mut AddressSpace,
    used_entries: &mut Entries,
    framebuffer: &RawFramebufferInfo,
) -> (r: Result<VirtAddr, LoadError>)
    requires
        old(page_table).wf(),
        old(used_entries)@.len() == 512,
        framebuffer.addr.wf(),
    ensures
        final(page_table).wf(),
        final(used_entries)@.len() == 512,
        old(used_entries).wf() ==> final(used_entries).wf(),
        match framebuffer_mapped(
            old(page_table)@,
            old(used_entries)@,
            framebuffer.addr@,
            framebuffer.info.byte_len as u64,
        ) {
            Ok((space, taken, addr)) => r matches Ok(a) && a@ == addr && a.wf() && final(page_table)@ == space && final(used_entries)@ == taken,
            Err(e) => r matches Err(f) && f == e,
        },
{
    let byte_len: u64 = crate::convert::u64_from_usize(framebuffer.info.byte_len);
    let addr: u64 = framebuffer.addr.as_u64();
    let end = match addr.checked_add(byte_len) {
        Some(end) => end,
        None => {
            return Err(LoadError::AddressOutOfRange);
        },
    };
    if end >= PHYS_LIMIT || end < 1 {
        return Err(LoadError::AddressOutOfRange);
    }
    let (start_frame, count) = match frames_between(addr, end - 1) {
        Ok(frames) => frames,
        Err(e) => {
            return Err(e);
        },
    };
    let start_page = match mapping_addr_page_aligned(byte_len, used_entries) {
        Ok(page) => page,
        Err(e) => {
            return Err(e);
        },
    };
    match Inner::map_file_pages(page_table, start_page, start_frame, count, data_page_flags()) {
        Ok(()) => Ok(start_page.start_address()),
        Err(e) => Err(e),
    }
}

/// The frames that hold the bytes from `first` to `last`; see `frame_range`.
pub fn frames_between(first: u64, last: u64) -> (r: Result<(PhysFrame, u64), LoadError>)
    requires
        first < PHYS_LIMIT,
        last < PHYS_LIMIT,
    ensures
        match frame_range(first as int, last as int) {
            Ok((frame, count)) => r matches Ok((f, n)) && f@ == frame && f.wf() && n == count && f@
                + n * PAGE_SIZE < PHYS_LIMIT,
            Err(e) => r matches Err(f) && f == e,
        },
{
    proof {
        lemma_aligned_down(first as int, PAGE_SIZE as int);
        lemma_aligned_down(last as int, PAGE_SIZE as int);
    }
    let start_frame = PhysFrame::containing_address(PhysAddr::new(first));
    let end_frame = PhysFrame::containing_address(PhysAddr::new(last));
    let f = start_frame.start_address().as_u64();
    let l = end_frame.start_address().as_u64();
    if f > l {
        return Ok((start_frame, 0));
    }
    if l + PAGE_SIZE >= PHYS_LIMIT {
        return Err(LoadError::AddressOutOfRange);
    }
    proof {
        assert((l - f) % (PAGE_SIZE as int) == 0) by {
            vstd::arithmetic::div_mod::lemma_sub_mod_noop(l as int, f as int, PAGE_SIZE as int);
        }
        vstd::arithmetic::div_mod::lemma_fundamental_div_mod(l - f, PAGE_SIZE as int);
    }
    Ok((start_frame, (l - f) / PAGE_SIZE + 1))
}

/// Maps the ramdisk into the kernel's address space and returns its address;
/// see `ramdisk_mapped`.
pub fn map_ramdisk(
    page_table: &mut AddressSpace,
    used_entries: &mut Entries,
    ramdisk_address: u64,
    ramdisk_len: u64,
) -> (r: Result<VirtAddr, LoadError>)
    requires
        old(page_table).wf(),
        old(used_entries)@.len() == 512,
    ensures
        final(page_table).wf(),
        final(used_entries)@.len() == 512,
        old(used_entries).wf() ==> final(used_entries).wf(),
        match ramdisk_mapped(old(page_table)@, old(used_entries)@, ramdisk_address, ramdisk_len) {
            Ok((space, taken, addr)) => r matches Ok(a) && a@ == addr && a.wf() && final(page_table)@ == space && final(used_entries)@ == taken,
            Err(e) => r matches Err(f) && f == e,
        },
{
    let start_page = match mapping_addr_page_aligned(ramdisk_len, used_entries) {
        Ok(page) => page,
        Err(e) => {
            return Err(e);
        },
    };
    assert(ramdisk_len >= 1) by {
        if ramdisk_len == 0 {
            assert(entries_for(0) == 0);
        }
    }
    if ramdisk_address >= PHYS_LIMIT {
        return Err(LoadError::AddressOutOfRange);
    }
    proof {
        lemma_aligned_down(ramdisk_address as int, PAGE_SIZE as int);
    }
    let start_frame = PhysFrame::containing_address(PhysAddr::new(ramdisk_address));
    let pages: u64 = (ramdisk_len - 1) / PAGE_SIZE + 1;
    if pages >= (PHYS_LIMIT - start_frame.start_address().as_u64()) / PAGE_SIZE {
        assert(start_frame@ + pages * PAGE_SIZE >= PHYS_LIMIT) by {
            let room = (PHYS_LIMIT - start_frame@) as int;
            assert(room % (PAGE_SIZE as int) == 0) by {
                vstd::arithmetic::div_mod::lemma_sub_mod_noop(
                    PHYS_LIMIT as int,
                    start_frame@ as int,
                    PAGE_SIZE as int,
                );
            }
            vstd::arithmetic::div_mod::lemma_fundamental_div_mod(room, PAGE_SIZE as int);
            assert(pages * PAGE_SIZE >= (room / (PAGE_SIZE as int)) * PAGE_SIZE)
                by (nonlinear_arith)
                requires
                    pages >= room / (PAGE_SIZE as int),
                    PAGE_SIZE == 4096,
            ;
        }
        return Err(LoadError::AddressOutOfRange);
    }
    assert(start_frame@ + pages * PAGE_SIZE < PHYS_LIMIT) by {
        let room = (PHYS_LIMIT - start_frame@) as int;
        vstd::arithmetic::div_mod::lemma_fundamental_div_mod(room, PAGE_SIZE as int);
        assert(pages * PAGE_SIZE + PAGE_SIZE <= (room / (PAGE_SIZE as int)) * PAGE_SIZE)
            by (nonlinear_arith)
            requires
                pages + 1 <= room / (PAGE_SIZE as int),
                PAGE_SIZE == 4096,
        ;
    }
    match Inner::map_file_pages(page_table, start_page, start_frame, pages, data_page_flags()) {
        Ok(()) => Ok(start_page.start_address()),
        Err(e) => Err(e),
    }
}

/// Sets up the kernel's address space: loads the kernel, sets up its stack,
/// maps the function that switches to the kernel and the frame of the global
/// descriptor table where they lie, and maps the framebuffer and the ramdisk
/// where there are any. See `mappings_set_up`.
pub fn set_up_mappings<D: LegacyMemoryRegion>(
    kernel: Kernel<'_>,
    frame_allocator: &mut LegacyFrameAllocator<D>,
    page_tables: &mut PageTables,
    framebuffer: Option<&RawFramebufferInfo>,
    system_info: &SystemInfo,
    context_switch_function: PhysAddr,
) -> (r: Result<Mappings, BootError>)
    requires
        kernel.wf(),
        old(frame_allocator).wf(),
        old(page_tables).kernel.wf(),
        context_switch_function.wf(),
        framebuffer matches Some(fb) ==> fb.addr.wf(),
    ensures
        final(page_tables).kernel.wf(),
        final(page_tables).bootloader == old(page_tables).bootloader,
        final(page_tables).kernel_level_4_frame == old(page_tables).kernel_level_4_frame,
        final(frame_allocator).wf(),
        final(frame_allocator)@.regions == old(frame_allocator)@.regions,
        match mappings_set_up(
            state_of(&old(page_tables).kernel, old(frame_allocator)),
            kernel.elf.input@,
            kernel.elf.header,
            kernel.start_address,
            context_switch_function@,
            match framebuffer {
                Some(fb) => Some((fb.addr@, fb.info.byte_len as u64)),
                None => None,
            },
            system_info.ramdisk_addr,
            system_info.ramdisk_len,
        ) {
            Ok(set_up) => r matches Ok(m) && m.wf() && m.view_matches(set_up) && m.kernel_slice_start
                == kernel.start_address && m.kernel_slice_len == kernel.len
                && m.ramdisk_slice_len == system_info.ramdisk_len && state_of(
                &final(page_tables).kernel,
                final(frame_allocator),
            ) == set_up.state,
            Err(e) => r matches Err(f) && f == e,
        },
        crate::kernel::loader_planned(
            kernel.elf.input@,
            kernel.elf.header,
            kernel.start_address,
            fresh_entries(),
        ) is Err ==> state_of(&final(page_tables).kernel, final(frame_allocator)) == state_of(
            &old(page_tables).kernel,
            old(frame_allocator),
        ),
{
    let mut used_entries = Entries::new();
    assert(used_entries@ =~= fresh_entries());
    let kernel_slice_start = kernel.start_address;
    let kernel_slice_len = crate::convert::u64_from_usize(kernel.len);
    let (entry_point, tls_template) = match load_kernel(
        kernel,
        &mut page_tables.kernel,
        frame_allocator,
        &mut used_entries,
    ) {
        Ok(loaded) => loaded,
        Err(cause) => {
            return Err(BootError { stage: Stage::Kernel, cause });
        },
    };
    let stack_top = match map_stack(&mut page_tables.kernel, frame_allocator, &mut used_entries) {
        Ok(top) => top,
        Err(cause) => {
            return Err(BootError { stage: Stage::Stack, cause });
        },
    };
    match map_context_switch(&mut page_tables.kernel, context_switch_function) {
        Ok(()) => {},
        Err(cause) => {
            return Err(BootError { stage: Stage::ContextSwitch, cause });
        },
    }
    let gdt_frame = match map_gdt(&mut page_tables.kernel, frame_allocator) {
        Ok(frame) => frame,
        Err(cause) => {
            return Err(BootError { stage: Stage::Gdt, cause });
        },
    };
    let framebuffer_virt_addr = match framebuffer {
        Some(framebuffer) => {
            match map_framebuffer(&mut page_tables.kernel, &mut used_entries, framebuffer) {
                Ok(addr) => Some(addr),
                Err(cause) => {
                    return Err(BootError { stage: Stage::Framebuffer, cause });
                },
            }
        },
        None => None,
    };
    let ramdisk_slice_len = system_info.ramdisk_len;
    let ramdisk_slice_start = match system_info.ramdisk_addr {
        Some(ramdisk_address) => {
            match map_ramdisk(
                &mut page_tables.kernel,
                &mut used_entries,
                ramdisk_address,
                system_info.ramdisk_len,
            ) {
                Ok(addr) => Some(addr),
                Err(cause) => {
                    return Err(BootError { stage: Stage::Ramdisk, cause });
                },
            }
        },
        None => None,
    };
    Ok(
        Mappings {
            framebuffer: framebuffer_virt_addr,
            entry_point,
            stack_top,
            used_entries,
            physical_memory_offset: None,
            recursive_index: None,
            tls_template,
            kernel_slice_start,
            kernel_slice_len,
            ramdisk_slice_start,
            ramdisk_slice_len,
            gdt_frame,
        },
    )
}

impl Mappings {
    /// The invariant of the type.
    pub open spec fn wf(&self) -> bool {
        &&& self.used_entries.wf()
        &&& self.entry_point.wf()
        &&& self.stack_top.wf()
        &&& self.gdt_frame.wf()
        &&& self.framebuffer matches Some(a) ==> a.wf()
        &&& self.ramdisk_slice_start matches Some(a) ==> a.wf()
    }

    /// Whether the record holds what setting up the address space gave.
    pub open spec fn view_matches<D>(&self, set_up: SetUp<D>) -> bool {
        &&& self.used_entries@ == set_up.entries
        &&& self.entry_point@ == set_up.entry_point
        &&& self.tls_template == set_up.tls_template
        &&& self.stack_top@ == set_up.stack_top
        &&& self.gdt_frame@ == set_up.gdt_frame
        &&& self.physical_memory_offset is None
        &&& self.recursive_index is None
        &&& match set_up.framebuffer {
            Some(a) => self.framebuffer matches Some(v) && v@ == a,
            None => self.framebuffer is None,
        }
        &&& match set_up.ramdisk {
            Some(a) => self.ramdisk_slice_start matches Some(v) && v@ == a,
            None => self.ramdisk_slice_start is None,
        }
    }
}

/// The number of bytes of the boot information record in the kernel's memory.
pub const BOOT_INFO_SIZE: u64 = 168;

/// The alignment of the boot information record and of a memory region.
pub const BOOT_INFO_ALIGN: u64 = 8;

/// The number of bytes of a memory region in the kernel's memory.
pub const MEMORY_REGION_SIZE: u64 = 24;

/// The number of regions by which the kernel's memory map may be longer than
/// the firmware's.
pub const EXTRA_REGIONS: usize = 4;

/// Where the boot information lies in the kernel's address space.
#[derive(Clone, Copy, Debug)]
pub struct BootInfoPlacement {
    /// The address of the boot information record.
    pub boot_info_addr: VirtAddr,
    /// The address of the array of memory regions, which follows the record.
    pub memory_regions_addr: VirtAddr,
    /// The number of memory regions that the array can hold.
    pub regions: usize,
    /// The number of bytes of the record and the array together.
    pub size: u64,
}

/// The state of the boot loader while the boot information is set up.
pub struct BootState<D> {
    /// The kernel's address space.
    pub kernel: Map<u64, Mapping>,
    /// What is mapped into the boot loader's address space.
    pub bootloader: Map<u64, Mapping>,
    pub allocator: AllocatorState<D>,
}

/// The number of bytes of the boot information record and of an array of
/// `regions` memory regions after it.
pub open spec fn boot_info_size(regions: int) -> int {
    BOOT_INFO_SIZE + regions * MEMORY_REGION_SIZE
}

/// The state after the `count` pages from `first` on were each mapped to a new
/// frame in the kernel's address space and in the boot loader's, with the same
/// flags.
pub open spec fn shared_pages_mapped<D: LegacyMemoryRegion>(
    state: BootState<D>,
    first: u64,
    count: nat,
    flags: PageFlags,
) -> Result<BootState<D>, LoadError>
    decreases count,
{
    if count == 0 {
        Ok(state)
    } else {
        match shared_pages_mapped(state, first, (count - 1) as nat, flags) {
            Err(e) => Err(e),
            Ok(s) => match s.allocator.allocate().0 {
                None => Err(LoadError::FrameAllocationFailed),
                Some(frame) => {
                    let page = (first + (count - 1) * PAGE_SIZE) as u64;
                    if s.kernel.contains_key(page) || s.bootloader.contains_key(page) {
                        Err(LoadError::MapToFailed)
                    } else {
                        Ok(
                            BootState {
                                kernel: s.kernel.insert(page, Mapping { frame, flags, data: None, copy_of: None }),
                                bootloader: s.bootloader.insert(
                                    page,
                                    Mapping { frame, flags, data: None, copy_of: None },
                                ),
                                allocator: s.allocator.allocate().1,
                            },
                        )
                    }
                },
            },
        }
    }
}

/// Where mapping the first `part` pages fails, mapping `count` of them fails
/// in the same way.
pub proof fn lemma_shared_pages_mapped_fails<D: LegacyMemoryRegion>(
    state: BootState<D>,
    first: u64,
    count: nat,
    part: nat,
    flags: PageFlags,
)
    requires
        part <= count,
    ensures
        shared_pages_mapped(state, first, part, flags) matches Err(e) ==> shared_pages_mapped(
            state,
            first,
            count,
            flags,
        ) == Err::<BootState<D>, LoadError>(e),
    decreases count - part,
{
    if part < count {
        lemma_shared_pages_mapped_fails(state, first, count, part + 1, flags);
    }
}

/// The state after room for the boot information was reserved and mapped, the
/// level 4 entries that are taken, and the address of the boot information.
/// The room holds the record and an array of four regions more than the
/// firmware's memory map has; its pages are mapped to new frames in both
/// address spaces.
pub open spec fn boot_info_mapped<D: LegacyMemoryRegion>(
    state: BootState<D>,
    entries: Seq<bool>,
) -> Result<(BootState<D>, Seq<bool>, u64), LoadError> {
    let regions = state.allocator.regions.len() + EXTRA_REGIONS;
    let size = boot_info_size(regions as int);
    if regions > usize::MAX || size > isize::MAX {
        Err(LoadError::AddressOutOfRange)
    } else {
        match address_reserved(entries, size as u64, BOOT_INFO_ALIGN) {
            Err(e) => Err(e),
            Ok((addr, taken)) => match touched_pages(Some(addr), size as u64) {
                Err(e) => Err(e),
                Ok((first, count)) => match shared_pages_mapped(state, first, count, data_flags()) {
                    Err(e) => Err(e),
                    Ok(s) => Ok((s, taken, addr)),
                },
            },
        }
    }
}

/// Reserves room for the boot information in the kernel's address space and
/// maps it to new frames, in the kernel's address space and in the boot
/// loader's; see `boot_info_mapped`.
#[verifier::loop_isolation(false)]
pub fn map_boot_info<D: LegacyMemoryRegion>(
    frame_allocator: &mut LegacyFrameAllocator<D>,
    page_tables: &mut PageTables,
    mappings: &mut Mappings,
) -> (r: Result<BootInfoPlacement, BootError>)
    requires
        old(frame_allocator).wf(),
        old(page_tables).kernel.wf(),
        old(page_tables).bootloader.wf(),
        old(mappings).used_entries@.len() == 512,
    ensures
        final(frame_allocator).wf(),
        final(frame_allocator)@.regions == old(frame_allocator)@.regions,
        final(page_tables).kernel.wf(),
        final(page_tables).bootloader.wf(),
        final(page_tables).kernel_level_4_frame == old(page_tables).kernel_level_4_frame,
        final(mappings).used_entries@.len() == 512,
        old(mappings).wf() ==> final(mappings).wf(),
        match boot_info_mapped(
            BootState {
                kernel: old(page_tables).kernel@,
                bootloader: old(page_tables).bootloader@,
                allocator: old(frame_allocator)@,
            },
            old(mappings).used_entries@,
        ) {
            Ok((s, taken, addr)) => r matches Ok(placement) && placement.boot_info_addr@ == addr
                && placement.boot_info_addr.wf() && placement.memory_regions_addr@ == addr
                + BOOT_INFO_SIZE && placement.regions == old(frame_allocator)@.regions.len()
                + EXTRA_REGIONS && placement.size == boot_info_size(placement.regions as int)
                && final(page_tables).kernel@ == s.kernel && final(page_tables).bootloader@
                == s.bootloader && final(frame_allocator)@ == s.allocator && final(mappings).used_entries@ == taken,
            Err(cause) => r matches Err(f) && f == (BootError { stage: Stage::BootInfo, cause }),
        },
        final(mappings).entry_point == old(mappings).entry_point,
        final(mappings).stack_top == old(mappings).stack_top,
        final(mappings).framebuffer == old(mappings).framebuffer,
        final(mappings).tls_template == old(mappings).tls_template,
        final(mappings).kernel_slice_start == old(mappings).kernel_slice_start,
        final(mappings).kernel_slice_len == old(mappings).kernel_slice_len,
        final(mappings).ramdisk_slice_start == old(mappings).ramdisk_slice_start,
        final(mappings).ramdisk_slice_len == old(mappings).ramdisk_slice_len,
        final(mappings).gdt_frame == old(mappings).gdt_frame,
        final(mappings).physical_memory_offset == old(mappings).physical_memory_offset,
        final(mappings).recursive_index == old(mappings).recursive_index,
{
    let len = frame_allocator.len();
    if len > usize::MAX - EXTRA_REGIONS {
        return Err(BootError { stage: Stage::BootInfo, cause: LoadError::AddressOutOfRange });
    }
    let regions: usize = len + EXTRA_REGIONS;
    let count = crate::convert::u64_from_usize(regions);
    if count > (isize::MAX as u64 - BOOT_INFO_SIZE) / MEMORY_REGION_SIZE {
        assert(boot_info_size(regions as int) > isize::MAX) by (nonlinear_arith)
            requires
                regions > (isize::MAX - BOOT_INFO_SIZE) / (MEMORY_REGION_SIZE as int),
                MEMORY_REGION_SIZE == 24,
                BOOT_INFO_SIZE == 168,
        ;
        return Err(BootError { stage: Stage::BootInfo, cause: LoadError::AddressOutOfRange });
    }
    assert(boot_info_size(regions as int) <= isize::MAX) by (nonlinear_arith)
        requires
            regions <= (isize::MAX - BOOT_INFO_SIZE) / (MEMORY_REGION_SIZE as int),
            MEMORY_REGION_SIZE == 24,
            BOOT_INFO_SIZE == 168,
    ;
    let size: u64 = BOOT_INFO_SIZE + count * MEMORY_REGION_SIZE;
    let boot_info_addr = match mapping_addr(size, BOOT_INFO_ALIGN, &mut mappings.used_entries) {
        Ok(addr) => addr,
        Err(cause) => {
            return Err(BootError { stage: Stage::BootInfo, cause });
        },
    };
    let ghost index = choose|index: int|
        0 <= index < 512 && boot_info_addr@ == #[trigger] p4_start(index);
    proof {
        lemma_level_4_region(index, BOOT_INFO_SIZE as int);
    }
    let (first, pages) = match Inner::touched(Some(boot_info_addr.as_u64()), size) {
        Ok(found) => found,
        Err(cause) => {
            return Err(BootError { stage: Stage::BootInfo, cause });
        },
    };
    let ghost start = BootState {
        kernel: page_tables.kernel@,
        bootloader: page_tables.bootloader@,
        allocator: frame_allocator@,
    };
    let flags = data_page_flags();
    let mut i: u64 = 0;
    while i < pages
        invariant
            frame_allocator.wf(),
            page_tables.kernel.wf(),
            page_tables.bootloader.wf(),
            page_tables.kernel_level_4_frame == old(page_tables).kernel_level_4_frame,
            first.wf(),
            i <= pages,
            flags == data_flags(),
            frame_allocator@.regions == old(frame_allocator)@.regions,
            start == (BootState {
                kernel: old(page_tables).kernel@,
                bootloader: old(page_tables).bootloader@,
                allocator: old(frame_allocator)@,
            }),
            forall|j: int|
                0 <= j < pages ==> is_canonical(first@ + j * PAGE_SIZE) && #[trigger] page_after(
                    first@,
                    j,
                ) == Some((first@ + j * PAGE_SIZE) as u64),
            shared_pages_mapped(start, first@, i as nat, flags) == Ok::<BootState<D>, LoadError>(
                BootState {
                    kernel: page_tables.kernel@,
                    bootloader: page_tables.bootloader@,
                    allocator: frame_allocator@,
                },
            ),
            shared_pages_mapped(start, first@, pages as nat, flags) matches Err(e)
                ==> boot_info_mapped(start, old(mappings).used_entries@) == Err::<
                (BootState<D>, Seq<bool>, u64),
                LoadError,
            >(e),
        decreases pages - i,
    {
        proof {
            lemma_shared_pages_mapped_fails(start, first@, pages as nat, (i + 1) as nat, flags);
            assert(page_after(first@, i as int) == Some((first@ + i * PAGE_SIZE) as u64));
        }
        let frame = match frame_allocator.allocate_frame() {
            Some(frame) => frame,
            None => {
                return Err(
                    BootError { stage: Stage::BootInfo, cause: LoadError::FrameAllocationFailed },
                );
            },
        };
        let page = first.checked_add(i).unwrap();
        if page_tables.kernel.contains(page) || page_tables.bootloader.contains(page) {
            return Err(BootError { stage: Stage::BootInfo, cause: LoadError::MapToFailed });
        }
        let in_kernel = page_tables.kernel.map_to(page, frame, flags);
        let in_bootloader = page_tables.bootloader.map_to(page, frame, flags);
        assert(in_kernel.is_ok() && in_bootloader.is_ok());
        i += 1;
    }
    let memory_regions_addr = VirtAddr::new(boot_info_addr.as_u64() + BOOT_INFO_SIZE);
    Ok(BootInfoPlacement { boot_info_addr, memory_regions_addr, regions, size })
}

/// The boot information: the memory map as the frame allocator leaves it, and
/// what the mappings and the firmware say of framebuffer, ACPI, thread-local
/// storage and ramdisk. The memory map has to fit into `regions` regions.
pub fn create_boot_info<D: LegacyMemoryRegion>(
    boot_config: &BootConfig,
    frame_allocator: LegacyFrameAllocator<D>,
    mappings: &Mappings,
    system_info: SystemInfo,
    regions: usize,
) -> (r: Result<BootInfo, BootError>)
    requires
        frame_allocator.wf(),
    ensures
        match constructible(
            frame_allocator@,
            regions as int,
            mappings.kernel_slice_start,
            mappings.kernel_slice_len,
        ) {
            Err(cause) => r matches Err(f) && f == (BootError { stage: Stage::BootInfo, cause }),
            Ok(()) => if mappings.framebuffer.is_some() && system_info.framebuffer.is_none() {
                r matches Err(f) && f == (BootError {
                    stage: Stage::BootInfo,
                    cause: LoadError::FramebufferMissing,
                })
            } else {
                r matches Ok(info) && info.memory_regions@ == memory_map(
                    frame_allocator@.regions,
                    frame_allocator@.next_frame,
                    mappings.kernel_slice_start,
                    (mappings.kernel_slice_start + mappings.kernel_slice_len) as u64,
                ) && (match mappings.framebuffer {
                    Some(addr) => info.framebuffer matches Optional::Present(fb)
                        && fb.start_address == addr@ && fb.info == system_info.framebuffer.unwrap().info,
                    None => info.framebuffer is Absent,
                }) && (match mappings.physical_memory_offset {
                    Some(addr) => info.physical_memory_offset == Optional::Present(addr@),
                    None => info.physical_memory_offset is Absent,
                }) && (match system_info.rsdp_addr {
                    Some(addr) => info.rsdp_address == Optional::Present(addr@),
                    None => info.rsdp_address is Absent,
                }) && info.tls_template == Optional::<TlsTemplate>::of_option(
                    mappings.tls_template,
                ) && (match mappings.ramdisk_slice_start {
                    Some(addr) => info.ramdisk_address == Optional::Present(addr@),
                    None => info.ramdisk_address is Absent,
                }) && info.ramdisk_len == mappings.ramdisk_slice_len
            },
        },
{
    match frame_allocator.check_memory_map(
        regions,
        mappings.kernel_slice_start,
        mappings.kernel_slice_len,
    ) {
        Ok(()) => {},
        Err(cause) => {
            return Err(BootError { stage: Stage::BootInfo, cause });
        },
    }
    let mut memory_regions: Vec<MemoryRegion> = Vec::new();
    let mut i: usize = 0;
    while i < regions
        invariant
            i <= regions,
            memory_regions@.len() == i,
        decreases regions - i,
    {
        memory_regions.push(MemoryRegion::empty());
        i += 1;
    }
    let count = frame_allocator.construct_memory_map(
        &mut memory_regions,
        mappings.kernel_slice_start,
        mappings.kernel_slice_len,
    );
    memory_regions.truncate(count);
    let mut info = BootInfo::new(MemoryRegions { regions: memory_regions });
    info.framebuffer = match mappings.framebuffer {
        Some(addr) => match system_info.framebuffer {
            Some(raw) => Optional::Present(Framebuffer::new(addr.as_u64(), raw.info)),
            None => {
                return Err(
                    BootError { stage: Stage::BootInfo, cause: LoadError::FramebufferMissing },
                );
            },
        },
        None => Optional::Absent,
    };
    info.physical_memory_offset = match mappings.physical_memory_offset {
        Some(addr) => Optional::Present(addr.as_u64()),
        None => Optional::Absent,
    };
    info.rsdp_address = match system_info.rsdp_addr {
        Some(addr) => Optional::Present(addr.as_u64()),
        None => Optional::Absent,
    };
    info.tls_template = match mappings.tls_template {
        Some(template) => Optional::Present(template),
        None => Optional::Absent,
    };
    info.ramdisk_address = match mappings.ramdisk_slice_start {
        Some(addr) => Optional::Present(addr.as_u64()),
        None => Optional::Absent,
    };
    info.ramdisk_len = mappings.ramdisk_slice_len;
    Ok(info)
}

/// What the processor holds when the kernel is entered.
#[derive(Clone, Copy, Debug)]
pub struct Addresses {
    /// The frame of the kernel's level 4 page table, for the register CR3.
    pub page_table: PhysFrame,
    /// The first address above the kernel's stack, for the stack pointer.
    pub stack_top: VirtAddr,
    /// The address at which the kernel is entered.
    pub entry_point: VirtAddr,
    /// The address of the boot information, which the kernel receives as its
    /// first argument.
    pub boot_info: VirtAddr,
}

/// What the processor is to hold when the kernel is entered: the kernel's
/// page table, its stack, its entry point, and the boot information as its
/// argument.
pub fn switch_to_kernel(page_tables: PageTables, mappings: Mappings, boot_info: VirtAddr) -> (r:
    Addresses)
    ensures
        r.page_table == page_tables.kernel_level_4_frame,
        r.stack_top == mappings.stack_top,
        r.entry_point == mappings.entry_point,
        r.boot_info == boot_info,
{
    let PageTables { kernel_level_4_frame, .. } = page_tables;
    Addresses {
        page_table: kernel_level_4_frame,
        stack_top: mappings.stack_top,
        entry_point: mappings.entry_point,
        boot_info,
    }
}

} // verus!
