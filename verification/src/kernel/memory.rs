use vstd::prelude::*;
use crate::addr::{
    aligned_down, canonical_form, is_canonical, lemma_aligned_down_canonical, Page, PhysAddr,
    PhysFrame, VirtAddr, PAGE_SIZE, };
use crate::error::LoadError;
use crate::frame_allocator::{AllocatorState, LegacyFrameAllocator, LegacyMemoryRegion};
use crate::kernel::VirtualAddressOffset;
use crate::paging::{AddressSpace, Mapping, PageFlags};

verus! {

/// The kernel's file as it lies in physical memory: its bytes, and the address
/// of the first of them. The rest of the last frame of the file is taken to
/// hold zeros.
pub struct Image {
    pub bytes: Seq<u8>,
    pub start: u64,
}

/// What the loader works on: the mappings of the kernel's address space, and
/// the frame allocator.
pub struct LoadState<D> {
    pub space: Map<u64, Mapping>,
    pub allocator: AllocatorState<D>,
}

/// What the loader knows of the image while it loads it.
#[derive(Clone, Copy)]
pub struct Inner<'a> {
    /// The bytes of the kernel's file.
    pub kernel: &'a [u8],
    /// The physical address of the first byte of the file.
    pub kernel_offset: PhysAddr,
    /// How far the image is moved from the addresses that the file names.
    pub virtual_address_offset: VirtualAddressOffset,
}

impl<'a> Inner<'a> {
    /// The image as a mathematical value.
    pub open spec fn image(&self) -> Image {
        Image { bytes: self.kernel@, start: self.kernel_offset@ }
    }

    /// The invariant of the type: the file starts at a frame and fits into the
    /// physical address space.
    pub open spec fn wf(&self) -> bool {
        &&& self.kernel_offset.wf()
        &&& self.kernel_offset@ % PAGE_SIZE == 0
    }
}

/// What is known of the 4096 bytes that the frame `frame` holds: where it is
/// a frame of the image, the bytes of the file, and zeros after the end of the
/// file; of any other frame nothing.
pub open spec fn frame_bytes(image: Image, frame: u64) -> Seq<Option<u8>> {
    Seq::new(
        PAGE_SIZE as nat,
        |i: int|
            if image.start <= frame < image.start + image.bytes.len() {
                if frame - image.start + i < image.bytes.len() {
                    Some(image.bytes[frame - image.start + i])
                } else {
                    Some(0u8)
                }
            } else {
                None
            },
    )
}

/// What is known of the 4096 bytes that the page `page` shows: what the boot
/// loader has put into its frame, or what its frame holds of the image. A page
/// that is not mapped shows nothing.
pub open spec fn page_bytes(space: Map<u64, Mapping>, image: Image, page: u64) -> Option<
    Seq<Option<u8>>,
> {
    if space.contains_key(page) {
        match space[page].data {
            Some(d) => Some(d),
            None => Some(frame_bytes(image, space[page].frame)),
        }
    } else {
        None
    }
}

/// The frame from which the bytes of a mapping come that the boot loader has
/// not set: the frame that the mapping is a copy of, or its own frame.
pub open spec fn copy_source(mapping: Mapping) -> u64 {
    match mapping.copy_of {
        Some(frame) => frame,
        None => mapping.frame,
    }
}

/// The page that holds the canonical address `addr`.
pub open spec fn page_of(addr: u64) -> u64 {
    aligned_down(addr as int, PAGE_SIZE as int) as u64
}

/// The address of the byte `i` bytes after `addr`, if there is one: the sum
/// has to fit into 64 bits and to stand for a virtual address.
pub open spec fn byte_address(addr: u64, i: int) -> Option<u64> {
    if 0 <= i && addr + i <= u64::MAX {
        canonical_form((addr + i) as u64)
    } else {
        None
    }
}

/// The byte that is read at the virtual address `addr`, where it is known.
pub open spec fn byte_read(space: Map<u64, Mapping>, image: Image, addr: u64) -> Option<u8> {
    match page_bytes(space, image, page_of(addr)) {
        Some(bytes) => bytes[addr - page_of(addr)],
        None => None,
    }
}

/// Whether the `len` bytes from `addr` on can be read.
pub open spec fn readable(space: Map<u64, Mapping>, image: Image, addr: u64, len: int) -> bool {
    forall|i: int|
        0 <= i < len ==> (#[trigger] byte_address(addr, i)).is_some() && byte_read(
            space,
            image,
            byte_address(addr, i).unwrap(),
        ).is_some()
}

/// The `len` bytes that are read from the virtual address `addr` on.
pub open spec fn bytes_read(space: Map<u64, Mapping>, image: Image, addr: u64, len: int) -> Option<
    Seq<u8>,
> {
    if readable(space, image, addr, len) {
        Some(
            Seq::new(
                len as nat,
                |i: int| byte_read(space, image, byte_address(addr, i).unwrap()).unwrap(),
            ),
        )
    } else {
        None
    }
}

/// The flags `flags` with the mark of a frame of the page's own.
pub open spec fn marked_copied(flags: PageFlags) -> PageFlags {
    PageFlags { copied: true, ..flags }
}

/// Making the page `page` safe to write: a page that is marked as having a
/// frame of its own stays as it is; any other page gets a new frame, which is
/// a copy of the frame that the page was mapped to and so shows what the page
/// showed, and the mark. The result names the frame of the page.
pub open spec fn made_mutable<D: LegacyMemoryRegion>(
    state: LoadState<D>,
    image: Image,
    page: u64,
) -> Result<(LoadState<D>, u64), LoadError> {
    if !state.space.contains_key(page) {
        Err(LoadError::PageNotMapped)
    } else if state.space[page].flags.copied {
        Ok((state, state.space[page].frame))
    } else {
        match state.allocator.allocate().0 {
            None => Err(LoadError::FrameAllocationFailed),
            Some(frame) => Ok(
                (
                    LoadState {
                        space: state.space.insert(
                            page,
                            Mapping {
                                frame,
                                flags: marked_copied(state.space[page].flags),
                                data: page_bytes(state.space, image, page),
                                copy_of: Some(copy_source(state.space[page])),
                            },
                        ),
                        allocator: state.allocator.allocate().1,
                    },
                    frame,
                ),
            ),
        }
    }
}

/// Writing the byte `value` to the virtual address `addr`, after the page of
/// the address was made safe to write.
pub open spec fn byte_written<D: LegacyMemoryRegion>(
    state: LoadState<D>,
    image: Image,
    addr: u64,
    value: u8,
) -> Result<LoadState<D>, LoadError> {
    match made_mutable(state, image, page_of(addr)) {
        Err(e) => Err(e),
        Ok((s, _)) => Ok(
            LoadState {
                space: s.space.insert(
                    page_of(addr),
                    Mapping {
                        data: Some(
                            page_bytes(s.space, image, page_of(addr)).unwrap().update(
                                addr - page_of(addr),
                                Some(value),
                            ),
                        ),
                        ..s.space[page_of(addr)]
                    },
                ),
                ..s
            },
        ),
    }
}

/// Writing `bytes` to the virtual addresses from `addr` on, one byte after the
/// other.
#[verifier::opaque]
pub open spec fn bytes_written<D: LegacyMemoryRegion>(
    state: LoadState<D>,
    image: Image,
    addr: u64,
    bytes: Seq<u8>,
) -> Result<LoadState<D>, LoadError>
    decreases bytes.len(),
{
    if bytes.len() == 0 {
        Ok(state)
    } else {
        match bytes_written(state, image, addr, bytes.drop_last()) {
            Err(e) => Err(e),
            Ok(s) => match byte_address(addr, bytes.len() - 1) {
                None => Err(LoadError::AddressOutOfRange),
                Some(a) => byte_written(s, image, a, bytes.last()),
            },
        }
    }
}

/// Whether each of the `len` bytes from `addr` on has an address.
pub open spec fn addressable(addr: u64, len: int) -> bool {
    forall|i: int| 0 <= i < len ==> (#[trigger] byte_address(addr, i)).is_some()
}

/// Whether each of the `len` bytes from `addr` on lies in a page that is
/// mapped.
pub open spec fn all_bytes_mapped(space: Map<u64, Mapping>, addr: u64, len: int) -> bool {
    forall|i: int|
        0 <= i < len ==> space.contains_key(page_of((#[trigger] byte_address(addr, i)).unwrap()))
}

/// The `len` bytes that are read from the virtual address `addr` on, or why
/// they cannot be read: one of them has no address, one of them lies in a page
/// that is not mapped, or nothing is known of one of them.
pub open spec fn copied_from(space: Map<u64, Mapping>, image: Image, addr: u64, len: int) -> Result<
    Seq<u8>,
    LoadError,
> {
    if !addressable(addr, len) {
        Err(LoadError::AddressOutOfRange)
    } else if !all_bytes_mapped(space, addr, len) {
        Err(LoadError::PageNotMapped)
    } else {
        match bytes_read(space, image, addr, len) {
            Some(bytes) => Ok(bytes),
            None => Err(LoadError::ContentsUnknown),
        }
    }
}

/// The state that an address space and a frame allocator make up.
pub open spec fn state_of<D: LegacyMemoryRegion>(
    page_table: &AddressSpace,
    frame_allocator: &LegacyFrameAllocator<D>,
) -> LoadState<D> {
    LoadState { space: page_table@, allocator: frame_allocator@ }
}

/// Whether an operation ended as `expected` says: with the state that it names,
/// or with the error that it names.
pub open spec fn ended_as<D: LegacyMemoryRegion>(
    r: Result<(), LoadError>,
    after: LoadState<D>,
    expected: Result<LoadState<D>, LoadError>,
) -> bool {
    match expected {
        Ok(s) => r is Ok && after == s,
        Err(e) => r == Err::<(), LoadError>(e),
    }
}

/// The page of a canonical address is a page, at most a page below the address.
pub proof fn lemma_page_of(addr: u64)
    requires
        is_canonical(addr as int),
    ensures
        is_canonical(page_of(addr) as int),
        page_of(addr) % PAGE_SIZE == 0,
        page_of(addr) <= addr,
        addr - page_of(addr) < PAGE_SIZE,
{
    lemma_aligned_down_canonical(addr);
}

impl<'a> Inner<'a> {
    /// What is known of the byte at index `index` of the frame `frame`.
    fn image_byte(&self, frame: PhysFrame, index: usize) -> (r: Option<u8>)
        requires
            self.wf(),
            frame.wf(),
            index < PAGE_SIZE,
        ensures
            r == frame_bytes(self.image(), frame@)[index as int],
    {
        let start = frame.start_address().as_u64();
        let base = self.kernel_offset.as_u64();
        if base <= start && start - base < self.kernel.len() as u64 {
            let at: u64 = start - base + index as u64;
            if at < self.kernel.len() as u64 {
                Some(self.kernel[at as usize])
            } else {
                Some(0)
            }
        } else {
            None
        }
    }

    /// What is known of the 4096 bytes that the page `page` shows; none where
    /// the page is not mapped.
    pub fn read_page(&self, page_table: &AddressSpace, page: Page) -> (r: Option<Vec<Option<u8>>>)
        requires
            self.wf(),
            page_table.wf(),
            page.wf(),
        ensures
            r.is_some() == page_table@.contains_key(page@),
            r matches Some(bytes) ==> Some(bytes@) == page_bytes(page_table@, self.image(), page@)
                && bytes@.len() == PAGE_SIZE,
    {
        proof {
            page_table.lemma_wf();
        }
        let (frame, _) = match page_table.translate(page) {
            Some(found) => found,
            None => {
                return None;
            },
        };
        let from_image: bool = match page_table.data_byte(page, 0) {
            Some(_) => false,
            None => true,
        };
        let mut bytes: Vec<Option<u8>> = Vec::new();
        let mut i: usize = 0;
        while i < PAGE_SIZE as usize
            invariant
                self.wf(),
                page_table.wf(),
                page.wf(),
                frame.wf(),
                i <= PAGE_SIZE,
                page_table@.contains_key(page@),
                frame@ == page_table@[page@].frame,
                from_image == page_table@[page@].data.is_none(),
                bytes@.len() == i,
                forall|j: int|
                    0 <= j < i ==> bytes@[j] == page_bytes(page_table@, self.image(), page@).unwrap()[j],
            decreases PAGE_SIZE - i,
        {
            proof {
                page_table.lemma_wf();
            }
            let b: Option<u8> = if from_image {
                self.image_byte(frame, i)
            } else {
                page_table.data_byte(page, i).unwrap()
            };
            bytes.push(b);
            i += 1;
        }
        proof {
            page_table.lemma_wf();
            assert(bytes@ =~= page_bytes(page_table@, self.image(), page@).unwrap());
        }
        Some(bytes)
    }

    /// Makes `page` safe to write; see `made_mutable`.
    pub fn make_mut<D: LegacyMemoryRegion>(
        &self,
        page_table: &mut AddressSpace,
        frame_allocator: &mut LegacyFrameAllocator<D>,
        page: Page,
    ) -> (r: Result<PhysFrame, LoadError>)
        requires
            self.wf(),
            old(page_table).wf(),
            old(frame_allocator).wf(),
            page.wf(),
        ensures
            final(page_table).wf(),
            final(frame_allocator).wf(),
            final(frame_allocator)@.regions == old(frame_allocator)@.regions,
            match made_mutable(state_of(old(page_table), old(frame_allocator)), self.image(), page@) {
                Ok((s, f)) => r matches Ok(frame) && frame@ == f && frame.wf() && state_of(
                    final(page_table),
                    final(frame_allocator),
                ) == s,
                Err(e) => r == Err::<PhysFrame, LoadError>(e),
            },
    {
        let (frame, flags) = match page_table.translate(page) {
            Some(found) => found,
            None => {
                return Err(LoadError::PageNotMapped);
            },
        };
        if flags.copied {
            return Ok(frame);
        }
        let new_frame = match frame_allocator.allocate_frame() {
            Some(new_frame) => new_frame,
            None => {
                return Err(LoadError::FrameAllocationFailed);
            },
        };
        let data = self.read_page(page_table, page).unwrap();
        let source = match page_table.copy_source(page) {
            Some(source) => source,
            None => frame,
        };
        let new_flags = PageFlags { copied: true, ..flags };
        let ghost expected = old(page_table)@.insert(
            page@,
            Mapping {
                frame: new_frame@,
                flags: new_flags,
                data: Some(data@),
                copy_of: Some(source@),
            },
        );
        page_table.unmap(page);
        let mapped = page_table.map_with_data(page, new_frame, new_flags, data, Some(source));
        assert(mapped.is_ok());
        assert(page_table@ =~= expected);
        Ok(new_frame)
    }

    /// Writes `value` to the virtual address `addr`; see `byte_written`.
    pub fn write_byte<D: LegacyMemoryRegion>(
        &self,
        page_table: &mut AddressSpace,
        frame_allocator: &mut LegacyFrameAllocator<D>,
        addr: VirtAddr,
        value: u8,
    ) -> (r: Result<(), LoadError>)
        requires
            self.wf(),
            old(page_table).wf(),
            old(frame_allocator).wf(),
            addr.wf(),
        ensures
            final(page_table).wf(),
            final(frame_allocator).wf(),
            final(frame_allocator)@.regions == old(frame_allocator)@.regions,
            ended_as(
                r,
                state_of(final(page_table), final(frame_allocator)),
                byte_written(
                    state_of(old(page_table), old(frame_allocator)),
                    self.image(),
                    addr@,
                    value,
                ),
            ),
    {
        proof {
            lemma_page_of(addr@);
        }
        let page = Page::containing_address(addr);
        match self.make_mut(page_table, frame_allocator, page) {
            Err(e) => {
                return Err(e);
            },
            Ok(_) => {},
        }
        let ghost made = page_table@;
        let offset: usize = (addr.as_u64() - page.start_address().as_u64()) as usize;
        if page_table.data_byte(page, offset).is_none() {
            let shown = self.read_page(page_table, page).unwrap();
            page_table.set_data(page, shown);
        }
        assert(page_table@[page@].data == page_bytes(made, self.image(), page@));
        let ghost filled = page_table@;
        let done = page_table.set_data_byte(page, offset, value);
        assert(done);
        assert(page_table@ =~= made.insert(
            page@,
            Mapping {
                data: Some(
                    page_bytes(made, self.image(), page@).unwrap().update(
                        offset as int,
                        Some(value),
                    ),
                ),
                ..made[page@]
            },
        ));
        Ok(())
    }

    /// Writes `buf` to the virtual addresses from `addr` on; see
    /// `bytes_written`.
    pub fn copy_to<D: LegacyMemoryRegion>(
        &self,
        page_table: &mut AddressSpace,
        frame_allocator: &mut LegacyFrameAllocator<D>,
        addr: VirtAddr,
        buf: &[u8],
    ) -> (r: Result<(), LoadError>)
        requires
            self.wf(),
            old(page_table).wf(),
            old(frame_allocator).wf(),
            addr.wf(),
        ensures
            final(page_table).wf(),
            final(frame_allocator).wf(),
            final(frame_allocator)@.regions == old(frame_allocator)@.regions,
            ended_as(
                r,
                state_of(final(page_table), final(frame_allocator)),
                bytes_written(
                    state_of(old(page_table), old(frame_allocator)),
                    self.image(),
                    addr@,
                    buf@,
                ),
            ),
    {
        let ghost start = state_of(page_table, frame_allocator);
        let mut i: usize = 0;
        proof {
            assert(buf@.subrange(0, 0) =~= Seq::<u8>::empty());
            reveal(bytes_written);
        }
        while i < buf.len()
            invariant
                self.wf(),
                page_table.wf(),
                frame_allocator.wf(),
                addr.wf(),
                i <= buf.len(),
                start == state_of(old(page_table), old(frame_allocator)),
                frame_allocator@.regions == start.allocator.regions,
                bytes_written(start, self.image(), addr@, buf@.subrange(0, i as int)) == Ok::<
                    LoadState<D>,
                    LoadError,
                >(state_of(page_table, frame_allocator)),
            decreases buf.len() - i,
        {
            proof {
                lemma_bytes_written_step(start, self.image(), addr@, buf@, i as int);
                lemma_bytes_written_fails(start, self.image(), addr@, buf@, i + 1);
            }
            let target = match addr.as_u64().checked_add(i as u64) {
                Some(sum) => match VirtAddr::try_new(sum) {
                    Some(target) => target,
                    None => {
                        return Err(LoadError::AddressOutOfRange);
                    },
                },
                None => {
                    return Err(LoadError::AddressOutOfRange);
                },
            };
            match self.write_byte(page_table, frame_allocator, target, buf[i]) {
                Err(e) => {
                    return Err(e);
                },
                Ok(()) => {},
            }
            i += 1;
        }
        assert(buf@.subrange(0, i as int) =~= buf@);
        Ok(())
    }

    /// Reads `len` bytes from the virtual address `addr` on; see `copied_from`.
    pub fn copy_from(&self, page_table: &AddressSpace, addr: VirtAddr, len: usize) -> (r: Result<
        Vec<u8>,
        LoadError,
    >)
        requires
            self.wf(),
            page_table.wf(),
            addr.wf(),
        ensures
            match copied_from(page_table@, self.image(), addr@, len as int) {
                Ok(bytes) => r matches Ok(read) && read@ == bytes,
                Err(e) => r == Err::<Vec<u8>, LoadError>(e),
            },
    {
        let mut k: usize = 0;
        while k < len
            invariant
                addr.wf(),
                k <= len,
                forall|j: int| 0 <= j < k ==> (#[trigger] byte_address(addr@, j)).is_some(),
            decreases len - k,
        {
            let valid = match addr.as_u64().checked_add(k as u64) {
                Some(sum) => VirtAddr::try_new(sum).is_some(),
                None => false,
            };
            if !valid {
                assert(byte_address(addr@, k as int).is_none());
                return Err(LoadError::AddressOutOfRange);
            }
            k += 1;
        }
        let mut m: usize = 0;
        while m < len
            invariant
                page_table.wf(),
                addr.wf(),
                m <= len,
                addressable(addr@, len as int),
                forall|j: int|
                    0 <= j < m ==> page_table@.contains_key(
                        page_of((#[trigger] byte_address(addr@, j)).unwrap()),
                    ),
            decreases len - m,
        {
            assert(byte_address(addr@, m as int).is_some());
            let target = VirtAddr::try_new(addr.as_u64() + m as u64).unwrap();
            proof {
                lemma_page_of(target@);
            }
            if !page_table.contains(Page::containing_address(target)) {
                assert(!page_table@.contains_key(page_of(byte_address(addr@, m as int).unwrap())));
                return Err(LoadError::PageNotMapped);
            }
            m += 1;
        }
        let mut bytes: Vec<u8> = Vec::new();
        let mut i: usize = 0;
        while i < len
            invariant
                self.wf(),
                page_table.wf(),
                addr.wf(),
                i <= len,
                bytes@.len() == i,
                addressable(addr@, len as int),
                all_bytes_mapped(page_table@, addr@, len as int),
                forall|j: int|
                    0 <= j < i ==> (#[trigger] byte_address(addr@, j)).is_some() && byte_read(
                        page_table@,
                        self.image(),
                        byte_address(addr@, j).unwrap(),
                    ) == Some(bytes@[j]),
            decreases len - i,
        {
            assert(byte_address(addr@, i as int).is_some());
            let target = VirtAddr::try_new(addr.as_u64() + i as u64).unwrap();
            proof {
                lemma_page_of(target@);
                page_table.lemma_wf();
            }
            let page = Page::containing_address(target);
            let offset: usize = (target.as_u64() - page.start_address().as_u64()) as usize;
            let known: Option<u8> = match page_table.data_byte(page, offset) {
                Some(b) => b,
                None => match page_table.translate(page) {
                    Some((frame, _)) => self.image_byte(frame, offset),
                    None => None,
                },
            };
            let b: u8 = match known {
                Some(b) => b,
                None => {
                    assert(byte_read(page_table@, self.image(), target@).is_none());
                    assert(byte_address(addr@, i as int) == Some(target@));
                    return Err(LoadError::ContentsUnknown);
                },
            };
            bytes.push(b);
            i += 1;
        }
        assert(bytes@ =~= bytes_read(page_table@, self.image(), addr@, len as int).unwrap());
        Ok(bytes)
    }
}

/// Writing one byte more: the bytes before it are written first, then the byte
/// itself at its address.
pub proof fn lemma_bytes_written_step<D: LegacyMemoryRegion>(
    state: LoadState<D>,
    image: Image,
    addr: u64,
    bytes: Seq<u8>,
    i: int,
)
    requires
        0 <= i < bytes.len(),
    ensures
        bytes_written(state, image, addr, bytes.subrange(0, i + 1)) == (match bytes_written(
            state,
            image,
            addr,
            bytes.subrange(0, i),
        ) {
            Err(e) => Err(e),
            Ok(s) => match byte_address(addr, i) {
                None => Err(LoadError::AddressOutOfRange),
                Some(a) => byte_written(s, image, a, bytes[i]),
            },
        }),
{
    reveal(bytes_written);
    assert(bytes.subrange(0, i + 1).drop_last() =~= bytes.subrange(0, i));
    assert(bytes.subrange(0, i + 1).last() == bytes[i]);
}

/// Where writing the first `count` bytes fails, writing all of them fails in
/// the same way.
pub proof fn lemma_bytes_written_fails<D: LegacyMemoryRegion>(
    state: LoadState<D>,
    image: Image,
    addr: u64,
    bytes: Seq<u8>,
    count: int,
)
    requires
        0 <= count <= bytes.len(),
    ensures
        bytes_written(state, image, addr, bytes.subrange(0, count)) matches Err(e) ==> bytes_written(
            state,
            image,
            addr,
            bytes,
        ) == Err::<LoadState<D>, LoadError>(e),
    decreases bytes.len() - count,
{
    if count < bytes.len() {
        lemma_bytes_written_fails(state, image, addr, bytes, count + 1);
        lemma_bytes_written_step(state, image, addr, bytes, count);
    } else {
        assert(bytes.subrange(0, count) =~= bytes);
    }
}

} // verus!
