use vstd::prelude::*;
use crate::addr::{
    aligned_down, aligned_up, canonical_form, is_canonical, lemma_aligned_down,
    lemma_page_size_is_pow2, page_after, Page, PhysAddr, PhysFrame, VirtAddr, LOWER_HALF_END,
    PAGE_SIZE, PHYS_LIMIT,
};
use crate::elf::{ProgramHeader, PT_LOAD};
use crate::error::LoadError;
use crate::frame_allocator::{LegacyFrameAllocator, LegacyMemoryRegion};
use crate::kernel::memory::{
    byte_address, ended_as, lemma_page_of, made_mutable, page_of, state_of, Image, Inner, LoadState, page_bytes,
};
use crate::kernel::VirtualAddressOffset;
use crate::paging::{AddressSpace, Mapping, PageFlags};
use crate::tls_template::TlsTemplate;

verus! {

/// The flags with which a segment is mapped: present, writable where the
/// segment is, and not executable unless the segment is.
pub open spec fn segment_flags(segment: ProgramHeader) -> PageFlags {
    PageFlags {
        present: true,
        writable: segment.writable(),
        no_execute: !segment.executable(),
        copied: false,
    }
}

/// The virtual address at which a segment starts when the image is moved by
/// `offset`.
pub open spec fn segment_start(offset: int, segment: ProgramHeader) -> Option<u64> {
    match VirtualAddressOffset::moved(offset, segment.virtual_addr as int) {
        Some(a) => canonical_form(a),
        None => None,
    }
}

/// The address before `addr`, if there is one.
pub open spec fn address_before(addr: u64) -> Option<u64> {
    if addr >= 1 {
        canonical_form((addr - 1) as u64)
    } else {
        None
    }
}

/// The number of pages from the page `first` to the page `last`, both
/// included; none where the two lie in different halves of the address space.
pub open spec fn page_count(first: u64, last: u64) -> Option<nat> {
    if first > last {
        Some(0)
    } else if (first < LOWER_HALF_END) != (last < LOWER_HALF_END) {
        None
    } else {
        Some(((last - first) / (PAGE_SIZE as int) + 1) as nat)
    }
}

/// A frame's worth of zeros.
pub open spec fn zero_page() -> Seq<Option<u8>> {
    Seq::new(PAGE_SIZE as nat, |i: int| Some(0u8))
}

/// The space after the `count` pages from `start_page` on were mapped to the
/// `count` frames from `start_frame` on, one after the other.
pub open spec fn file_pages_mapped(
    space: Map<u64, Mapping>,
    start_page: u64,
    start_frame: u64,
    count: nat,
    flags: PageFlags,
) -> Result<Map<u64, Mapping>, LoadError>
    decreases count,
{
    if count == 0 {
        Ok(space)
    } else {
        match file_pages_mapped(space, start_page, start_frame, (count - 1) as nat, flags) {
            Err(e) => Err(e),
            Ok(s) => match page_after(start_page, count - 1) {
                None => Err(LoadError::AddressOutOfRange),
                Some(page) => if s.contains_key(page) {
                    Err(LoadError::MapToFailed)
                } else {
                    Ok(
                        s.insert(
                            page,
                            Mapping {
                                frame: (start_frame + (count - 1) * PAGE_SIZE) as u64,
                                flags,
                                data: None,
                                copy_of: None,
                            },
                        ),
                    )
                },
            },
        }
    }
}

/// The state after the `count` pages from `first` on were each mapped to a new
/// frame, which is to hold `data` where that is given. A page that is mapped
/// already ends the mapping with the error `taken`.
pub open spec fn fresh_pages_mapped<D: LegacyMemoryRegion>(
    state: LoadState<D>,
    first: u64,
    count: nat,
    flags: PageFlags,
    data: Option<Seq<Option<u8>>>,
    taken: LoadError,
) -> Result<LoadState<D>, LoadError>
    decreases count,
{
    if count == 0 {
        Ok(state)
    } else {
        match fresh_pages_mapped(state, first, (count - 1) as nat, flags, data, taken) {
            Err(e) => Err(e),
            Ok(s) => match s.allocator.allocate().0 {
                None => Err(LoadError::FrameAllocationFailed),
                Some(frame) => {
                    let page = (first + (count - 1) * PAGE_SIZE) as u64;
                    if s.space.contains_key(page) {
                        Err(taken)
                    } else {
                        Ok(
                            LoadState {
                                space: s.space.insert(page, Mapping { frame, flags, data, copy_of: None }),
                                allocator: s.allocator.allocate().1,
                            },
                        )
                    }
                },
            },
        }
    }
}

/// The state after the `count` pages from `first` on were each mapped to a new
/// frame that holds zeros.
pub open spec fn zero_pages_mapped<D: LegacyMemoryRegion>(
    state: LoadState<D>,
    first: u64,
    count: nat,
    flags: PageFlags,
) -> Result<LoadState<D>, LoadError> {
    fresh_pages_mapped(state, first, count, flags, Some(zero_page()), LoadError::BssMapToFailed)
}

/// The bytes `d` with zeros at the indices from `from` up to, not including,
/// `to`.
pub open spec fn zeroed_from(d: Seq<Option<u8>>, from: int, to: int) -> Seq<Option<u8>> {
    Seq::new(
        d.len(),
        |k: int|
            if from <= k < to {
                Some(0u8)
            } else {
                d[k]
            },
    )
}

/// The space after what the page `page` shows was set to zero from the byte
/// `from` on.
pub open spec fn tail_zeroed(space: Map<u64, Mapping>, image: Image, page: u64, from: int) -> Result<
    Map<u64, Mapping>,
    LoadError,
> {
    if space.contains_key(page) {
        let d = page_bytes(space, image, page).unwrap();
        Ok(
            space.insert(
                page,
                Mapping {
                    data: Some(
                        Seq::new(
                            d.len(),
                            |i: int|
                                if i >= from {
                                    Some(0u8)
                                } else {
                                    d[i]
                                },
                        ),
                    ),
                    ..space[page]
                },
            ),
        )
    } else {
        Err(LoadError::PageNotMapped)
    }
}

/// The pages that a segment of `mem_size` bytes touches when it starts at the
/// address `start`: the first of them and their number.
pub open spec fn touched_pages(start: Option<u64>, mem_size: u64) -> Result<(u64, nat), LoadError> {
    match start {
        None => Err(LoadError::AddressOutOfRange),
        Some(a) => if a + mem_size > u64::MAX {
            Err(LoadError::AddressOutOfRange)
        } else {
            match (canonical_form(a), canonical_form((a + mem_size) as u64)) {
                (Some(first), Some(end)) => match address_before(end) {
                    None => Err(LoadError::AddressOutOfRange),
                    Some(last) => match page_count(page_of(first), page_of(last)) {
                        None => Err(LoadError::AddressOutOfRange),
                        Some(count) => Ok((page_of(first), count)),
                    },
                },
                _ => Err(LoadError::AddressOutOfRange),
            }
        },
    }
}

/// Whether the `count` pages from `first` on are all mapped.
pub open spec fn all_mapped(space: Map<u64, Mapping>, first: u64, count: nat) -> bool {
    forall|i: int| 0 <= i < count ==> space.contains_key(#[trigger] nth_page(first, i))
}

/// The page `i` pages after the page `first`.
pub open spec fn nth_page(first: u64, i: int) -> u64 {
    (first + i * PAGE_SIZE) as u64
}

/// Whether `page` is one of the `count` pages from `first` on.
pub open spec fn in_pages(page: u64, first: u64, count: nat) -> bool {
    first <= page < first + count * PAGE_SIZE
}

/// The flags `flags` without the permission to write, or without the mark of
/// a frame of the page's own.
pub open spec fn cleared(flags: PageFlags, writable: bool) -> PageFlags {
    if writable {
        PageFlags { writable: false, ..flags }
    } else {
        PageFlags { copied: false, ..flags }
    }
}

/// The space after one flag was cleared on each of the `count` pages from
/// `first` on: the permission to write, or the mark of a frame of its own.
pub open spec fn pages_cleared(
    space: Map<u64, Mapping>,
    first: u64,
    count: nat,
    writable: bool,
) -> Map<u64, Mapping> {
    Map::new(
        |p: u64| space.contains_key(p),
        |p: u64|
            if in_pages(p, first, count) {
                Mapping { flags: cleared(space[p].flags, writable), ..space[p] }
            } else {
                space[p]
            },
    )
}

/// Clearing a flag on the pages that a segment touches; fails where one of the
/// pages is not mapped.
pub open spec fn segment_cleared(
    space: Map<u64, Mapping>,
    offset: int,
    segment: ProgramHeader,
    writable: bool,
) -> Result<Map<u64, Mapping>, LoadError> {
    match touched_pages(
        VirtualAddressOffset::moved(offset, segment.virtual_addr as int),
        segment.mem_size,
    ) {
        Err(e) => Err(e),
        Ok((first, count)) => if all_mapped(space, first, count) {
            Ok(pages_cleared(space, first, count, writable))
        } else {
            Err(LoadError::PageNotMapped)
        },
    }
}

/// The state after what a segment has in memory beyond what the file holds of
/// it was set up as zeros: the rest of the page that holds the end of the
/// file's part is set to zero in a frame of the page's own, and every page
/// after it up to the end of the segment is mapped to a new frame of zeros.
pub open spec fn bss_handled<D: LegacyMemoryRegion>(
    state: LoadState<D>,
    image: Image,
    virt_start: u64,
    segment: ProgramHeader,
) -> Result<LoadState<D>, LoadError> {
    match (byte_address(virt_start, segment.file_size as int), byte_address(
        virt_start,
        segment.mem_size as int,
    )) {
        (Some(zero_start), Some(zero_end)) => {
            let before = zero_start % PAGE_SIZE;
            let partial: Result<LoadState<D>, LoadError> = if before != 0 {
                match address_before(zero_start) {
                    None => Err(LoadError::AddressOutOfRange),
                    Some(last) => match made_mutable(state, image, page_of(last)) {
                        Err(e) => Err(e),
                        Ok((s, _)) => match tail_zeroed(s.space, image, page_of(last), before as int) {
                            Err(e) => Err(e),
                            Ok(space) => Ok(LoadState { space, ..s }),
                        },
                    },
                }
            } else {
                Ok(state)
            };
            match partial {
                Err(e) => Err(e),
                Ok(s) => if aligned_up(zero_start as int, PAGE_SIZE as int) > u64::MAX {
                    Err(LoadError::AddressOutOfRange)
                } else {
                    match (canonical_form(
                        aligned_up(zero_start as int, PAGE_SIZE as int) as u64,
                    ), address_before(zero_end)) {
                        (Some(first), Some(last)) => match page_count(page_of(first), page_of(last)) {
                            None => Err(LoadError::AddressOutOfRange),
                            Some(count) => zero_pages_mapped(
                                s,
                                page_of(first),
                                count,
                                segment_flags(segment),
                            ),
                        },
                        _ => Err(LoadError::AddressOutOfRange),
                    }
                },
            }
        },
        _ => Err(LoadError::AddressOutOfRange),
    }
}

/// The frames of the image that hold what the file has of a segment: the
/// first of them and their number.
pub open spec fn file_frames(image: Image, segment: ProgramHeader) -> Result<(u64, nat), LoadError> {
    let phys_start = image.start + segment.offset;
    let phys_end = phys_start + segment.file_size;
    if phys_end >= PHYS_LIMIT || phys_end < 1 {
        Err(LoadError::AddressOutOfRange)
    } else {
        let first = aligned_down(phys_start, PAGE_SIZE as int);
        let last = aligned_down(phys_end - 1, PAGE_SIZE as int);
        if first > last {
            Ok((first as u64, 0))
        } else if last + PAGE_SIZE >= PHYS_LIMIT {
            Err(LoadError::AddressOutOfRange)
        } else {
            Ok((first as u64, ((last - first) / (PAGE_SIZE as int) + 1) as nat))
        }
    }
}

/// The state after a segment was loaded: the pages from the one that holds
/// its first address on are mapped to the frames of the image that hold the
/// segment, and what the segment has beyond the file is set up as zeros.
pub open spec fn load_segment_handled<D: LegacyMemoryRegion>(
    state: LoadState<D>,
    image: Image,
    offset: int,
    segment: ProgramHeader,
) -> Result<LoadState<D>, LoadError> {
    match file_frames(image, segment) {
        Err(e) => Err(e),
        Ok((start_frame, count)) => match segment_start(offset, segment) {
            None => Err(LoadError::AddressOutOfRange),
            Some(virt_start) => match file_pages_mapped(
                state.space,
                page_of(virt_start),
                start_frame,
                count,
                segment_flags(segment),
            ) {
                Err(e) => Err(e),
                Ok(space) => if segment.mem_size > segment.file_size {
                    bss_handled(LoadState { space, ..state }, image, virt_start, segment)
                } else {
                    Ok(LoadState { space, ..state })
                },
            },
        },
    }
}

/// The thread-local storage template that a segment describes.
pub open spec fn tls_template_of(offset: int, segment: ProgramHeader) -> Result<
    TlsTemplate,
    LoadError,
> {
    match VirtualAddressOffset::moved(offset, segment.virtual_addr as int) {
        None => Err(LoadError::AddressOutOfRange),
        Some(start_address) => Ok(
            TlsTemplate { start_address, file_size: segment.file_size, mem_size: segment.mem_size },
        ),
    }
}

/// The space after the mark of a frame of its own was removed from every page
/// that a segment to be loaded touches, one segment after the other.
pub open spec fn copied_removed(
    space: Map<u64, Mapping>,
    offset: int,
    segments: Seq<ProgramHeader>,
) -> Result<Map<u64, Mapping>, LoadError>
    decreases segments.len(),
{
    if segments.len() == 0 {
        Ok(space)
    } else {
        match copied_removed(space, offset, segments.drop_last()) {
            Err(e) => Err(e),
            Ok(s) => if segments.last().is_load() {
                segment_cleared(s, offset, segments.last(), false)
            } else {
                Ok(s)
            },
        }
    }
}

/// Where removing the marks for the first `part` segments fails, removing them
/// for all segments fails in the same way.
pub proof fn lemma_copied_removed_fails(
    space: Map<u64, Mapping>,
    offset: int,
    segments: Seq<ProgramHeader>,
    part: int,
)
    requires
        0 <= part <= segments.len(),
    ensures
        copied_removed(space, offset, segments.subrange(0, part)) matches Err(e) ==> copied_removed(
            space,
            offset,
            segments,
        ) == Err::<Map<u64, Mapping>, LoadError>(e),
    decreases segments.len() - part,
{
    if part < segments.len() {
        lemma_copied_removed_fails(space, offset, segments, part + 1);
        assert(segments.subrange(0, part + 1).drop_last() =~= segments.subrange(0, part));
    } else {
        assert(segments.subrange(0, part) =~= segments);
    }
}

/// Within one half of the address space the pages of a range follow one
/// another without a gap.
pub proof fn lemma_page_count(first: u64, last: u64, i: int)
    requires
        is_canonical(first as int),
        is_canonical(last as int),
        first % PAGE_SIZE == 0,
        last % PAGE_SIZE == 0,
        page_count(first, last) matches Some(count) && 0 <= i < count,
    ensures
        first + i * PAGE_SIZE <= last,
        is_canonical(first + i * PAGE_SIZE),
        (first + i * PAGE_SIZE) % (PAGE_SIZE as int) == 0,
        page_after(first, i) == Some((first + i * PAGE_SIZE) as u64),
        page_count(first, last).unwrap() == (last - first) / (PAGE_SIZE as int) + 1,
        first + page_count(first, last).unwrap() * PAGE_SIZE == last + PAGE_SIZE,
{
    let d = last - first;
    assert(d % (PAGE_SIZE as int) == 0) by {
        vstd::arithmetic::div_mod::lemma_sub_mod_noop(last as int, first as int, PAGE_SIZE as int);
    }
    vstd::arithmetic::div_mod::lemma_fundamental_div_mod(d, PAGE_SIZE as int);
    let q = d / (PAGE_SIZE as int);
    assert(i * PAGE_SIZE <= q * PAGE_SIZE) by (nonlinear_arith)
        requires
            0 <= i <= q,
            PAGE_SIZE == 4096,
    ;
    assert((first + i * PAGE_SIZE) % (PAGE_SIZE as int) == 0) by {
        vstd::arithmetic::div_mod::lemma_mod_multiples_vanish(i, first as int, PAGE_SIZE as int);
    }
}

impl<'a> Inner<'a> {
    /// Clears one flag on each of the `count` pages from `first` on; see
    /// `pages_cleared`.
    fn clear_pages(page_table: &mut AddressSpace, first: Page, count: u64, writable: bool) -> (r:
        Result<(), LoadError>)
        requires
            old(page_table).wf(),
            first.wf(),
            first@ + count * PAGE_SIZE <= u64::MAX + PAGE_SIZE,
            forall|i: int|
                0 <= i < count ==> is_canonical(first@ + i * PAGE_SIZE) && #[trigger] page_after(
                    first@,
                    i,
                ) == Some((first@ + i * PAGE_SIZE) as u64),
        ensures
            final(page_table).wf(),
            all_mapped(old(page_table)@, first@, count as nat) ==> r is Ok && final(page_table)@
                == pages_cleared(old(page_table)@, first@, count as nat, writable),
            !all_mapped(old(page_table)@, first@, count as nat) ==> r == Err::<(), LoadError>(
                LoadError::PageNotMapped,
            ),
    {
        let mut i: u64 = 0;
        assert(page_table@ =~= pages_cleared(old(page_table)@, first@, 0, writable));
        while i < count
            invariant
                page_table.wf(),
                old(page_table).wf(),
                first.wf(),
                i <= count,
                first@ + count * PAGE_SIZE <= u64::MAX + PAGE_SIZE,
                forall|j: int|
                    0 <= j < count ==> is_canonical(first@ + j * PAGE_SIZE) && #[trigger] page_after(
                        first@,
                        j,
                    ) == Some((first@ + j * PAGE_SIZE) as u64),
                all_mapped(old(page_table)@, first@, i as nat),
                page_table@ == pages_cleared(old(page_table)@, first@, i as nat, writable),
            decreases count - i,
        {
            assert(page_after(first@, i as int) == Some((first@ + i * PAGE_SIZE) as u64));
            let page = first.checked_add(i).unwrap();
            assert(page@ == nth_page(first@, i as int));
            let (_, flags) = match page_table.translate(page) {
                Some(found) => found,
                None => {
                    assert(!old(page_table)@.contains_key(nth_page(first@, i as int)));
                    return Err(LoadError::PageNotMapped);
                },
            };
            let new_flags = if writable {
                PageFlags { writable: false, ..flags }
            } else {
                PageFlags { copied: false, ..flags }
            };
            let ghost before = page_table@;
            page_table.update_flags(page, new_flags);
            proof {
                old(page_table).lemma_wf();
                assert(i * PAGE_SIZE + PAGE_SIZE == (i + 1) * PAGE_SIZE) by (nonlinear_arith);
                assert forall|p: u64| #[trigger]
                    old(page_table)@.contains_key(p) implies (in_pages(p, first@, (i + 1) as nat)
                    <==> in_pages(p, first@, i as nat) || p == page@) by {
                    if first@ + i * PAGE_SIZE <= p < first@ + (i + 1) * PAGE_SIZE && p != page@ {
                        crate::addr::lemma_multiples_apart(page@ as int, p as int, PAGE_SIZE as int);
                    }
                }
                assert(!in_pages(page@, first@, i as nat));
                assert(page_table@ =~= pages_cleared(
                    old(page_table)@,
                    first@,
                    (i + 1) as nat,
                    writable,
                ));
                assert forall|j: int| 0 <= j < i + 1 implies old(page_table)@.contains_key(
                    #[trigger] nth_page(first@, j),
                ) by {
                    if j == i {
                    } else {
                        assert(old(page_table)@.contains_key(nth_page(first@, j)));
                    }
                }
            }
            i += 1;
        }
        Ok(())
    }

    /// Clears one flag on each page that `segment` touches; see
    /// `segment_cleared`.
    fn clear_segment(&self, page_table: &mut AddressSpace, segment: &ProgramHeader, writable: bool) -> (r:
        Result<(), LoadError>)
        requires
            old(page_table).wf(),
        ensures
            final(page_table).wf(),
            match segment_cleared(
                old(page_table)@,
                self.virtual_address_offset@,
                *segment,
                writable,
            ) {
                Ok(space) => r is Ok && final(page_table)@ == space,
                Err(e) => r == Err::<(), LoadError>(e),
            },
    {
        let start = self.virtual_address_offset.checked_apply(segment.virtual_addr);
        let (first, count) = match Self::touched(start, segment.mem_size) {
            Ok(found) => found,
            Err(e) => {
                return Err(e);
            },
        };
        Self::clear_pages(page_table, first, count, writable)
    }

    /// Takes the permission to write from every page that the segment touches,
    /// which names what is read-only once the image has been relocated; fails
    /// where one of the pages is not mapped.
    pub fn handle_relro_segment(&self, page_table: &mut AddressSpace, program_header: &ProgramHeader) -> (r:
        Result<(), LoadError>)
        requires
            old(page_table).wf(),
        ensures
            final(page_table).wf(),
            match segment_cleared(
                old(page_table)@,
                self.virtual_address_offset@,
                *program_header,
                true,
            ) {
                Ok(space) => r is Ok && final(page_table)@ == space,
                Err(e) => r == Err::<(), LoadError>(e),
            },
    {
        self.clear_segment(page_table, program_header, true)
    }

    /// Removes the mark of a frame of its own from every page of every segment
    /// that was loaded; see `copied_removed`.
    pub fn remove_copied_flags(&self, page_table: &mut AddressSpace, segments: &Vec<ProgramHeader>) -> (r:
        Result<(), LoadError>)
        requires
            old(page_table).wf(),
        ensures
            final(page_table).wf(),
            match copied_removed(old(page_table)@, self.virtual_address_offset@, segments@) {
                Ok(space) => r is Ok && final(page_table)@ == space,
                Err(e) => r == Err::<(), LoadError>(e),
            },
    {
        let mut i: usize = 0;
        assert(segments@.subrange(0, 0) =~= Seq::<ProgramHeader>::empty());
        while i < segments.len()
            invariant
                page_table.wf(),
                i <= segments@.len(),
                copied_removed(
                    old(page_table)@,
                    self.virtual_address_offset@,
                    segments@.subrange(0, i as int),
                ) == Ok::<Map<u64, Mapping>, LoadError>(page_table@),
            decreases segments@.len() - i,
        {
            let segment = segments[i];
            proof {
                assert(segments@.subrange(0, i + 1).drop_last() =~= segments@.subrange(0, i as int));
                assert(segments@.subrange(0, i + 1).last() == segment);
                lemma_copied_removed_fails(
                    old(page_table)@,
                    self.virtual_address_offset@,
                    segments@,
                    i + 1,
                );
            }
            if segment.type_ == PT_LOAD {
                match self.clear_segment(page_table, &segment, false) {
                    Ok(()) => {},
                    Err(e) => {
                        return Err(e);
                    },
                }
            }
            i += 1;
        }
        assert(segments@.subrange(0, i as int) =~= segments@);
        Ok(())
    }

    /// The thread-local storage template that `segment` describes.
    pub fn handle_tls_segment(&self, segment: &ProgramHeader) -> (r: Result<TlsTemplate, LoadError>)
        ensures
            r == tls_template_of(self.virtual_address_offset@, *segment),
    {
        match self.virtual_address_offset.checked_apply(segment.virtual_addr) {
            Some(start_address) => Ok(
                TlsTemplate {
                    start_address,
                    mem_size: segment.mem_size,
                    file_size: segment.file_size,
                },
            ),
            None => Err(LoadError::AddressOutOfRange),
        }
    }

    /// Sets up as zeros what `segment` has in memory beyond what the file
    /// holds of it; see `bss_handled`.
    pub fn handle_bss_section<D: LegacyMemoryRegion>(
        &self,
        page_table: &mut AddressSpace,
        frame_allocator: &mut LegacyFrameAllocator<D>,
        virt_start_addr: VirtAddr,
        segment: &ProgramHeader,
    ) -> (r: Result<(), LoadError>)
        requires
            self.wf(),
            old(page_table).wf(),
            old(frame_allocator).wf(),
            virt_start_addr.wf(),
        ensures
            final(page_table).wf(),
            final(frame_allocator).wf(),
            final(frame_allocator)@.regions == old(frame_allocator)@.regions,
            ended_as(
                r,
                state_of(final(page_table), final(frame_allocator)),
                bss_handled(
                    state_of(old(page_table), old(frame_allocator)),
                    self.image(),
                    virt_start_addr@,
                    *segment,
                ),
            ),
    {
        let segment_flags = Self::flags_of(segment);
        let zero_start = match Self::address_after(virt_start_addr, segment.file_size) {
            Some(a) => a,
            None => {
                return Err(LoadError::AddressOutOfRange);
            },
        };
        let zero_end = match Self::address_after(virt_start_addr, segment.mem_size) {
            Some(a) => a,
            None => {
                return Err(LoadError::AddressOutOfRange);
            },
        };
        let data_bytes_before_zero: u64 = zero_start.as_u64() % PAGE_SIZE;
        if data_bytes_before_zero != 0 {
            let last = match VirtAddr::try_new(zero_start.as_u64() - 1) {
                Some(a) => a,
                None => {
                    return Err(LoadError::AddressOutOfRange);
                },
            };
            proof {
                lemma_page_of(last@);
            }
            let last_page = Page::containing_address(last);
            match self.make_mut(page_table, frame_allocator, last_page) {
                Ok(_) => {},
                Err(e) => {
                    return Err(e);
                },
            }
            match self.zero_tail(page_table, last_page, data_bytes_before_zero as usize) {
                Ok(()) => {},
                Err(e) => {
                    return Err(e);
                },
            }
        }
        proof {
            lemma_page_size_is_pow2();
        }
        if data_bytes_before_zero != 0 && zero_start.as_u64() - data_bytes_before_zero > u64::MAX
            - PAGE_SIZE {
            return Err(LoadError::AddressOutOfRange);
        }
        let first = match VirtAddr::try_new(crate::addr::align_up(zero_start.as_u64(), PAGE_SIZE)) {
            Some(a) => a,
            None => {
                return Err(LoadError::AddressOutOfRange);
            },
        };
        if zero_end.as_u64() < 1 {
            return Err(LoadError::AddressOutOfRange);
        }
        let last = match VirtAddr::try_new(zero_end.as_u64() - 1) {
            Some(a) => a,
            None => {
                return Err(LoadError::AddressOutOfRange);
            },
        };
        proof {
            lemma_page_of(first@);
            lemma_page_of(last@);
        }
        let start_page = Page::containing_address(first);
        let end_page = Page::containing_address(last);
        let f = start_page.start_address().as_u64();
        let l = end_page.start_address().as_u64();
        let count: u64 = if f > l {
            0
        } else if (f < LOWER_HALF_END) != (l < LOWER_HALF_END) {
            return Err(LoadError::AddressOutOfRange);
        } else {
            (l - f) / PAGE_SIZE + 1
        };
        proof {
            assert forall|i: int| 0 <= i < count implies is_canonical(start_page@ + i * PAGE_SIZE)
                && #[trigger] page_after(start_page@, i) == Some(
                (start_page@ + i * PAGE_SIZE) as u64,
            ) by {
                lemma_page_count(f, l, i);
            }
        }
        Self::map_fresh_pages(
            page_table,
            frame_allocator,
            start_page,
            count,
            segment_flags,
            true,
            LoadError::BssMapToFailed,
        )
    }

    /// The address `count` bytes after `addr`, if there is one.
    fn address_after(addr: VirtAddr, count: u64) -> (r: Option<VirtAddr>)
        requires
            addr.wf(),
        ensures
            r.is_some() == byte_address(addr@, count as int).is_some(),
            r matches Some(a) ==> Some(a@) == byte_address(addr@, count as int) && a.wf(),
    {
        match addr.as_u64().checked_add(count) {
            Some(sum) => VirtAddr::try_new(sum),
            None => None,
        }
    }

    /// The flags with which `segment` is mapped.
    fn flags_of(segment: &ProgramHeader) -> (r: PageFlags)
        ensures
            r == segment_flags(*segment),
    {
        PageFlags {
            present: true,
            writable: segment.is_write(),
            no_execute: !segment.is_execute(),
            copied: false,
        }
    }

    /// Loads `segment`: maps the pages from the one that holds its first
    /// address on to the frames of the image that hold it, and sets up as zeros
    /// what it has in memory beyond that; see `load_segment_handled`.
    pub fn handle_load_segment<D: LegacyMemoryRegion>(
        &self,
        page_table: &mut AddressSpace,
        frame_allocator: &mut LegacyFrameAllocator<D>,
        segment: &ProgramHeader,
    ) -> (r: Result<(), LoadError>)
        requires
            self.wf(),
            old(page_table).wf(),
            old(frame_allocator).wf(),
        ensures
            final(page_table).wf(),
            final(frame_allocator).wf(),
            final(frame_allocator)@.regions == old(frame_allocator)@.regions,
            ended_as(
                r,
                state_of(final(page_table), final(frame_allocator)),
                load_segment_handled(
                    state_of(old(page_table), old(frame_allocator)),
                    self.image(),
                    self.virtual_address_offset@,
                    *segment,
                ),
            ),
    {
        proof {
            lemma_page_size_is_pow2();
        }
        let base = self.kernel_offset.as_u64();
        let phys_start = match base.checked_add(segment.offset) {
            Some(a) => a,
            None => {
                return Err(LoadError::AddressOutOfRange);
            },
        };
        let phys_end = match phys_start.checked_add(segment.file_size) {
            Some(a) => a,
            None => {
                return Err(LoadError::AddressOutOfRange);
            },
        };
        if phys_end >= PHYS_LIMIT || phys_end < 1 {
            return Err(LoadError::AddressOutOfRange);
        }
        proof {
            lemma_aligned_down(phys_start as int, PAGE_SIZE as int);
            lemma_aligned_down(phys_end - 1, PAGE_SIZE as int);
        }
        let start_frame = PhysFrame::containing_address(PhysAddr::new(phys_start));
        let end_frame = PhysFrame::containing_address(PhysAddr::new(phys_end - 1));
        let f = start_frame.start_address().as_u64();
        let l = end_frame.start_address().as_u64();
        let count: u64 = if f > l {
            0
        } else if l + PAGE_SIZE >= PHYS_LIMIT {
            return Err(LoadError::AddressOutOfRange);
        } else {
            (l - f) / PAGE_SIZE + 1
        };
        proof {
            if f <= l {
                assert((l - f) % (PAGE_SIZE as int) == 0) by {
                    vstd::arithmetic::div_mod::lemma_sub_mod_noop(
                        l as int,
                        f as int,
                        PAGE_SIZE as int,
                    );
                }
                vstd::arithmetic::div_mod::lemma_fundamental_div_mod(l - f, PAGE_SIZE as int);
            }
        }
        let virt_start_addr = match self.virtual_address_offset.checked_apply(
            segment.virtual_addr,
        ) {
            Some(a) => match VirtAddr::try_new(a) {
                Some(a) => a,
                None => {
                    return Err(LoadError::AddressOutOfRange);
                },
            },
            None => {
                return Err(LoadError::AddressOutOfRange);
            },
        };
        proof {
            lemma_page_of(virt_start_addr@);
        }
        let start_page = Page::containing_address(virt_start_addr);
        let segment_flags = Self::flags_of(segment);
        match Self::map_file_pages(page_table, start_page, start_frame, count, segment_flags) {
            Ok(()) => {},
            Err(e) => {
                return Err(e);
            },
        }
        if segment.mem_size > segment.file_size {
            self.handle_bss_section(page_table, frame_allocator, virt_start_addr, segment)
        } else {
            Ok(())
        }
    }

    /// Maps the `count` pages from `start_page` on to the `count` frames from
    /// `start_frame` on; see `file_pages_mapped`.
    pub fn map_file_pages(
        page_table: &mut AddressSpace,
        start_page: Page,
        start_frame: PhysFrame,
        count: u64,
        flags: PageFlags,
    ) -> (r: Result<(), LoadError>)
        requires
            old(page_table).wf(),
            start_page.wf(),
            start_frame.wf(),
            start_frame@ + count * PAGE_SIZE < PHYS_LIMIT,
        ensures
            final(page_table).wf(),
            match file_pages_mapped(old(page_table)@, start_page@, start_frame@, count as nat, flags) {
                Ok(space) => r is Ok && final(page_table)@ == space,
                Err(e) => r == Err::<(), LoadError>(e),
            },
    {
        let mut i: u64 = 0;
        let mut frame = start_frame;
        while i < count
            invariant
                page_table.wf(),
                start_page.wf(),
                start_frame.wf(),
                frame.wf(),
                i <= count,
                frame@ == start_frame@ + i * PAGE_SIZE,
                start_frame@ + count * PAGE_SIZE < PHYS_LIMIT,
                file_pages_mapped(old(page_table)@, start_page@, start_frame@, i as nat, flags) == Ok::<
                    Map<u64, Mapping>,
                    LoadError,
                >(page_table@),
            decreases count - i,
        {
            proof {
                lemma_file_pages_mapped_fails(
                    old(page_table)@,
                    start_page@,
                    start_frame@,
                    count as nat,
                    (i + 1) as nat,
                    flags,
                );
                assert(frame@ + PAGE_SIZE <= start_frame@ + count * PAGE_SIZE) by (nonlinear_arith)
                    requires
                        frame@ == start_frame@ + i * PAGE_SIZE,
                        i < count,
                        PAGE_SIZE == 4096,
                ;
            }
            let page = match start_page.checked_add(i) {
                Some(page) => page,
                None => {
                    return Err(LoadError::AddressOutOfRange);
                },
            };
            match page_table.map_to(page, frame, flags) {
                Ok(()) => {},
                Err(_) => {
                    return Err(LoadError::MapToFailed);
                },
            }
            frame = frame.next();
            i += 1;
        }
        Ok(())
    }

    /// Maps the `count` pages from `first` on to new frames, of zeros where
    /// `zeroed` says so; see `fresh_pages_mapped`.
    pub fn map_fresh_pages<D: LegacyMemoryRegion>(
        page_table: &mut AddressSpace,
        frame_allocator: &mut LegacyFrameAllocator<D>,
        first: Page,
        count: u64,
        flags: PageFlags,
        zeroed: bool,
        taken: LoadError,
    ) -> (r: Result<(), LoadError>)
        requires
            old(page_table).wf(),
            old(frame_allocator).wf(),
            first.wf(),
            forall|i: int|
                0 <= i < count ==> is_canonical(first@ + i * PAGE_SIZE) && #[trigger] page_after(
                    first@,
                    i,
                ) == Some((first@ + i * PAGE_SIZE) as u64),
        ensures
            final(page_table).wf(),
            final(frame_allocator).wf(),
            final(frame_allocator)@.regions == old(frame_allocator)@.regions,
            ended_as(
                r,
                state_of(final(page_table), final(frame_allocator)),
                fresh_pages_mapped(
                    state_of(old(page_table), old(frame_allocator)),
                    first@,
                    count as nat,
                    flags,
                    if zeroed {
                        Some(zero_page())
                    } else {
                        None
                    },
                    taken,
                ),
            ),
    {
        let ghost start = state_of(page_table, frame_allocator);
        let ghost data: Option<Seq<Option<u8>>> = if zeroed {
            Some(zero_page())
        } else {
            None
        };
        let mut i: u64 = 0;
        while i < count
            invariant
                page_table.wf(),
                frame_allocator.wf(),
                first.wf(),
                i <= count,
                start == state_of(old(page_table), old(frame_allocator)),
                data == (if zeroed {
                    Some(zero_page())
                } else {
                    None::<Seq<Option<u8>>>
                }),
                frame_allocator@.regions == start.allocator.regions,
                forall|j: int|
                    0 <= j < count ==> is_canonical(first@ + j * PAGE_SIZE) && #[trigger] page_after(
                        first@,
                        j,
                    ) == Some((first@ + j * PAGE_SIZE) as u64),
                fresh_pages_mapped(start, first@, i as nat, flags, data, taken) == Ok::<
                    LoadState<D>,
                    LoadError,
                >(state_of(page_table, frame_allocator)),
            decreases count - i,
        {
            proof {
                lemma_fresh_pages_mapped_fails(
                    start,
                    first@,
                    count as nat,
                    (i + 1) as nat,
                    flags,
                    data,
                    taken,
                );
                assert(page_after(first@, i as int) == Some((first@ + i * PAGE_SIZE) as u64));
            }
            let frame = match frame_allocator.allocate_frame() {
                Some(frame) => frame,
                None => {
                    return Err(LoadError::FrameAllocationFailed);
                },
            };
            let page = first.checked_add(i).unwrap();
            let mapped = if zeroed {
                page_table.map_with_data(page, frame, flags, Self::zeros(), None)
            } else {
                page_table.map_to(page, frame, flags)
            };
            match mapped {
                Ok(()) => {},
                Err(_) => {
                    return Err(taken);
                },
            }
            i += 1;
        }
        Ok(())
    }

    /// A frame's worth of zeros.
    fn zeros() -> (r: Vec<Option<u8>>)
        ensures
            r@ == zero_page(),
    {
        let mut zeros: Vec<Option<u8>> = Vec::new();
        let mut i: usize = 0;
        while i < PAGE_SIZE as usize
            invariant
                i <= PAGE_SIZE,
                zeros@.len() == i,
                forall|j: int| 0 <= j < i ==> zeros@[j] == Some(0u8),
            decreases PAGE_SIZE - i,
        {
            zeros.push(Some(0));
            i += 1;
        }
        assert(zeros@ =~= zero_page());
        zeros
    }

    /// Sets what the page `page` shows to zero from the byte `from` on; see
    /// `tail_zeroed`.
    fn zero_tail(&self, page_table: &mut AddressSpace, page: Page, from: usize) -> (r: Result<
        (),
        LoadError,
    >)
        requires
            self.wf(),
            old(page_table).wf(),
            page.wf(),
            from <= PAGE_SIZE,
        ensures
            final(page_table).wf(),
            match tail_zeroed(old(page_table)@, self.image(), page@, from as int) {
                Ok(space) => r is Ok && final(page_table)@ == space,
                Err(e) => r == Err::<(), LoadError>(e),
            },
    {
        proof {
            old(page_table).lemma_wf();
        }
        let shown = match self.read_page(page_table, page) {
            Some(shown) => shown,
            None => {
                return Err(LoadError::PageNotMapped);
            },
        };
        let ghost entry = old(page_table)@[page@];
        let ghost d = shown@;
        page_table.set_data(page, shown);
        let mut i: usize = from;
        assert(page_table@ =~= old(page_table)@.insert(
            page@,
            Mapping { data: Some(zeroed_from(d, from as int, i as int)), ..entry },
        )) by {
            assert(zeroed_from(d, from as int, i as int) =~= d);
        }
        while i < PAGE_SIZE as usize
            invariant
                page_table.wf(),
                page.wf(),
                from <= i <= PAGE_SIZE,
                d.len() == PAGE_SIZE,
                old(page_table)@.contains_key(page@),
                entry == old(page_table)@[page@],
                page_table@ == old(page_table)@.insert(
                    page@,
                    Mapping { data: Some(zeroed_from(d, from as int, i as int)), ..entry },
                ),
            decreases PAGE_SIZE - i,
        {
            let done = page_table.set_data_byte(page, i, 0);
            assert(done);
            proof {
                assert(zeroed_from(d, from as int, i as int).update(i as int, Some(0u8))
                    =~= zeroed_from(d, from as int, i + 1));
                assert(page_table@ =~= old(page_table)@.insert(
                    page@,
                    Mapping { data: Some(zeroed_from(d, from as int, i + 1)), ..entry },
                ));
            }
            i += 1;
        }
        proof {
            assert(zeroed_from(d, from as int, i as int) =~= Seq::new(
                d.len(),
                |k: int|
                    if k >= from {
                        Some(0u8)
                    } else {
                        d[k]
                    },
            ));
        }
        Ok(())
    }

    /// The pages that a segment of `mem_size` bytes touches when it starts at
    /// `start`; see `touched_pages`.
    pub fn touched(start: Option<u64>, mem_size: u64) -> (r: Result<(Page, u64), LoadError>)
        ensures
            r is Ok == touched_pages(start, mem_size) is Ok,
            r matches Ok((first, count)) ==> touched_pages(start, mem_size) == Ok::<
                (u64, nat),
                LoadError,
            >((first@, count as nat)) && first.wf() && first@ + count * PAGE_SIZE <= u64::MAX
                + PAGE_SIZE && forall|i: int|
                0 <= i < count ==> is_canonical(first@ + i * PAGE_SIZE) && #[trigger] page_after(
                    first@,
                    i,
                ) == Some((first@ + i * PAGE_SIZE) as u64),
            r matches Err(e) ==> e == LoadError::AddressOutOfRange,
    {
        let a = match start {
            Some(a) => a,
            None => {
                return Err(LoadError::AddressOutOfRange);
            },
        };
        let end_raw = match a.checked_add(mem_size) {
            Some(end) => end,
            None => {
                return Err(LoadError::AddressOutOfRange);
            },
        };
        let first_addr = match VirtAddr::try_new(a) {
            Some(v) => v,
            None => {
                return Err(LoadError::AddressOutOfRange);
            },
        };
        let end = match VirtAddr::try_new(end_raw) {
            Some(v) => v,
            None => {
                return Err(LoadError::AddressOutOfRange);
            },
        };
        if end.as_u64() < 1 {
            return Err(LoadError::AddressOutOfRange);
        }
        let last_addr = match VirtAddr::try_new(end.as_u64() - 1) {
            Some(v) => v,
            None => {
                return Err(LoadError::AddressOutOfRange);
            },
        };
        proof {
            lemma_page_of(first_addr@);
            lemma_page_of(last_addr@);
        }
        let first = Page::containing_address(first_addr);
        let last = Page::containing_address(last_addr);
        let f = first.start_address().as_u64();
        let l = last.start_address().as_u64();
        if f > l {
            return Ok((first, 0));
        }
        if (f < LOWER_HALF_END) != (l < LOWER_HALF_END) {
            return Err(LoadError::AddressOutOfRange);
        }
        let count: u64 = (l - f) / PAGE_SIZE + 1;
        proof {
            assert forall|i: int| 0 <= i < count implies is_canonical(first@ + i * PAGE_SIZE)
                && #[trigger] page_after(first@, i) == Some((first@ + i * PAGE_SIZE) as u64) by {
                lemma_page_count(f, l, i);
            }
            lemma_page_count(f, l, 0);
        }
        Ok((first, count))
    }
}

/// Where mapping the first `part` pages fails, mapping `count` pages fails in
/// the same way.
pub proof fn lemma_file_pages_mapped_fails(
    space: Map<u64, Mapping>,
    start_page: u64,
    start_frame: u64,
    count: nat,
    part: nat,
    flags: PageFlags,
)
    requires
        part <= count,
    ensures
        file_pages_mapped(space, start_page, start_frame, part, flags) matches Err(e)
            ==> file_pages_mapped(space, start_page, start_frame, count, flags) == Err::<
            Map<u64, Mapping>,
            LoadError,
        >(e),
    decreases count - part,
{
    if part < count {
        lemma_file_pages_mapped_fails(space, start_page, start_frame, count, part + 1, flags);
    }
}

/// Where mapping the first `part` pages to new frames fails, mapping `count`
/// of them fails in the same way.
pub proof fn lemma_fresh_pages_mapped_fails<D: LegacyMemoryRegion>(
    state: LoadState<D>,
    first: u64,
    count: nat,
    part: nat,
    flags: PageFlags,
    data: Option<Seq<Option<u8>>>,
    taken: LoadError,
)
    requires
        part <= count,
    ensures
        fresh_pages_mapped(state, first, part, flags, data, taken) matches Err(e)
            ==> fresh_pages_mapped(state, first, count, flags, data, taken) == Err::<
            LoadState<D>,
            LoadError,
        >(e),
    decreases count - part,
{
    if part < count {
        lemma_fresh_pages_mapped_fails(state, first, count, part + 1, flags, data, taken);
    }
}

} // verus!
