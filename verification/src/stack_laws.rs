use vstd::prelude::*;
use crate::addr::{aligned_down, is_canonical, lemma_aligned_down, p4_start, LEVEL_4_SIZE, PAGE_SIZE};
use crate::elf::{ElfHeader, ProgramHeader};
use crate::entries::{entries_for, first_free_run, lemma_first_free_run, marked_segments};
use crate::error::LoadError;
use crate::frame_allocator::LegacyMemoryRegion;
use crate::initium::{
    address_reserved, data_flags, framebuffer_set_up, fresh_entries, gdt_mapped, identity_mapped,
    lemma_level_4_region, mappings_set_up, ramdisk_set_up, stack_mapped, surroundings_set_up,
    trampoline_mapped, KERNEL_STACK_PAGES, KERNEL_STACK_SIZE,
};
use crate::kernel::bss_laws::extends;
use crate::kernel::memory::LoadState;
use crate::kernel::segments::{file_pages_mapped, fresh_pages_mapped, in_pages, nth_page};
use crate::kernel::{kernel_loaded, loader_planned, Loaded};
use crate::paging::{Mapping, PageFlags};

verus! {

/// Mapping pages to new frames maps each of them, and no other page, with the
/// flags that were asked for; none of them was mapped before; and the frames
/// that they get are frames that the allocator had not handed out, each above
/// the one before: no two of the pages share a frame.
pub proof fn lemma_fresh_pages_get_frames_of_their_own<D: LegacyMemoryRegion>(
    state: LoadState<D>,
    first: u64,
    count: nat,
    flags: PageFlags,
    data: Option<Seq<Option<u8>>>,
    taken: LoadError,
)
    requires
        state.allocator.wf(),
        first + count * PAGE_SIZE <= u64::MAX,
        fresh_pages_mapped(state, first, count, flags, data, taken) is Ok,
    ensures
        ({
            let after = fresh_pages_mapped(state, first, count, flags, data, taken).unwrap();
            &&& after.allocator.wf()
            &&& after.allocator.next_frame >= state.allocator.next_frame
            &&& forall|p: u64|
                !in_pages(p, first, count) ==> (#[trigger] after.space.contains_key(p)
                    == state.space.contains_key(p))
            &&& forall|i: int|
                0 <= i < count ==> {
                    &&& !state.space.contains_key(#[trigger] nth_page(first, i))
                    &&& after.space.contains_key(nth_page(first, i))
                    &&& after.space[nth_page(first, i)].flags == flags
                    &&& state.allocator.next_frame <= after.space[nth_page(first, i)].frame
                        < after.allocator.next_frame
                    &&& after.space[nth_page(first, i)].frame % PAGE_SIZE == 0
                }
            &&& forall|i: int, j: int|
                0 <= i < j < count ==> after.space[#[trigger] nth_page(first, i)].frame
                    < after.space[#[trigger] nth_page(first, j)].frame
        }),
    decreases count,
{
    if count > 0 {
        let n = (count - 1) as nat;
        let before = fresh_pages_mapped(state, first, n, flags, data, taken).unwrap();
        let after = fresh_pages_mapped(state, first, count, flags, data, taken).unwrap();
        assert(n * PAGE_SIZE + PAGE_SIZE == count * PAGE_SIZE) by (nonlinear_arith)
            requires
                n == count - 1,
        ;
        assert(0 <= n * PAGE_SIZE) by (nonlinear_arith);
        lemma_fresh_pages_get_frames_of_their_own(state, first, n, flags, data, taken);
        before.allocator.lemma_allocate();
        let page = (first + n * PAGE_SIZE) as u64;
        let frame = before.allocator.allocate().0.unwrap();
        assert(page == nth_page(first, n as int));
        assert(after.space == before.space.insert(
            page,
            crate::paging::Mapping { frame, flags, data, copy_of: None },
        ));
        assert forall|i: int| 0 <= i < n implies nth_page(first, i) != page && in_pages(
            #[trigger] nth_page(first, i),
            first,
            n,
        ) by {
            assert(0 <= i * PAGE_SIZE && i * PAGE_SIZE + PAGE_SIZE <= n * PAGE_SIZE)
                by (nonlinear_arith)
                requires
                    0 <= i < n,
            ;
        }
        assert(!in_pages(page, first, n));
        assert(in_pages(page, first, count));
        assert forall|p: u64| !in_pages(p, first, count) implies (#[trigger] after.space.contains_key(
            p,
        ) == state.space.contains_key(p)) by {
            assert(!in_pages(p, first, n));
            assert(before.space.contains_key(p) == state.space.contains_key(p));
        }
        assert forall|i: int| 0 <= i < count implies {
            &&& !state.space.contains_key(#[trigger] nth_page(first, i))
            &&& after.space.contains_key(nth_page(first, i))
            &&& after.space[nth_page(first, i)].flags == flags
            &&& state.allocator.next_frame <= after.space[nth_page(first, i)].frame
                < after.allocator.next_frame
            &&& after.space[nth_page(first, i)].frame % PAGE_SIZE == 0
        } by {
            if i < n {
                assert(nth_page(first, i) != page);
            } else {
                assert(nth_page(first, i) == page);
                assert(before.space.contains_key(page) == state.space.contains_key(page));
            }
        }
        assert forall|i: int, j: int| 0 <= i < j < count implies after.space[#[trigger] nth_page(
            first,
            i,
        )].frame < after.space[#[trigger] nth_page(first, j)].frame by {
            assert(nth_page(first, i) != page);
            if j < n {
                assert(nth_page(first, j) != page);
            } else {
                assert(nth_page(first, j) == page);
            }
        }
    }
}

/// The layout of the kernel's stack: the first address above the stack lies
/// the size of the stack above the stack's first page and is a multiple of 16;
/// the page below the stack, which guards it, is mapped no more than it was,
/// so it is unmapped where it was unmapped; and each of the pages of the stack
/// is mapped, present and writable, to a frame that no other of them has.
pub proof fn lemma_stack_layout<D: LegacyMemoryRegion>(state: LoadState<D>, entries: Seq<bool>)
    requires
        state.allocator.wf(),
        entries.len() == 512,
        stack_mapped(state, entries) is Ok,
    ensures
        ({
            let (after, taken, stack_top) = stack_mapped(state, entries).unwrap();
            let guard = address_reserved(
                entries,
                (PAGE_SIZE + KERNEL_STACK_SIZE) as u64,
                PAGE_SIZE,
            ).unwrap().0;
            let stack_start = (guard + PAGE_SIZE) as u64;
            &&& guard % PAGE_SIZE == 0
            &&& guard >= LEVEL_4_SIZE || !entries[0]
            &&& stack_start == guard + PAGE_SIZE
            &&& stack_top == stack_start + KERNEL_STACK_SIZE
            &&& stack_top % 16 == 0
            &&& after.space.contains_key(guard) == state.space.contains_key(guard)
            &&& forall|i: int|
                0 <= i < KERNEL_STACK_PAGES ==> {
                    &&& after.space.contains_key(#[trigger] nth_page(stack_start, i))
                    &&& after.space[nth_page(stack_start, i)].flags == data_flags()
                    &&& !state.space.contains_key(nth_page(stack_start, i))
                }
            &&& forall|i: int, j: int|
                0 <= i < j < KERNEL_STACK_PAGES ==> after.space[#[trigger] nth_page(
                    stack_start,
                    i,
                )].frame != after.space[#[trigger] nth_page(stack_start, j)].frame
            &&& forall|p: u64|
                !in_pages(p, stack_start, KERNEL_STACK_PAGES as nat)
                    ==> (#[trigger] after.space.contains_key(p) == state.space.contains_key(p))
        }),
{
    let size = (PAGE_SIZE + KERNEL_STACK_SIZE) as u64;
    let index = first_free_run(entries, entries_for(size as int));
    lemma_first_free_run(entries, entries_for(size as int));
    lemma_level_4_region(index, 0);
    lemma_level_4_region(index, PAGE_SIZE + KERNEL_STACK_SIZE);
    let guard = p4_start(index) as u64;
    let stack_start = (guard + PAGE_SIZE) as u64;
    lemma_fresh_pages_get_frames_of_their_own(
        state,
        stack_start,
        KERNEL_STACK_PAGES as nat,
        data_flags(),
        None,
        LoadError::MapToFailed,
    );
    let top = guard + PAGE_SIZE + KERNEL_STACK_SIZE;
    lemma_aligned_down(top, 16);
    assert(top % 16 == 0) by {
        assert(guard % PAGE_SIZE == 0);
    }
    assert(!in_pages(guard, stack_start, KERNEL_STACK_PAGES as nat));
    if index == 0 {
        assert(!entries[0]);
    } else {
        assert(index * LEVEL_4_SIZE >= LEVEL_4_SIZE) by (nonlinear_arith)
            requires
                index >= 1,
        ;
    }
}

/// The page below the stack that is set up for the level 4 entries `entries`.
pub open spec fn guard_page(entries: Seq<bool>) -> u64 {
    address_reserved(entries, (PAGE_SIZE + KERNEL_STACK_SIZE) as u64, PAGE_SIZE).unwrap().0
}

/// Mapping pages to frames one after the other changes no page that was
/// mapped, and maps no page below the first of them.
pub proof fn lemma_file_pages_lie_above(
    space: Map<u64, Mapping>,
    start_page: u64,
    start_frame: u64,
    count: nat,
    flags: PageFlags,
)
    requires
        file_pages_mapped(space, start_page, start_frame, count, flags) is Ok,
    ensures
        extends(space, file_pages_mapped(space, start_page, start_frame, count, flags).unwrap()),
        forall|p: u64| #[trigger]
            file_pages_mapped(space, start_page, start_frame, count, flags).unwrap().contains_key(p)
                ==> space.contains_key(p) || p >= start_page,
    decreases count,
{
    if count > 0 {
        let before = file_pages_mapped(space, start_page, start_frame, (count - 1) as nat, flags).unwrap();
        let after = file_pages_mapped(space, start_page, start_frame, count, flags).unwrap();
        lemma_file_pages_lie_above(space, start_page, start_frame, (count - 1) as nat, flags);
        assert(0 <= (count - 1) * PAGE_SIZE) by (nonlinear_arith)
            requires
                count >= 1,
        ;
        let page = crate::addr::page_after(start_page, count - 1).unwrap();
        assert(page >= start_page);
        assert forall|p: u64| #[trigger] space.contains_key(p) implies after.contains_key(p)
            && after[p] == space[p] by {
            assert(before.contains_key(p));
        }
        assert forall|p: u64| #[trigger] after.contains_key(p) implies space.contains_key(p) || p
            >= start_page by {
            if p != page {
                assert(before.contains_key(p));
            }
        }
    }
}

/// Room that is reserved once all level 4 entries up to `index` are taken
/// starts above the start of the entry `index`, and all those entries are
/// still taken afterwards.
proof fn lemma_reserved_above(entries: Seq<bool>, size: u64, index: int)
    requires
        entries.len() == 512,
        0 <= index < 512,
        forall|i: int| 0 <= i <= index ==> #[trigger] entries[i],
        address_reserved(entries, size, PAGE_SIZE) is Ok,
    ensures
        address_reserved(entries, size, PAGE_SIZE).unwrap().0 > p4_start(index),
        address_reserved(entries, size, PAGE_SIZE).unwrap().1.len() == 512,
        forall|i: int|
            0 <= i <= index ==> #[trigger] address_reserved(entries, size, PAGE_SIZE).unwrap().1[i],
{
    let run = first_free_run(entries, entries_for(size as int));
    lemma_first_free_run(entries, entries_for(size as int));
    assert(!entries[run]);
    assert(run > index);
    lemma_level_4_region(run, 0);
    lemma_level_4_region(index, 0);
    assert(index * LEVEL_4_SIZE < run * LEVEL_4_SIZE) by (nonlinear_arith)
        requires
            index < run,
    ;
}

/// With the stack set up, the page below it stays unmapped whatever else is
/// set up around the kernel, where it was unmapped when the kernel had been
/// loaded, the first level 4 entry is taken, and the two pages of the
/// function that switches to the kernel and the global descriptor table lie
/// in the part of memory that the first level 4 entry covers. The pages of the stack stay as they
/// were mapped, and the first address above the stack lies the size of the
/// stack above the first of them.
pub proof fn lemma_guard_page_stays_unmapped<D: LegacyMemoryRegion>(
    loaded: Loaded<D>,
    function: u64,
    framebuffer: Option<(u64, u64)>,
    ramdisk: Option<u64>,
    ramdisk_len: u64,
)
    requires
        loaded.state.allocator.wf(),
        loaded.entries.len() == 512,
        loaded.entries[0],
        surroundings_set_up(loaded, function, framebuffer, ramdisk, ramdisk_len) is Ok,
        !loaded.state.space.contains_key(guard_page(loaded.entries)),
        function + PAGE_SIZE < LEVEL_4_SIZE,
        surroundings_set_up(loaded, function, framebuffer, ramdisk, ramdisk_len).unwrap().gdt_frame
            < LEVEL_4_SIZE,
    ensures
        ({
            let set_up = surroundings_set_up(loaded, function, framebuffer, ramdisk, ramdisk_len).unwrap();
            let guard = guard_page(loaded.entries);
            let stack_start = (guard + PAGE_SIZE) as u64;
            &&& !set_up.state.space.contains_key(guard)
            &&& set_up.stack_top == stack_start + KERNEL_STACK_SIZE
            &&& forall|i: int|
                0 <= i < KERNEL_STACK_PAGES ==> {
                    &&& set_up.state.space.contains_key(#[trigger] nth_page(stack_start, i))
                    &&& set_up.state.space[nth_page(stack_start, i)].flags == data_flags()
                }
            &&& forall|i: int, j: int|
                0 <= i < j < KERNEL_STACK_PAGES ==> set_up.state.space[#[trigger] nth_page(
                    stack_start,
                    i,
                )].frame != set_up.state.space[#[trigger] nth_page(stack_start, j)].frame
        }),
{
    let entries = loaded.entries;
    let size = (PAGE_SIZE + KERNEL_STACK_SIZE) as u64;
    let index = first_free_run(entries, entries_for(size as int));
    lemma_first_free_run(entries, entries_for(size as int));
    lemma_level_4_region(index, 0);
    lemma_stack_layout(loaded.state, entries);
    let guard = guard_page(entries);
    let stack_start = (guard + PAGE_SIZE) as u64;
    let (s1, e1, stack_top) = stack_mapped(loaded.state, entries).unwrap();
    assert(entries_for(size as int) == 1);
    assert forall|i: int| 0 <= i <= index implies #[trigger] e1[i] by {
        if i < index {
            if !entries[i] {
                assert(crate::entries::is_free_run(entries, i, 1));
            }
        }
    }
    assert(index >= 1);
    assert(guard >= LEVEL_4_SIZE);
    let frame = aligned_down(function as int, PAGE_SIZE as int);
    lemma_aligned_down(function as int, PAGE_SIZE as int);
    let half = identity_mapped(s1.space, frame as u64, crate::initium::code_flags()).unwrap();
    let space2 = trampoline_mapped(s1.space, function).unwrap();
    assert(is_canonical(frame) && is_canonical(frame + PAGE_SIZE));
    assert((frame + PAGE_SIZE) % (PAGE_SIZE as int) == 0) by {
        vstd::arithmetic::div_mod::lemma_mod_adds(frame, PAGE_SIZE as int, PAGE_SIZE as int);
    }
    lemma_aligned_down(frame, PAGE_SIZE as int);
    lemma_aligned_down(frame + PAGE_SIZE, PAGE_SIZE as int);
    assert(crate::kernel::memory::page_of(frame as u64) == frame);
    assert(crate::kernel::memory::page_of((frame + PAGE_SIZE) as u64) == frame + PAGE_SIZE);
    assert(extends(s1.space, half) && !half.contains_key(guard));
    assert(extends(s1.space, space2) && !space2.contains_key(guard));
    let (s3, gdt_frame) = gdt_mapped(LoadState { space: space2, ..s1 }).unwrap();
    lemma_aligned_down(gdt_frame as int, PAGE_SIZE as int);
    assert(extends(space2, s3.space) && !s3.space.contains_key(guard));
    let (space4, e4, fb) = framebuffer_set_up(s3.space, e1, framebuffer).unwrap();
    assert(extends(s3.space, space4) && !space4.contains_key(guard) && e4.len() == 512 && (forall|
        i: int,
    | 0 <= i <= index ==> #[trigger] e4[i])) by {
        match framebuffer {
            None => {},
            Some((addr, byte_len)) => {
                lemma_reserved_above(e1, byte_len, index);
                let (page, taken) = address_reserved(e1, byte_len, PAGE_SIZE).unwrap();
                let (first, count) = crate::initium::frame_range(
                    addr as int,
                    addr + byte_len - 1,
                ).unwrap();
                lemma_file_pages_lie_above(s3.space, page, first, count, data_flags());
            },
        }
    }
    let (space5, e5, rd) = ramdisk_set_up(space4, e4, ramdisk, ramdisk_len).unwrap();
    assert(extends(space4, space5) && !space5.contains_key(guard)) by {
        match ramdisk {
            None => {},
            Some(addr) => {
                lemma_reserved_above(e4, ramdisk_len, index);
                let (page, taken) = address_reserved(e4, ramdisk_len, PAGE_SIZE).unwrap();
                let first = aligned_down(addr as int, PAGE_SIZE as int);
                let pages = (ramdisk_len - 1) / (PAGE_SIZE as int) + 1;
                lemma_file_pages_lie_above(space4, page, first as u64, pages as nat, data_flags());
            },
        }
    }
    assert forall|i: int| 0 <= i < KERNEL_STACK_PAGES implies space5.contains_key(
        #[trigger] nth_page(stack_start, i),
    ) && space5[nth_page(stack_start, i)] == s1.space[nth_page(stack_start, i)] by {
        let p = nth_page(stack_start, i);
        assert(s1.space.contains_key(p));
        assert(space2.contains_key(p) && space2[p] == s1.space[p]);
        assert(s3.space.contains_key(p) && s3.space[p] == space2[p]);
        assert(space4.contains_key(p) && space4[p] == s3.space[p]);
        assert(space5.contains_key(p) && space5[p] == space4[p]);
    }
}

/// Marking the entries that segments touch frees no entry.
pub proof fn lemma_marked_segments_keep(state: Seq<bool>, segments: Seq<ProgramHeader>, offset: int)
    ensures
        marked_segments(state, segments, offset).len() == state.len(),
        forall|i: int|
            0 <= i < state.len() && state[i] ==> #[trigger] marked_segments(state, segments, offset)[i],
    decreases segments.len(),
{
    if segments.len() > 0 {
        lemma_marked_segments_keep(state, segments.drop_last(), offset);
    }
}

/// With the stack set up in a new address space, the page below it stays
/// unmapped whatever else is set up around the kernel, where it was unmapped
/// when the kernel had been loaded and the two pages of the function that
/// switches to the kernel and the global descriptor table lie in the part of
/// memory that the first level 4 entry covers.
pub proof fn lemma_guard_page_of_set_up<D: LegacyMemoryRegion>(
    state: LoadState<D>,
    bytes: Seq<u8>,
    header: ElfHeader,
    start_address: u64,
    function: u64,
    framebuffer: Option<(u64, u64)>,
    ramdisk: Option<u64>,
    ramdisk_len: u64,
)
    requires
        mappings_set_up(
            state,
            bytes,
            header,
            start_address,
            function,
            framebuffer,
            ramdisk,
            ramdisk_len,
        ) is Ok,
        kernel_loaded(
            state,
            fresh_entries(),
            bytes,
            header,
            start_address,
        ).unwrap().state.allocator.wf(),
        !kernel_loaded(
            state,
            fresh_entries(),
            bytes,
            header,
            start_address,
        ).unwrap().state.space.contains_key(
            guard_page(
                kernel_loaded(state, fresh_entries(), bytes, header, start_address).unwrap().entries,
            ),
        ),
        function + PAGE_SIZE < LEVEL_4_SIZE,
        mappings_set_up(
            state,
            bytes,
            header,
            start_address,
            function,
            framebuffer,
            ramdisk,
            ramdisk_len,
        ).unwrap().gdt_frame < LEVEL_4_SIZE,
    ensures
        ({
            let set_up = mappings_set_up(
                state,
                bytes,
                header,
                start_address,
                function,
                framebuffer,
                ramdisk,
                ramdisk_len,
            ).unwrap();
            let guard = guard_page(
                kernel_loaded(state, fresh_entries(), bytes, header, start_address).unwrap().entries,
            );
            let stack_start = (guard + PAGE_SIZE) as u64;
            &&& !set_up.state.space.contains_key(guard)
            &&& set_up.stack_top == stack_start + KERNEL_STACK_SIZE
            &&& forall|i: int|
                0 <= i < KERNEL_STACK_PAGES ==> {
                    &&& set_up.state.space.contains_key(#[trigger] nth_page(stack_start, i))
                    &&& set_up.state.space[nth_page(stack_start, i)].flags == data_flags()
                }
        }),
{
    let loaded = kernel_loaded(state, fresh_entries(), bytes, header, start_address).unwrap();
    let (offset, taken) = loader_planned(bytes, header, start_address, fresh_entries()).unwrap();
    let segments = crate::elf::program_headers_of(bytes, header).unwrap();
    let chosen = crate::kernel::offset_chosen(
        crate::elf::object_type_of(header.type_),
        segments,
        fresh_entries(),
    ).unwrap().1;
    lemma_marked_segments_keep(chosen, segments, offset);
    assert(chosen.len() == 512 && chosen[0]);
    assert(loaded.entries == taken);
    lemma_guard_page_stays_unmapped(loaded, function, framebuffer, ramdisk, ramdisk_len);
}

} // verus!
