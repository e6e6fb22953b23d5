use vstd::prelude::*;
use crate::addr::{
    aligned_down, aligned_up, canonical_form, is_canonical, lemma_aligned_down, lemma_aligned_up,
    lemma_multiples_apart, page_after, PAGE_SIZE, PHYS_LIMIT,
};
use crate::elf::{ProgramHeader, SegmentType};
use crate::error::LoadError;
use crate::frame_allocator::LegacyMemoryRegion;
use crate::kernel::laws::lemma_in_pages;
use crate::kernel::memory::{
    byte_address, byte_read, lemma_page_of, made_mutable, page_bytes, page_of, Image, LoadState,
};
use crate::kernel::memory_laws::{
    lemma_made_mutable, lemma_offset_in_page, state_ok,
};
use crate::kernel::segments::{
    address_before, bss_handled, file_frames, file_pages_mapped, fresh_pages_mapped, in_pages,
    lemma_page_count, load_segment_handled, nth_page, page_count, segment_flags, segment_start,
    tail_zeroed, zero_page, zero_pages_mapped,
};
use crate::kernel::{load_handled, loads_handled};
use crate::paging::{space_wf, Mapping, PageFlags};
use crate::tls_template::TlsTemplate;

verus! {

/// Whether every byte that can be read in one space reads the same or as zero
/// in another.
pub open spec fn kept_or_zeroed(before: Map<u64, Mapping>, after: Map<u64, Mapping>, image: Image) -> bool {
    forall|a: u64|
        byte_read(before, image, a).is_some() ==> #[trigger] byte_read(after, image, a)
            == byte_read(before, image, a) || byte_read(after, image, a) == Some(0u8)
}

/// Whether one space has every page of another, mapped as it was.
pub open spec fn extends(before: Map<u64, Mapping>, after: Map<u64, Mapping>) -> bool {
    forall|p: u64| #[trigger]
        before.contains_key(p) ==> after.contains_key(p) && after[p] == before[p]
}

/// The first address of what the segment has in memory beyond what the file
/// holds of it, and the address after the last, when the image is moved by
/// `offset`.
pub open spec fn bss_range(offset: int, segment: ProgramHeader) -> Option<(u64, u64)> {
    match segment_start(offset, segment) {
        None => None,
        Some(virt_start) => match (byte_address(virt_start, segment.file_size as int), byte_address(
            virt_start,
            segment.mem_size as int,
        )) {
            (Some(zero_start), Some(zero_end)) => Some((zero_start, zero_end)),
            _ => None,
        },
    }
}

/// Whether every address from `zero_start` up to but without `zero_end` reads
/// as zero.
pub open spec fn reads_zero(
    space: Map<u64, Mapping>,
    image: Image,
    zero_start: u64,
    zero_end: u64,
) -> bool {
    forall|a: u64|
        is_canonical(a as int) && zero_start <= a < zero_end ==> #[trigger] byte_read(
            space,
            image,
            a,
        ) == Some(0u8)
}

/// Whether every byte that the segment has in memory beyond what the file
/// holds of it reads as zero.
pub open spec fn bss_is_zero(
    space: Map<u64, Mapping>,
    image: Image,
    offset: int,
    segment: ProgramHeader,
) -> bool {
    bss_range(offset, segment) matches Some((zero_start, zero_end)) && reads_zero(
        space,
        image,
        zero_start,
        zero_end,
    )
}

/// A space that extends another keeps what could be read in it.
pub proof fn lemma_extends_keeps(before: Map<u64, Mapping>, after: Map<u64, Mapping>, image: Image)
    requires
        extends(before, after),
    ensures
        kept_or_zeroed(before, after, image),
{
    assert forall|a: u64| byte_read(before, image, a).is_some() implies #[trigger] byte_read(
        after,
        image,
        a,
    ) == byte_read(before, image, a) || byte_read(after, image, a) == Some(0u8) by {
        assert(before.contains_key(page_of(a)));
    }
}

/// Keeping or zeroing, one after the other, is keeping or zeroing.
pub proof fn lemma_kept_or_zeroed_trans(
    a: Map<u64, Mapping>,
    b: Map<u64, Mapping>,
    c: Map<u64, Mapping>,
    image: Image,
)
    requires
        kept_or_zeroed(a, b, image),
        kept_or_zeroed(b, c, image),
    ensures
        kept_or_zeroed(a, c, image),
{
    assert forall|x: u64| byte_read(a, image, x).is_some() implies #[trigger] byte_read(c, image, x)
        == byte_read(a, image, x) || byte_read(c, image, x) == Some(0u8) by {
        assert(byte_read(b, image, x) == byte_read(a, image, x) || byte_read(b, image, x) == Some(
            0u8,
        ));
    }
}

/// Mapping pages to frames of the image leaves the mappings well formed and
/// changes no page that was mapped.
pub proof fn lemma_file_pages_mapped(
    space: Map<u64, Mapping>,
    start_page: u64,
    start_frame: u64,
    count: nat,
    flags: PageFlags,
)
    requires
        space_wf(space),
        is_canonical(start_page as int),
        start_page % PAGE_SIZE == 0,
        start_frame % PAGE_SIZE == 0,
        start_frame + count * PAGE_SIZE < PHYS_LIMIT,
        file_pages_mapped(space, start_page, start_frame, count, flags) is Ok,
    ensures
        space_wf(file_pages_mapped(space, start_page, start_frame, count, flags).unwrap()),
        extends(space, file_pages_mapped(space, start_page, start_frame, count, flags).unwrap()),
    decreases count,
{
    if count > 0 {
        let before = file_pages_mapped(space, start_page, start_frame, (count - 1) as nat, flags).unwrap();
        let after = file_pages_mapped(space, start_page, start_frame, count, flags).unwrap();
        assert((count - 1) * PAGE_SIZE < count * PAGE_SIZE) by (nonlinear_arith)
            requires
                PAGE_SIZE == 4096,
        ;
        assert(0 <= (count - 1) * PAGE_SIZE) by (nonlinear_arith)
            requires
                count >= 1,
                PAGE_SIZE == 4096,
        ;
        lemma_file_pages_mapped(space, start_page, start_frame, (count - 1) as nat, flags);
        let page = page_after(start_page, count - 1).unwrap();
        let frame = (start_frame + (count - 1) * PAGE_SIZE) as u64;
        assert(page % PAGE_SIZE == 0 && is_canonical(page as int)) by {
            let sum = (start_page + (count - 1) * PAGE_SIZE) as u64;
            assert(sum % PAGE_SIZE == 0) by {
                vstd::arithmetic::div_mod::lemma_mod_multiples_vanish(
                    count - 1,
                    start_page as int,
                    PAGE_SIZE as int,
                );
            }
        }
        assert(frame % PAGE_SIZE == 0) by {
            vstd::arithmetic::div_mod::lemma_mod_multiples_vanish(
                count - 1,
                start_frame as int,
                PAGE_SIZE as int,
            );
        }
        assert forall|p: u64| #[trigger] after.contains_key(p) implies {
            &&& is_canonical(p as int)
            &&& p % PAGE_SIZE == 0
            &&& after[p].frame < PHYS_LIMIT
            &&& after[p].frame % PAGE_SIZE == 0
            &&& after[p].data matches Some(d) ==> d.len() == PAGE_SIZE
            &&& after[p].copy_of matches Some(f) ==> f < PHYS_LIMIT && f % PAGE_SIZE == 0
        } by {
            if p != page {
                assert(before.contains_key(p));
            }
        }
        assert forall|p: u64| #[trigger] space.contains_key(p) implies after.contains_key(p)
            && after[p] == space[p] by {
            assert(before.contains_key(p));
        }
    }
}

/// Mapping pages to new frames leaves the state valid, changes no page that
/// was mapped, and maps each of the pages to a frame that holds `data`.
pub proof fn lemma_fresh_pages_mapped<D: LegacyMemoryRegion>(
    state: LoadState<D>,
    first: u64,
    count: nat,
    flags: PageFlags,
    data: Option<Seq<Option<u8>>>,
    taken: LoadError,
)
    requires
        state_ok(state),
        first % PAGE_SIZE == 0,
        forall|i: int| 0 <= i < count ==> is_canonical(#[trigger] nth_page(first, i) as int) && first + i * PAGE_SIZE <= u64::MAX,
        data matches Some(d) ==> d.len() == PAGE_SIZE,
        fresh_pages_mapped(state, first, count, flags, data, taken) is Ok,
    ensures
        state_ok(fresh_pages_mapped(state, first, count, flags, data, taken).unwrap()),
        extends(state.space, fresh_pages_mapped(state, first, count, flags, data, taken).unwrap().space),
        forall|i: int|
            0 <= i < count ==> fresh_pages_mapped(
                state,
                first,
                count,
                flags,
                data,
                taken,
            ).unwrap().space.contains_key(#[trigger] nth_page(first, i)) && fresh_pages_mapped(
                state,
                first,
                count,
                flags,
                data,
                taken,
            ).unwrap().space[nth_page(first, i)].data == data,
        fresh_pages_mapped(state, first, count, flags, data, taken).unwrap().allocator.regions
            == state.allocator.regions,
    decreases count,
{
    if count > 0 {
        let before = fresh_pages_mapped(state, first, (count - 1) as nat, flags, data, taken).unwrap();
        let after = fresh_pages_mapped(state, first, count, flags, data, taken).unwrap();
        assert forall|i: int| 0 <= i < count - 1 implies is_canonical(
            #[trigger] nth_page(first, i) as int,
        ) && first + i * PAGE_SIZE <= u64::MAX by {
            assert(is_canonical(nth_page(first, i) as int));
        }
        lemma_fresh_pages_mapped(state, first, (count - 1) as nat, flags, data, taken);
        before.allocator.lemma_allocate();
        let page = (first + (count - 1) * PAGE_SIZE) as u64;
        assert(page == nth_page(first, count - 1));
        assert(is_canonical(nth_page(first, count - 1) as int));
        assert(page % PAGE_SIZE == 0) by {
            vstd::arithmetic::div_mod::lemma_mod_multiples_vanish(
                count - 1,
                first as int,
                PAGE_SIZE as int,
            );
        }
        assert forall|p: u64| #[trigger] after.space.contains_key(p) implies {
            &&& is_canonical(p as int)
            &&& p % PAGE_SIZE == 0
            &&& after.space[p].frame < PHYS_LIMIT
            &&& after.space[p].frame % PAGE_SIZE == 0
            &&& after.space[p].data matches Some(d) ==> d.len() == PAGE_SIZE
            &&& after.space[p].copy_of matches Some(f) ==> f < PHYS_LIMIT && f % PAGE_SIZE == 0
        } by {
            if p != page {
                assert(before.space.contains_key(p));
            }
        }
        assert forall|p: u64| #[trigger] state.space.contains_key(p) implies after.space.contains_key(
            p,
        ) && after.space[p] == state.space[p] by {
            assert(before.space.contains_key(p));
        }
        assert forall|i: int| 0 <= i < count implies after.space.contains_key(
            #[trigger] nth_page(first, i),
        ) && after.space[nth_page(first, i)].data == data by {
            if i < count - 1 {
                assert(before.space.contains_key(nth_page(first, i)));
                assert(nth_page(first, i) != page) by (nonlinear_arith)
                    requires
                        0 <= i < count - 1,
                        page == first + (count - 1) * PAGE_SIZE,
                        nth_page(first, i) == first + i * PAGE_SIZE,
                        PAGE_SIZE == 4096,
                ;
            }
        }
    }
}

/// Setting the rest of a page to zero leaves the mappings well formed; every
/// byte of the page from the index on reads as zero, and every other byte as
/// it did.
pub proof fn lemma_tail_zeroed(space: Map<u64, Mapping>, image: Image, page: u64, from: int)
    requires
        space_wf(space),
        0 <= from <= PAGE_SIZE,
        page % PAGE_SIZE == 0,
        tail_zeroed(space, image, page, from) is Ok,
    ensures
        space_wf(tail_zeroed(space, image, page, from).unwrap()),
        forall|a: u64| #[trigger]
            byte_read(tail_zeroed(space, image, page, from).unwrap(), image, a) == (if page_of(a) == page
                && a - page >= from {
                Some(0u8)
            } else {
                byte_read(space, image, a)
            }),
{
    let after = tail_zeroed(space, image, page, from).unwrap();
    assert(space.contains_key(page));
    let d = page_bytes(space, image, page).unwrap();
    crate::kernel::memory_laws::lemma_page_bytes_len(space, image, page);
    assert forall|p: u64| #[trigger] after.contains_key(p) implies {
        &&& is_canonical(p as int)
        &&& p % PAGE_SIZE == 0
        &&& after[p].frame < PHYS_LIMIT
        &&& after[p].frame % PAGE_SIZE == 0
        &&& after[p].data matches Some(d) ==> d.len() == PAGE_SIZE
        &&& after[p].copy_of matches Some(f) ==> f < PHYS_LIMIT && f % PAGE_SIZE == 0
    } by {
        assert(space.contains_key(p));
    }
    assert forall|a: u64| #[trigger]
        byte_read(after, image, a) == (if page_of(a) == page && a - page >= from {
            Some(0u8)
        } else {
            byte_read(space, image, a)
        }) by {
        lemma_offset_in_page(a);
        if page_of(a) == page {
            assert(page_bytes(space, image, page) == Some(d));
        } else {
            assert(after.contains_key(page_of(a)) == space.contains_key(page_of(a)));
        }
    }
}

/// What shows the same in every page reads the same at every address.
pub proof fn lemma_same_contents_reads(
    before: Map<u64, Mapping>,
    after: Map<u64, Mapping>,
    image: Image,
)
    requires
        crate::kernel::memory_laws::same_contents(before, after, image),
    ensures
        forall|a: u64| #[trigger] byte_read(after, image, a) == byte_read(before, image, a),
        kept_or_zeroed(before, after, image),
{
    assert forall|a: u64| #[trigger] byte_read(after, image, a) == byte_read(before, image, a) by {
        assert(page_bytes(after, image, page_of(a)) == page_bytes(before, image, page_of(a)));
    }
}

/// The page of an address that lies less than a page above a page is that page.
pub proof fn lemma_page_of_within(page: u64, a: u64)
    requires
        page % PAGE_SIZE == 0,
        page <= a < page + PAGE_SIZE,
    ensures
        page_of(a) == page,
{
    lemma_aligned_down(a as int, PAGE_SIZE as int);
    let q = page_of(a);
    if q < page {
        lemma_multiples_apart(q as int, page as int, PAGE_SIZE as int);
    } else if q > page {
        lemma_multiples_apart(page as int, q as int, PAGE_SIZE as int);
    }
}

/// After what a segment has in memory beyond the file was set up, every byte
/// of it reads as zero; every byte that could be read before reads the same
/// or as zero; and the state is valid.
pub proof fn lemma_bss_handled<D: LegacyMemoryRegion>(
    state: LoadState<D>,
    image: Image,
    virt_start: u64,
    segment: ProgramHeader,
)
    requires
        state_ok(state),
        bss_handled(state, image, virt_start, segment) is Ok,
    ensures
        state_ok(bss_handled(state, image, virt_start, segment).unwrap()),
        kept_or_zeroed(
            state.space,
            bss_handled(state, image, virt_start, segment).unwrap().space,
            image,
        ),
        byte_address(virt_start, segment.file_size as int).is_some(),
        byte_address(virt_start, segment.mem_size as int).is_some(),
        reads_zero(
            bss_handled(state, image, virt_start, segment).unwrap().space,
            image,
            byte_address(virt_start, segment.file_size as int).unwrap(),
            byte_address(virt_start, segment.mem_size as int).unwrap(),
        ),
        bss_handled(state, image, virt_start, segment).unwrap().allocator.regions
            == state.allocator.regions,
{
    let after = bss_handled(state, image, virt_start, segment).unwrap();
    let zs = byte_address(virt_start, segment.file_size as int).unwrap();
    let ze = byte_address(virt_start, segment.mem_size as int).unwrap();
    let before = zs % PAGE_SIZE;
    lemma_aligned_down(zs as int, PAGE_SIZE as int);
    lemma_aligned_up(zs as int, PAGE_SIZE as int);
    let partial_page = (zs - before) as u64;
    let s_p: LoadState<D> = if before != 0 {
        let last = address_before(zs).unwrap();
        assert(last == zs - 1);
        lemma_page_of_within(partial_page, last);
        let (s_m, _) = made_mutable(state, image, partial_page).unwrap();
        lemma_made_mutable(state, image, partial_page);
        lemma_same_contents_reads(state.space, s_m.space, image);
        let space_t = tail_zeroed(s_m.space, image, partial_page, before as int).unwrap();
        lemma_tail_zeroed(s_m.space, image, partial_page, before as int);
        LoadState { space: space_t, ..s_m }
    } else {
        state
    };
    assert(state_ok(s_p));
    assert(kept_or_zeroed(state.space, s_p.space, image));
    let up = aligned_up(zs as int, PAGE_SIZE as int);
    let first_addr = canonical_form(up as u64).unwrap();
    let end_incl = address_before(ze).unwrap();
    assert(end_incl == ze - 1);
    let first = page_of(first_addr);
    let last = page_of(end_incl);
    lemma_page_of(first_addr);
    lemma_page_of(end_incl);
    let count = page_count(first, last).unwrap();
    assert(after == zero_pages_mapped(s_p, first, count, segment_flags(segment)).unwrap());
    assert forall|i: int| 0 <= i < count implies is_canonical(#[trigger] nth_page(first, i) as int)
        && first + i * PAGE_SIZE <= u64::MAX by {
        lemma_page_count(first, last, i);
    }
    lemma_fresh_pages_mapped(
        s_p,
        first,
        count,
        segment_flags(segment),
        Some(zero_page()),
        LoadError::BssMapToFailed,
    );
    lemma_extends_keeps(s_p.space, after.space, image);
    lemma_kept_or_zeroed_trans(state.space, s_p.space, after.space, image);
    assert forall|a: u64| is_canonical(a as int) && zs <= a < ze implies #[trigger] byte_read(
        after.space,
        image,
        a,
    ) == Some(0u8) by {
        lemma_offset_in_page(a);
        if a < up {
            assert(before != 0);
            lemma_page_of_within(partial_page, a);
            assert(byte_read(s_p.space, image, a) == Some(0u8));
            assert(s_p.space.contains_key(partial_page));
        } else {
            assert(first == first_addr);
            assert(first <= a);
            let q = page_of(a);
            lemma_page_of(a);
            assert(first <= q) by {
                if q < first {
                    lemma_multiples_apart(q as int, first as int, PAGE_SIZE as int);
                }
            }
            assert(q <= last) by {
                if last < q {
                    lemma_multiples_apart(last as int, q as int, PAGE_SIZE as int);
                }
            }
            lemma_page_count(first, last, 0);
            assert(in_pages(q, first, count));
            lemma_in_pages(q, first, count);
            let i = choose|i: int| 0 <= i < count && q == #[trigger] nth_page(first, i);
            assert(after.space.contains_key(nth_page(first, i)));
            assert(page_bytes(after.space, image, q) == Some(zero_page()));
        }
    }
}

/// The frames of the image that hold a segment are frames within the physical
/// address space.
pub proof fn lemma_file_frames(image: Image, segment: ProgramHeader)
    requires
        file_frames(image, segment) is Ok,
    ensures
        file_frames(image, segment).unwrap().0 % PAGE_SIZE == 0,
        file_frames(image, segment).unwrap().0 + file_frames(image, segment).unwrap().1 * PAGE_SIZE
            < PHYS_LIMIT,
{
    let phys_start = image.start + segment.offset;
    let phys_end = phys_start + segment.file_size;
    lemma_aligned_down(phys_start, PAGE_SIZE as int);
    lemma_aligned_down(phys_end - 1, PAGE_SIZE as int);
    let first = aligned_down(phys_start, PAGE_SIZE as int);
    let last = aligned_down(phys_end - 1, PAGE_SIZE as int);
    if first <= last {
        assert((last - first) % (PAGE_SIZE as int) == 0) by {
            vstd::arithmetic::div_mod::lemma_sub_mod_noop(last, first, PAGE_SIZE as int);
        }
        vstd::arithmetic::div_mod::lemma_fundamental_div_mod(last - first, PAGE_SIZE as int);
    }
}

/// After a segment was loaded, the state is valid, and every byte that could
/// be read before reads the same or as zero.
pub proof fn lemma_load_segment_handled<D: LegacyMemoryRegion>(
    state: LoadState<D>,
    image: Image,
    offset: int,
    segment: ProgramHeader,
)
    requires
        state_ok(state),
        load_segment_handled(state, image, offset, segment) is Ok,
    ensures
        state_ok(load_segment_handled(state, image, offset, segment).unwrap()),
        kept_or_zeroed(
            state.space,
            load_segment_handled(state, image, offset, segment).unwrap().space,
            image,
        ),
        load_segment_handled(state, image, offset, segment).unwrap().allocator.regions
            == state.allocator.regions,
{
    let (start_frame, count) = file_frames(image, segment).unwrap();
    lemma_file_frames(image, segment);
    let virt_start = segment_start(offset, segment).unwrap();
    lemma_page_of(virt_start);
    let space = file_pages_mapped(
        state.space,
        page_of(virt_start),
        start_frame,
        count,
        segment_flags(segment),
    ).unwrap();
    lemma_file_pages_mapped(
        state.space,
        page_of(virt_start),
        start_frame,
        count,
        segment_flags(segment),
    );
    lemma_extends_keeps(state.space, space, image);
    if segment.mem_size > segment.file_size {
        let mapped = LoadState { space, ..state };
        lemma_bss_handled(mapped, image, virt_start, segment);
        lemma_kept_or_zeroed_trans(
            state.space,
            space,
            bss_handled(mapped, image, virt_start, segment).unwrap().space,
            image,
        );
    }
}

/// Whether the segment is loaded and has memory beyond what the file holds
/// of it.
pub open spec fn has_bss(segment: ProgramHeader) -> bool {
    segment.is_load() && segment.mem_size > segment.file_size
}

/// After a segment with memory beyond the file was loaded, every byte of that
/// memory reads as zero.
pub proof fn lemma_load_segment_zero<D: LegacyMemoryRegion>(
    state: LoadState<D>,
    image: Image,
    offset: int,
    segment: ProgramHeader,
)
    requires
        state_ok(state),
        has_bss(segment),
        load_segment_handled(state, image, offset, segment) is Ok,
    ensures
        bss_is_zero(
            load_segment_handled(state, image, offset, segment).unwrap().space,
            image,
            offset,
            segment,
        ),
{
    let (start_frame, count) = file_frames(image, segment).unwrap();
    lemma_file_frames(image, segment);
    let virt_start = segment_start(offset, segment).unwrap();
    lemma_page_of(virt_start);
    let space = file_pages_mapped(
        state.space,
        page_of(virt_start),
        start_frame,
        count,
        segment_flags(segment),
    ).unwrap();
    lemma_file_pages_mapped(
        state.space,
        page_of(virt_start),
        start_frame,
        count,
        segment_flags(segment),
    );
    lemma_bss_handled(LoadState { space, ..state }, image, virt_start, segment);
}

/// Loading the segments: the segments but the last come first.
pub proof fn lemma_loads_unfold<D: LegacyMemoryRegion>(
    state: LoadState<D>,
    image: Image,
    offset: int,
    segments: Seq<ProgramHeader>,
)
    requires
        segments.len() > 0,
    ensures
        loads_handled(state, image, offset, segments) == (match loads_handled(
            state,
            image,
            offset,
            segments.drop_last(),
        ) {
            Err(e) => Err(e),
            Ok((s, tls)) => load_handled(s, tls, image, offset, segments.last()),
        }),
{
    reveal_with_fuel(loads_handled, 2);
}

/// After one more segment was handled, the state is valid, and every byte
/// that could be read before reads the same or as zero.
pub proof fn lemma_load_handled<D: LegacyMemoryRegion>(
    state: LoadState<D>,
    tls: Option<TlsTemplate>,
    image: Image,
    offset: int,
    segment: ProgramHeader,
)
    requires
        state_ok(state),
        load_handled(state, tls, image, offset, segment) is Ok,
    ensures
        state_ok(load_handled(state, tls, image, offset, segment).unwrap().0),
        kept_or_zeroed(
            state.space,
            load_handled(state, tls, image, offset, segment).unwrap().0.space,
            image,
        ),
        load_handled(state, tls, image, offset, segment).unwrap().0.allocator.regions
            == state.allocator.regions,
        segment.is_load() ==> load_handled(state, tls, image, offset, segment).unwrap().0
            == load_segment_handled(state, image, offset, segment).unwrap(),
{
    let after = load_handled(state, tls, image, offset, segment).unwrap().0;
    if crate::elf::segment_type_of(segment.type_) == Ok::<SegmentType, LoadError>(
        SegmentType::Load,
    ) {
        lemma_load_segment_handled(state, image, offset, segment);
    } else {
        assert(after == state);
        lemma_extends_keeps(state.space, after.space, image);
    }
}

/// After the segments were loaded, the state is valid, and every byte that
/// could be read before reads the same or as zero.
pub proof fn lemma_loads_handled<D: LegacyMemoryRegion>(
    state: LoadState<D>,
    image: Image,
    offset: int,
    segments: Seq<ProgramHeader>,
)
    requires
        state_ok(state),
        loads_handled(state, image, offset, segments) is Ok,
    ensures
        state_ok(loads_handled(state, image, offset, segments).unwrap().0),
        kept_or_zeroed(
            state.space,
            loads_handled(state, image, offset, segments).unwrap().0.space,
            image,
        ),
        loads_handled(state, image, offset, segments).unwrap().0.allocator.regions
            == state.allocator.regions,
    decreases segments.len(),
{
    if segments.len() > 0 {
        lemma_loads_unfold(state, image, offset, segments);
        let (s, tls) = loads_handled(state, image, offset, segments.drop_last()).unwrap();
        lemma_loads_handled(state, image, offset, segments.drop_last());
        let after = loads_handled(state, image, offset, segments).unwrap().0;
        lemma_load_handled(s, tls, image, offset, segments.last());
        lemma_kept_or_zeroed_trans(state.space, s.space, after.space, image);
    } else {
        reveal(loads_handled);
        lemma_extends_keeps(state.space, state.space, image);
    }
}

/// After the segments were loaded, every byte that a segment has in memory
/// beyond what the file holds of it reads as zero.
pub proof fn lemma_loads_bss_zero<D: LegacyMemoryRegion>(
    state: LoadState<D>,
    image: Image,
    offset: int,
    segments: Seq<ProgramHeader>,
    i: int,
)
    requires
        state_ok(state),
        loads_handled(state, image, offset, segments) is Ok,
        0 <= i < segments.len(),
        has_bss(segments[i]),
    ensures
        bss_is_zero(
            loads_handled(state, image, offset, segments).unwrap().0.space,
            image,
            offset,
            segments[i],
        ),
    decreases segments.len(),
{
    lemma_loads_unfold(state, image, offset, segments);
    let front = segments.drop_last();
    let (s, tls) = loads_handled(state, image, offset, front).unwrap();
    let after = loads_handled(state, image, offset, segments).unwrap().0;
    lemma_loads_handled(state, image, offset, front);
    lemma_load_handled(s, tls, image, offset, segments.last());
    if i < front.len() {
        assert(front[i] == segments[i]);
        lemma_loads_bss_zero(state, image, offset, front, i);
        let (zero_start, zero_end) = bss_range(offset, segments[i]).unwrap();
        lemma_zero_stays(s.space, after.space, image, zero_start, zero_end);
    } else {
        lemma_load_segment_zero(s, image, offset, segments[i]);
    }
}

/// What reads as zero still does where every byte is kept or set to zero.
pub proof fn lemma_zero_stays(
    before: Map<u64, Mapping>,
    after: Map<u64, Mapping>,
    image: Image,
    zero_start: u64,
    zero_end: u64,
)
    requires
        reads_zero(before, image, zero_start, zero_end),
        kept_or_zeroed(before, after, image),
    ensures
        reads_zero(after, image, zero_start, zero_end),
{
    assert forall|a: u64|
        is_canonical(a as int) && zero_start <= a < zero_end implies #[trigger] byte_read(
        after,
        image,
        a,
    ) == Some(0u8) by {
        assert(byte_read(before, image, a) == Some(0u8));
    }
}

} // verus!
