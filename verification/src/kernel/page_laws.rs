use vstd::prelude::*;
use crate::addr::{page_after, PAGE_SIZE};
use crate::elf::{ElfHeader, ProgramHeader, PT_GNU_RELRO};
use crate::error::LoadError;
use crate::frame_allocator::LegacyMemoryRegion;
use crate::kernel::bss_laws::lemma_loads_unfold;
use crate::kernel::laws::{
    lemma_copied_removed, lemma_relros_handled, lemma_same_but_flags_trans, same_but_flags,
};
use crate::kernel::memory::{
    byte_written, bytes_written, copy_source, made_mutable, page_of, Image, LoadState,
};
use crate::kernel::relocations::{
    lemma_relocations_applied_step, relocation_applied, relocations_applied,
};
use crate::kernel::segments::{
    bss_handled, copied_removed, file_frames, file_pages_mapped, fresh_pages_mapped, in_pages,
    load_segment_handled, segment_flags, segment_start, tail_zeroed, touched_pages,
};
use crate::kernel::{
    dynamics_handled, lemma_dynamics_handled_step, load_handled, loads_handled, relros_handled,
    segments_loaded, VirtualAddressOffset,
};
use crate::paging::{Mapping, PageFlags};

verus! {

/// Whether the flags allow the same: both or neither are present, can be
/// written, can be executed.
pub open spec fn same_permissions(a: PageFlags, b: PageFlags) -> bool {
    a.present == b.present && a.writable == b.writable && a.no_execute == b.no_execute
}

/// Whether every page of `before` is mapped in `after` with the same
/// permissions, and shows the frame that it showed or a copy of it.
pub open spec fn keeps_pages(before: Map<u64, Mapping>, after: Map<u64, Mapping>) -> bool {
    forall|p: u64| #[trigger]
        before.contains_key(p) ==> after.contains_key(p) && same_permissions(
            before[p].flags,
            after[p].flags,
        ) && copy_source(after[p]) == copy_source(before[p])
}

/// The page that holds the frame `k` of what the file has of a segment, when
/// the image is moved by `offset`.
pub open spec fn file_page(offset: int, segment: ProgramHeader, k: int) -> u64 {
    page_after(page_of(segment_start(offset, segment).unwrap()), k).unwrap()
}

/// Whether `page` is a page that the segment touches when the image is moved
/// by `offset`.
pub open spec fn touched(offset: int, segment: ProgramHeader, page: u64) -> bool {
    page % PAGE_SIZE == 0 && match touched_pages(
        VirtualAddressOffset::moved(offset, segment.virtual_addr as int),
        segment.mem_size,
    ) {
        Ok((first, count)) => in_pages(page, first, count),
        Err(_) => false,
    }
}

/// The frame `k` of what the file has of a segment.
pub open spec fn file_frame(image: Image, segment: ProgramHeader, k: int) -> int {
    file_frames(image, segment).unwrap().0 + k * PAGE_SIZE
}

/// Mapping pages to frames of the image keeps the pages that were mapped.
proof fn lemma_file_pages_kept(
    base: Map<u64, Mapping>,
    space: Map<u64, Mapping>,
    start_page: u64,
    start_frame: u64,
    count: nat,
    flags: PageFlags,
)
    requires
        keeps_pages(base, space),
        file_pages_mapped(space, start_page, start_frame, count, flags) is Ok,
    ensures
        keeps_pages(base, file_pages_mapped(space, start_page, start_frame, count, flags).unwrap()),
    decreases count,
{
    if count > 0 {
        lemma_file_pages_kept(base, space, start_page, start_frame, (count - 1) as nat, flags);
        let before = file_pages_mapped(space, start_page, start_frame, (count - 1) as nat, flags).unwrap();
        let after = file_pages_mapped(space, start_page, start_frame, count, flags).unwrap();
        assert forall|p: u64| #[trigger] base.contains_key(p) implies after.contains_key(p)
        && same_permissions(base[p].flags, after[p].flags) && copy_source(after[p]) == copy_source(
        base[p],
    ) by {
        assert(before.contains_key(p));
    }
    }
}

/// Mapping pages to new frames keeps the pages that were mapped.
proof fn lemma_fresh_pages_kept<D: LegacyMemoryRegion>(
    base: Map<u64, Mapping>,
    state: LoadState<D>,
    first: u64,
    count: nat,
    flags: PageFlags,
    data: Option<Seq<Option<u8>>>,
    taken: LoadError,
)
    requires
        keeps_pages(base, state.space),
        fresh_pages_mapped(state, first, count, flags, data, taken) is Ok,
    ensures
        keeps_pages(base, fresh_pages_mapped(state, first, count, flags, data, taken).unwrap().space),
    decreases count,
{
    if count > 0 {
        lemma_fresh_pages_kept(base, state, first, (count - 1) as nat, flags, data, taken);
        let before = fresh_pages_mapped(state, first, (count - 1) as nat, flags, data, taken).unwrap();
        let after = fresh_pages_mapped(state, first, count, flags, data, taken).unwrap();
        assert forall|p: u64| #[trigger] base.contains_key(p) implies after.space.contains_key(p)
        && same_permissions(base[p].flags, after.space[p].flags) && copy_source(after.space[p]) == copy_source(
        base[p],
    ) by {
        assert(before.space.contains_key(p));
    }
    }
}

/// Making a page safe to write keeps the pages that were mapped.
proof fn lemma_made_mutable_kept<D: LegacyMemoryRegion>(
    base: Map<u64, Mapping>,
    state: LoadState<D>,
    image: Image,
    page: u64,
)
    requires
        keeps_pages(base, state.space),
        made_mutable(state, image, page) is Ok,
    ensures
        keeps_pages(base, made_mutable(state, image, page).unwrap().0.space),
        made_mutable(state, image, page).unwrap().0.space.contains_key(page),
{
    let after = made_mutable(state, image, page).unwrap().0;
    assert(state.space.contains_key(page));
    assert forall|p: u64| #[trigger] base.contains_key(p) implies after.space.contains_key(p)
        && same_permissions(base[p].flags, after.space[p].flags) && copy_source(after.space[p]) == copy_source(
        base[p],
    ) by {
        assert(state.space.contains_key(p));
    }
}

/// Writing a byte keeps the pages that were mapped.
proof fn lemma_byte_written_kept<D: LegacyMemoryRegion>(
    base: Map<u64, Mapping>,
    state: LoadState<D>,
    image: Image,
    addr: u64,
    value: u8,
)
    requires
        keeps_pages(base, state.space),
        byte_written(state, image, addr, value) is Ok,
    ensures
        keeps_pages(base, byte_written(state, image, addr, value).unwrap().space),
{
    let page = crate::kernel::memory::page_of(addr);
    lemma_made_mutable_kept(base, state, image, page);
    let s = made_mutable(state, image, page).unwrap().0;
    let after = byte_written(state, image, addr, value).unwrap();
    assert forall|p: u64| #[trigger] base.contains_key(p) implies after.space.contains_key(p)
        && same_permissions(base[p].flags, after.space[p].flags) && copy_source(after.space[p]) == copy_source(
        base[p],
    ) by {
        assert(s.space.contains_key(p));
    }
}

/// Writing bytes keeps the pages that were mapped.
proof fn lemma_bytes_written_kept<D: LegacyMemoryRegion>(
    base: Map<u64, Mapping>,
    state: LoadState<D>,
    image: Image,
    addr: u64,
    bytes: Seq<u8>,
)
    requires
        keeps_pages(base, state.space),
        bytes_written(state, image, addr, bytes) is Ok,
    ensures
        keeps_pages(base, bytes_written(state, image, addr, bytes).unwrap().space),
    decreases bytes.len(),
{
    reveal(bytes_written);
    if bytes.len() > 0 {
        lemma_bytes_written_kept(base, state, image, addr, bytes.drop_last());
        let s = bytes_written(state, image, addr, bytes.drop_last()).unwrap();
        let a = crate::kernel::memory::byte_address(addr, bytes.len() - 1).unwrap();
        lemma_byte_written_kept(base, s, image, a, bytes.last());
    }
}

/// Applying relocations keeps the pages that were mapped.
proof fn lemma_relocations_kept<D: LegacyMemoryRegion>(
    base: Map<u64, Mapping>,
    state: LoadState<D>,
    image: Image,
    offset: int,
    segments: Seq<ProgramHeader>,
    table: u64,
    count: nat,
)
    requires
        keeps_pages(base, state.space),
        relocations_applied(state, image, offset, segments, table, count) is Ok,
    ensures
        keeps_pages(base, relocations_applied(state, image, offset, segments, table, count).unwrap().space),
    decreases count,
{
    lemma_relocations_applied_step(state, image, offset, segments, table, 0);
    if count > 0 {
        let n = (count - 1) as nat;
        lemma_relocations_applied_step(state, image, offset, segments, table, n);
        lemma_relocations_kept(base, state, image, offset, segments, table, n);
        let s = relocations_applied(state, image, offset, segments, table, n).unwrap();
        let rela = crate::kernel::relocations::relocation_read(
            s.space,
            image,
            offset,
            table,
            n as int,
        ).unwrap();
        reveal(relocation_applied);
        let target = crate::kernel::relocations::moved_address(offset, rela.offset as int).unwrap();
        let value = VirtualAddressOffset::moved(offset, rela.addend as int).unwrap();
        lemma_bytes_written_kept(base, s, image, target, crate::elf::le_bytes(value));
    }
}

/// Handling the dynamic sections keeps the pages that were mapped.
proof fn lemma_dynamics_kept<D: LegacyMemoryRegion>(
    base: Map<u64, Mapping>,
    state: LoadState<D>,
    image: Image,
    offset: int,
    header: ElfHeader,
    segments: Seq<ProgramHeader>,
    count: nat,
)
    requires
        keeps_pages(base, state.space),
        count <= segments.len(),
        dynamics_handled(state, image, offset, header, segments, count) is Ok,
    ensures
        keeps_pages(base, dynamics_handled(state, image, offset, header, segments, count).unwrap().space),
    decreases count,
{
    lemma_dynamics_handled_step(state, image, offset, header, segments, 0);
    if count > 0 {
        let n = (count - 1) as nat;
        lemma_dynamics_handled_step(state, image, offset, header, segments, n);
        lemma_dynamics_kept(base, state, image, offset, header, segments, n);
        let s = dynamics_handled(state, image, offset, header, segments, n).unwrap();
        if segments[n as int].type_ == crate::elf::PT_DYNAMIC {
            let entries = crate::elf::dynamic_entries_of(image.bytes, header, segments[n as int]).unwrap();
            match crate::kernel::relocations::rela_table_of(entries).unwrap() {
                None => {},
                Some(table) => {
                    lemma_relocations_kept(base, s,
                        image,
                        offset,
                        segments,
                        table.offset,
                        (table.total_size / crate::elf::RELA_SIZE) as nat,
                    );
                },
            }
        }
    }
}

/// Setting up what a segment has beyond the file keeps the pages that were mapped.
proof fn lemma_bss_kept<D: LegacyMemoryRegion>(
    base: Map<u64, Mapping>,
    state: LoadState<D>,
    image: Image,
    virt_start: u64,
    segment: ProgramHeader,
)
    requires
        keeps_pages(base, state.space),
        bss_handled(state, image, virt_start, segment) is Ok,
    ensures
        keeps_pages(base, bss_handled(state, image, virt_start, segment).unwrap().space),
{
    let zero_start = crate::kernel::memory::byte_address(virt_start, segment.file_size as int).unwrap();
    let zero_end = crate::kernel::memory::byte_address(virt_start, segment.mem_size as int).unwrap();
    let before = zero_start % PAGE_SIZE;
    let partial: LoadState<D> = if before != 0 {
        let last = crate::kernel::segments::address_before(zero_start).unwrap();
        let page = crate::kernel::memory::page_of(last);
        lemma_made_mutable_kept(base, state, image, page);
        let s = made_mutable(state, image, page).unwrap().0;
        let space = tail_zeroed(s.space, image, page, before as int).unwrap();
        assert forall|p: u64| #[trigger] base.contains_key(p) implies space.contains_key(p)
        && same_permissions(base[p].flags, space[p].flags) && copy_source(space[p]) == copy_source(
        base[p],
    ) by {
        assert(s.space.contains_key(p));
    }
        LoadState { space, ..s }
    } else {
        state
    };
    let first = crate::addr::canonical_form(
        crate::addr::aligned_up(zero_start as int, PAGE_SIZE as int) as u64,
    ).unwrap();
    let last = crate::kernel::segments::address_before(zero_end).unwrap();
    let count = crate::kernel::segments::page_count(
        crate::kernel::memory::page_of(first),
        crate::kernel::memory::page_of(last),
    ).unwrap();
    lemma_fresh_pages_kept(base, partial,
        crate::kernel::memory::page_of(first),
        count,
        crate::kernel::segments::segment_flags(segment),
        Some(crate::kernel::segments::zero_page()),
        LoadError::BssMapToFailed,
    );
}

/// Handling one segment more keeps the pages that were mapped.
proof fn lemma_load_kept<D: LegacyMemoryRegion>(
    base: Map<u64, Mapping>,
    state: LoadState<D>,
    tls: Option<crate::tls_template::TlsTemplate>,
    image: Image,
    offset: int,
    segment: ProgramHeader,
)
    requires
        keeps_pages(base, state.space),
        load_handled(state, tls, image, offset, segment) is Ok,
    ensures
        keeps_pages(base, load_handled(state, tls, image, offset, segment).unwrap().0.space),
{
    let after = load_handled(state, tls, image, offset, segment).unwrap().0;
    if crate::elf::segment_type_of(segment.type_) == Ok::<crate::elf::SegmentType, LoadError>(
        crate::elf::SegmentType::Load,
    ) {
        let (start_frame, count) = file_frames(image, segment).unwrap();
        let virt_start = segment_start(offset, segment).unwrap();
        lemma_file_pages_kept(
            base,
            state.space,
            page_of(virt_start),
            start_frame,
            count,
            segment_flags(segment),
        );
        let space = file_pages_mapped(
            state.space,
            page_of(virt_start),
            start_frame,
            count,
            segment_flags(segment),
        ).unwrap();
        if segment.mem_size > segment.file_size {
            lemma_bss_kept(base, LoadState { space, ..state }, image, virt_start, segment);
        }
        assert(after == load_segment_handled(state, image, offset, segment).unwrap());
    } else {
        assert(after == state);
    }
}

/// Mapping pages to frames of the image maps each of the pages to its frame,
/// with the flags that were asked for.
proof fn lemma_file_pages_are_mapped(
    space: Map<u64, Mapping>,
    start_page: u64,
    start_frame: u64,
    count: nat,
    flags: PageFlags,
    k: int,
)
    requires
        0 <= k < count,
        file_pages_mapped(space, start_page, start_frame, count, flags) is Ok,
    ensures
        page_after(start_page, k).is_some(),
        file_pages_mapped(space, start_page, start_frame, count, flags).unwrap().contains_key(
            page_after(start_page, k).unwrap(),
        ),
        file_pages_mapped(space, start_page, start_frame, count, flags).unwrap()[page_after(
            start_page,
            k,
        ).unwrap()] == (Mapping {
            frame: (start_frame + k * PAGE_SIZE) as u64,
            flags,
            data: None,
            copy_of: None,
        }),
    decreases count,
{
    let before = file_pages_mapped(space, start_page, start_frame, (count - 1) as nat, flags).unwrap();
    if k < count - 1 {
        lemma_file_pages_are_mapped(space, start_page, start_frame, (count - 1) as nat, flags, k);
        assert(before.contains_key(page_after(start_page, k).unwrap()));
    }
}

/// After a segment was loaded, each page that holds a frame of what the file
/// has of the segment is mapped with the permissions that the segment asks
/// for, and shows that frame or a copy of it.
proof fn lemma_load_segment_pages<D: LegacyMemoryRegion>(
    state: LoadState<D>,
    image: Image,
    offset: int,
    segment: ProgramHeader,
    k: int,
)
    requires
        load_segment_handled(state, image, offset, segment) is Ok,
        0 <= k < file_frames(image, segment).unwrap().1,
    ensures
        keeps_pages(state.space, load_segment_handled(state, image, offset, segment).unwrap().space),
        ({
            let after = load_segment_handled(state, image, offset, segment).unwrap().space;
            let p = file_page(offset, segment, k);
            &&& after.contains_key(p)
            &&& same_permissions(segment_flags(segment), after[p].flags)
            &&& copy_source(after[p]) == file_frame(image, segment, k)
        }),
{
    let (start_frame, count) = file_frames(image, segment).unwrap();
    let virt_start = segment_start(offset, segment).unwrap();
    let space = file_pages_mapped(
        state.space,
        page_of(virt_start),
        start_frame,
        count,
        segment_flags(segment),
    ).unwrap();
    lemma_file_pages_are_mapped(
        state.space,
        page_of(virt_start),
        start_frame,
        count,
        segment_flags(segment),
        k,
    );
    lemma_file_pages_kept(
        state.space,
        state.space,
        page_of(virt_start),
        start_frame,
        count,
        segment_flags(segment),
    );
    assert(0 <= k * PAGE_SIZE) by (nonlinear_arith)
        requires
            0 <= k,
    ;
    if segment.mem_size > segment.file_size {
        lemma_bss_kept(space, LoadState { space, ..state }, image, virt_start, segment);
        lemma_bss_kept(state.space, LoadState { space, ..state }, image, virt_start, segment);
    }
}

/// What was mapped when the first `count` segments had been loaded is kept
/// while the others are loaded.
proof fn lemma_later_loads_keep<D: LegacyMemoryRegion>(
    state: LoadState<D>,
    image: Image,
    offset: int,
    segments: Seq<ProgramHeader>,
    count: int,
)
    requires
        0 <= count <= segments.len(),
        loads_handled(state, image, offset, segments) is Ok,
    ensures
        loads_handled(state, image, offset, segments.subrange(0, count)) is Ok,
        keeps_pages(
            loads_handled(state, image, offset, segments.subrange(0, count)).unwrap().0.space,
            loads_handled(state, image, offset, segments).unwrap().0.space,
        ),
    decreases segments.len() - count,
{
    if count < segments.len() {
        lemma_later_loads_keep(state, image, offset, segments, count + 1);
        let longer = segments.subrange(0, count + 1);
        assert(longer.drop_last() =~= segments.subrange(0, count));
        assert(longer.last() == segments[count]);
        lemma_loads_unfold(state, image, offset, longer);
        let (s, tls) = loads_handled(state, image, offset, segments.subrange(0, count)).unwrap();
        let next = loads_handled(state, image, offset, longer).unwrap().0;
        lemma_load_kept(s.space, s, tls, image, offset, segments[count]);
        let last = loads_handled(state, image, offset, segments).unwrap().0;
        assert forall|p: u64| #[trigger] s.space.contains_key(p) implies last.space.contains_key(p)
            && same_permissions(s.space[p].flags, last.space[p].flags) && copy_source(
            last.space[p],
        ) == copy_source(s.space[p]) by {
            assert(next.space.contains_key(p));
        }
    } else {
        assert(segments.subrange(0, count) =~= segments);
    }
}

/// What is done to an image after its relocations were applied changes flags
/// only: every page keeps its frame and what it shows, stays present, and can
/// be executed as before; the permission to write and the loader's mark are
/// only taken away.
pub proof fn lemma_protection_changes_flags_only<D: LegacyMemoryRegion>(
    state: LoadState<D>,
    image: Image,
    offset: int,
    header: ElfHeader,
    segments: Seq<ProgramHeader>,
)
    requires
        segments_loaded(state, image, offset, header, segments) is Ok,
    ensures
        same_but_flags(
            dynamics_handled(
                loads_handled(state, image, offset, segments).unwrap().0,
                image,
                offset,
                header,
                segments,
                segments.len(),
            ).unwrap().space,
            segments_loaded(state, image, offset, header, segments).unwrap().0.space,
        ),
{
    let (s1, tls) = loads_handled(state, image, offset, segments).unwrap();
    let s2 = dynamics_handled(s1, image, offset, header, segments, segments.len()).unwrap();
    let space3 = relros_handled(s2.space, offset, segments).unwrap();
    let space4 = copied_removed(space3, offset, segments).unwrap();
    if segments.len() > 0 {
        lemma_relros_handled(s2.space, offset, segments, 0);
    } else {
        reveal(relros_handled);
    }
    lemma_copied_removed(space3, offset, segments);
    lemma_same_but_flags_trans(s2.space, space3, space4);
}

/// After an image was loaded, each page that holds a frame of what the file
/// has of a loaded segment is mapped and present, can be executed as the
/// segment says, can be written only where the segment says so, and shows
/// that frame of the file or a copy of it.
pub proof fn lemma_file_pages_of_loaded_segments<D: LegacyMemoryRegion>(
    state: LoadState<D>,
    image: Image,
    offset: int,
    header: ElfHeader,
    segments: Seq<ProgramHeader>,
    i: int,
    k: int,
)
    requires
        segments_loaded(state, image, offset, header, segments) is Ok,
        0 <= i < segments.len(),
        segments[i].is_load(),
        0 <= k < file_frames(image, segments[i]).unwrap().1,
    ensures
        ({
            let space = segments_loaded(state, image, offset, header, segments).unwrap().0.space;
            let p = file_page(offset, segments[i], k);
            &&& space.contains_key(p)
            &&& space[p].flags.present
            &&& space[p].flags.no_execute == !segments[i].executable()
            &&& space[p].flags.writable ==> segments[i].writable()
            &&& copy_source(space[p]) == file_frame(image, segments[i], k)
        }),
{
    let (s1, tls) = loads_handled(state, image, offset, segments).unwrap();
    let s2 = dynamics_handled(s1, image, offset, header, segments, segments.len()).unwrap();
    let last = segments_loaded(state, image, offset, header, segments).unwrap().0.space;
    let p = file_page(offset, segments[i], k);
    lemma_later_loads_keep(state, image, offset, segments, i);
    lemma_later_loads_keep(state, image, offset, segments, i + 1);
    let longer = segments.subrange(0, i + 1);
    assert(longer.drop_last() =~= segments.subrange(0, i));
    assert(longer.last() == segments[i]);
    lemma_loads_unfold(state, image, offset, longer);
    let (before, seen) = loads_handled(state, image, offset, segments.subrange(0, i)).unwrap();
    let after = loads_handled(state, image, offset, longer).unwrap().0;
    assert(after == load_segment_handled(before, image, offset, segments[i]).unwrap());
    lemma_load_segment_pages(before, image, offset, segments[i], k);
    assert(after.space.contains_key(p));
    assert(s1.space.contains_key(p));
    lemma_dynamics_kept(s1.space, s1, image, offset, header, segments, segments.len());
    assert(s2.space.contains_key(p));
    lemma_protection_changes_flags_only(state, image, offset, header, segments);
    assert(last.contains_key(p));
}

/// Removing the marks that the loader set keeps every page, with its
/// permissions and its frame.
proof fn lemma_copied_removed_keeps(
    space: Map<u64, Mapping>,
    offset: int,
    segments: Seq<ProgramHeader>,
)
    requires
        copied_removed(space, offset, segments) is Ok,
    ensures
        keeps_pages(space, copied_removed(space, offset, segments).unwrap()),
    decreases segments.len(),
{
    if segments.len() > 0 {
        let before = copied_removed(space, offset, segments.drop_last()).unwrap();
        let after = copied_removed(space, offset, segments).unwrap();
        lemma_copied_removed_keeps(space, offset, segments.drop_last());
        assert forall|p: u64| #[trigger] space.contains_key(p) implies after.contains_key(p)
            && same_permissions(space[p].flags, after[p].flags) && copy_source(after[p])
            == copy_source(space[p]) by {
            assert(before.contains_key(p));
        }
    }
}

/// Where no segment names anything as read-only after relocation, no page
/// loses the permission to write.
proof fn lemma_no_relro(space: Map<u64, Mapping>, offset: int, segments: Seq<ProgramHeader>)
    requires
        forall|j: int| 0 <= j < segments.len() ==> (#[trigger] segments[j]).type_ != PT_GNU_RELRO,
    ensures
        relros_handled(space, offset, segments) == Ok::<Map<u64, Mapping>, LoadError>(space),
    decreases segments.len(),
{
    reveal(relros_handled);
    if segments.len() > 0 {
        lemma_no_relro(space, offset, segments.drop_last());
        assert(segments.last() == segments[segments.len() - 1]);
    }
}

/// After an image was loaded in which no segment names anything as read-only
/// after relocation, each page that holds a frame of what the file has of a
/// loaded segment has exactly the permissions that the segment asks for; and
/// where the segment touches the page, its flags are those of the segment
/// and nothing else.
pub proof fn lemma_file_pages_have_the_flags_of_their_segment<D: LegacyMemoryRegion>(
    state: LoadState<D>,
    image: Image,
    offset: int,
    header: ElfHeader,
    segments: Seq<ProgramHeader>,
    i: int,
    k: int,
)
    requires
        segments_loaded(state, image, offset, header, segments) is Ok,
        forall|j: int| 0 <= j < segments.len() ==> (#[trigger] segments[j]).type_ != PT_GNU_RELRO,
        0 <= i < segments.len(),
        segments[i].is_load(),
        0 <= k < file_frames(image, segments[i]).unwrap().1,
    ensures
        ({
            let space = segments_loaded(state, image, offset, header, segments).unwrap().0.space;
            let p = file_page(offset, segments[i], k);
            &&& space.contains_key(p)
            &&& same_permissions(segment_flags(segments[i]), space[p].flags)
            &&& copy_source(space[p]) == file_frame(image, segments[i], k)
            &&& touched(offset, segments[i], p) ==> space[p].flags == segment_flags(segments[i])
        }),
{
    let (s1, tls) = loads_handled(state, image, offset, segments).unwrap();
    let s2 = dynamics_handled(s1, image, offset, header, segments, segments.len()).unwrap();
    let space3 = relros_handled(s2.space, offset, segments).unwrap();
    let last = segments_loaded(state, image, offset, header, segments).unwrap().0.space;
    let p = file_page(offset, segments[i], k);
    lemma_later_loads_keep(state, image, offset, segments, i);
    lemma_later_loads_keep(state, image, offset, segments, i + 1);
    let longer = segments.subrange(0, i + 1);
    assert(longer.drop_last() =~= segments.subrange(0, i));
    assert(longer.last() == segments[i]);
    lemma_loads_unfold(state, image, offset, longer);
    let (before, seen) = loads_handled(state, image, offset, segments.subrange(0, i)).unwrap();
    let after = loads_handled(state, image, offset, longer).unwrap().0;
    assert(after == load_segment_handled(before, image, offset, segments[i]).unwrap());
    lemma_load_segment_pages(before, image, offset, segments[i], k);
    assert(after.space.contains_key(p));
    assert(s1.space.contains_key(p));
    lemma_dynamics_kept(s1.space, s1, image, offset, header, segments, segments.len());
    assert(s2.space.contains_key(p));
    lemma_no_relro(s2.space, offset, segments);
    assert(space3 == s2.space);
    lemma_copied_removed_keeps(space3, offset, segments);
    assert(last.contains_key(p));
    crate::kernel::laws::lemma_loaded_pages_are_unmarked(state, image, offset, header, segments, i);
}

/// After an image was loaded, a page of a loaded segment that another
/// segment names as read-only after relocation is mapped and present, can be
/// executed as the loaded segment says, cannot be written, and shows the
/// frame of the file that the loaded segment gave it, or a copy of it.
pub proof fn lemma_relro_page_of_a_loaded_segment<D: LegacyMemoryRegion>(
    state: LoadState<D>,
    image: Image,
    offset: int,
    header: ElfHeader,
    segments: Seq<ProgramHeader>,
    i: int,
    k: int,
    j: int,
)
    requires
        segments_loaded(state, image, offset, header, segments) is Ok,
        0 <= i < segments.len(),
        segments[i].is_load(),
        0 <= k < file_frames(image, segments[i]).unwrap().1,
        0 <= j < segments.len(),
        segments[j].type_ == PT_GNU_RELRO,
        touched(offset, segments[j], file_page(offset, segments[i], k)),
    ensures
        ({
            let space = segments_loaded(state, image, offset, header, segments).unwrap().0.space;
            let p = file_page(offset, segments[i], k);
            &&& space.contains_key(p)
            &&& space[p].flags.present
            &&& space[p].flags.no_execute == !segments[i].executable()
            &&& !space[p].flags.writable
            &&& copy_source(space[p]) == file_frame(image, segments[i], k)
        }),
{
    lemma_file_pages_of_loaded_segments(state, image, offset, header, segments, i, k);
    crate::kernel::laws::lemma_relro_pages_are_read_only(state, image, offset, header, segments, j);
    let space = segments_loaded(state, image, offset, header, segments).unwrap().0.space;
    assert(crate::kernel::laws::frozen(space, offset, segments[j]));
}

} // verus!
