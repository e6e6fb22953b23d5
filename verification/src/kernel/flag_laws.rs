use vstd::prelude::*;
use crate::elf::{ElfHeader, ProgramHeader, PT_GNU_RELRO};
use crate::error::LoadError;
use crate::frame_allocator::LegacyMemoryRegion;
use crate::kernel::bss_laws::lemma_loads_unfold;
use crate::kernel::laws::{
    frozen, lemma_copied_removed, lemma_relro_pages_are_read_only, lemma_relros_handled,
};
use crate::kernel::memory::{byte_written, bytes_written, made_mutable, Image, LoadState};
use crate::kernel::relocations::{
    lemma_relocations_applied_step, relocation_applied, relocations_applied,
};
use crate::kernel::segments::{
    bss_handled, copied_removed, file_pages_mapped, fresh_pages_mapped, in_pages,
    load_segment_handled, tail_zeroed, touched_pages,
};
use crate::kernel::{
    dynamics_handled, lemma_dynamics_handled_step, load_handled, loads_handled, relros_handled,
    segments_loaded, VirtualAddressOffset,
};
use crate::addr::PAGE_SIZE;
use crate::paging::{Mapping, PageFlags};

verus! {

/// Whether the flags give a page no more than a loaded segment asks for: the
/// page is present, can be executed as the segment says, and can be written
/// only where the segment says so.
pub open spec fn permitted(flags: PageFlags, loads: Seq<ProgramHeader>) -> bool {
    exists|i: int|
        0 <= i < loads.len() && (#[trigger] loads[i]).is_load() && flags.present
            && flags.no_execute == !loads[i].executable() && (flags.writable
            ==> loads[i].writable())
}

/// Whether the flags `b` allow no more than the flags `a`: the same but for
/// the permission to write, which `b` has only where `a` has it, and the
/// mark of a frame of the page's own.
pub open spec fn narrower(a: PageFlags, b: PageFlags) -> bool {
    b.present == a.present && b.no_execute == a.no_execute && (b.writable ==> a.writable)
}

/// Whether every page that is mapped either was mapped in `base` and has
/// flags that allow no more than it had there, or has flags that give it no
/// more than a loaded segment asks for.
pub open spec fn all_permitted(
    space: Map<u64, Mapping>,
    base: Map<u64, Mapping>,
    loads: Seq<ProgramHeader>,
) -> bool {
    forall|p: u64| #[trigger]
        space.contains_key(p) ==> (base.contains_key(p) && narrower(base[p].flags, space[p].flags))
            || permitted(space[p].flags, loads)
}

/// Flags that allow no more than permitted flags are permitted.
proof fn lemma_permitted_narrower(a: PageFlags, b: PageFlags, loads: Seq<ProgramHeader>)
    requires
        permitted(a, loads),
        narrower(a, b),
    ensures
        permitted(b, loads),
{
    let i = choose|i: int|
        0 <= i < loads.len() && (#[trigger] loads[i]).is_load() && a.present && a.no_execute
            == !loads[i].executable() && (a.writable ==> loads[i].writable());
    assert(loads[i].is_load());
}

/// Mapping pages to frames of the image keeps every page within what a loaded segment asks for.
proof fn lemma_file_pages_permitted(
    base: Map<u64, Mapping>,
    loads: Seq<ProgramHeader>,
    space: Map<u64, Mapping>,
    start_page: u64,
    start_frame: u64,
    count: nat,
    flags: PageFlags,
)
    requires
        all_permitted(space, base, loads),
        permitted(flags, loads),
        file_pages_mapped(space, start_page, start_frame, count, flags) is Ok,
    ensures
        all_permitted(file_pages_mapped(space, start_page, start_frame, count, flags).unwrap(), base, loads),
    decreases count,
{
    if count > 0 {
        lemma_file_pages_permitted(base, loads, space, start_page, start_frame, (count - 1) as nat, flags);
        let before = file_pages_mapped(space, start_page, start_frame, (count - 1) as nat, flags).unwrap();
        let after = file_pages_mapped(space, start_page, start_frame, count, flags).unwrap();
        assert forall|p: u64| #[trigger] after.contains_key(p) implies (base.contains_key(p) && narrower(base[p].flags, after[p].flags)) || permitted(after[p].flags, loads) by {
            if before.contains_key(p) {
            }
        }
    }
}

/// Mapping pages to new frames keeps every page within what a loaded segment asks for.
proof fn lemma_fresh_pages_permitted<D: LegacyMemoryRegion>(
    base: Map<u64, Mapping>,
    loads: Seq<ProgramHeader>,
    state: LoadState<D>,
    first: u64,
    count: nat,
    flags: PageFlags,
    data: Option<Seq<Option<u8>>>,
    taken: LoadError,
)
    requires
        all_permitted(state.space, base, loads),
        permitted(flags, loads),
        fresh_pages_mapped(state, first, count, flags, data, taken) is Ok,
    ensures
        all_permitted(fresh_pages_mapped(state, first, count, flags, data, taken).unwrap().space, base, loads),
    decreases count,
{
    if count > 0 {
        lemma_fresh_pages_permitted(base, loads, state, first, (count - 1) as nat, flags, data, taken);
        let before = fresh_pages_mapped(state, first, (count - 1) as nat, flags, data, taken).unwrap();
        let after = fresh_pages_mapped(state, first, count, flags, data, taken).unwrap();
        assert forall|p: u64| #[trigger] after.space.contains_key(p) implies (base.contains_key(p) && narrower(base[p].flags, after.space[p].flags)) || permitted(after.space[p].flags, loads) by {
            if before.space.contains_key(p) {
            }
        }
    }
}

/// Making a page safe to write keeps every page within what a loaded segment asks for.
proof fn lemma_made_mutable_permitted<D: LegacyMemoryRegion>(
    base: Map<u64, Mapping>,
    loads: Seq<ProgramHeader>,
    state: LoadState<D>,
    image: Image,
    page: u64,
)
    requires
        all_permitted(state.space, base, loads),
        made_mutable(state, image, page) is Ok,
    ensures
        all_permitted(made_mutable(state, image, page).unwrap().0.space, base, loads),
        made_mutable(state, image, page).unwrap().0.space.contains_key(page),
{
    let after = made_mutable(state, image, page).unwrap().0;
    assert(state.space.contains_key(page));
    assert forall|p: u64| #[trigger] after.space.contains_key(p) implies (base.contains_key(p) && narrower(base[p].flags, after.space[p].flags)) || permitted(after.space[p].flags, loads) by {
        assert(state.space.contains_key(p));
        if permitted(state.space[p].flags, loads) {
            lemma_permitted_narrower(state.space[p].flags, after.space[p].flags, loads);
        }
    }
}

/// Writing a byte keeps every page within what a loaded segment asks for.
proof fn lemma_byte_written_permitted<D: LegacyMemoryRegion>(
    base: Map<u64, Mapping>,
    loads: Seq<ProgramHeader>,
    state: LoadState<D>,
    image: Image,
    addr: u64,
    value: u8,
)
    requires
        all_permitted(state.space, base, loads),
        byte_written(state, image, addr, value) is Ok,
    ensures
        all_permitted(byte_written(state, image, addr, value).unwrap().space, base, loads),
{
    let page = crate::kernel::memory::page_of(addr);
    lemma_made_mutable_permitted(base, loads, state, image, page);
    let s = made_mutable(state, image, page).unwrap().0;
    let after = byte_written(state, image, addr, value).unwrap();
    assert forall|p: u64| #[trigger] after.space.contains_key(p) implies (base.contains_key(p) && narrower(base[p].flags, after.space[p].flags)) || permitted(after.space[p].flags, loads) by {
        if s.space.contains_key(p) {
        }
    }
}

/// Writing bytes keeps every page within what a loaded segment asks for.
proof fn lemma_bytes_written_permitted<D: LegacyMemoryRegion>(
    base: Map<u64, Mapping>,
    loads: Seq<ProgramHeader>,
    state: LoadState<D>,
    image: Image,
    addr: u64,
    bytes: Seq<u8>,
)
    requires
        all_permitted(state.space, base, loads),
        bytes_written(state, image, addr, bytes) is Ok,
    ensures
        all_permitted(bytes_written(state, image, addr, bytes).unwrap().space, base, loads),
    decreases bytes.len(),
{
    reveal(bytes_written);
    if bytes.len() > 0 {
        lemma_bytes_written_permitted(base, loads, state, image, addr, bytes.drop_last());
        let s = bytes_written(state, image, addr, bytes.drop_last()).unwrap();
        let a = crate::kernel::memory::byte_address(addr, bytes.len() - 1).unwrap();
        lemma_byte_written_permitted(base, loads, s, image, a, bytes.last());
    }
}

/// Applying relocations keeps every page within what a loaded segment asks for.
proof fn lemma_relocations_permitted<D: LegacyMemoryRegion>(
    base: Map<u64, Mapping>,
    loads: Seq<ProgramHeader>,
    state: LoadState<D>,
    image: Image,
    offset: int,
    segments: Seq<ProgramHeader>,
    table: u64,
    count: nat,
)
    requires
        all_permitted(state.space, base, loads),
        relocations_applied(state, image, offset, segments, table, count) is Ok,
    ensures
        all_permitted(relocations_applied(state, image, offset, segments, table, count).unwrap().space, base, loads),
    decreases count,
{
    lemma_relocations_applied_step(state, image, offset, segments, table, 0);
    if count > 0 {
        let n = (count - 1) as nat;
        lemma_relocations_applied_step(state, image, offset, segments, table, n);
        lemma_relocations_permitted(base, loads, state, image, offset, segments, table, n);
        let s = relocations_applied(state, image, offset, segments, table, n).unwrap();
        let rela = crate::kernel::relocations::relocation_read(
            s.space,
            image,
            offset,
            table,
            n as int,
        ).unwrap();
        reveal(relocation_applied);
        let target = crate::kernel::relocations::moved_address(offset, rela.offset as int).unwrap();
        let value = VirtualAddressOffset::moved(offset, rela.addend as int).unwrap();
        lemma_bytes_written_permitted(base, loads, s, image, target, crate::elf::le_bytes(value));
    }
}

/// Handling the dynamic sections keeps every page within what a loaded segment asks for.
proof fn lemma_dynamics_permitted<D: LegacyMemoryRegion>(
    base: Map<u64, Mapping>,
    loads: Seq<ProgramHeader>,
    state: LoadState<D>,
    image: Image,
    offset: int,
    header: ElfHeader,
    segments: Seq<ProgramHeader>,
    count: nat,
)
    requires
        all_permitted(state.space, base, loads),
        count <= segments.len(),
        dynamics_handled(state, image, offset, header, segments, count) is Ok,
    ensures
        all_permitted(dynamics_handled(state, image, offset, header, segments, count).unwrap().space, base, loads),
    decreases count,
{
    lemma_dynamics_handled_step(state, image, offset, header, segments, 0);
    if count > 0 {
        let n = (count - 1) as nat;
        lemma_dynamics_handled_step(state, image, offset, header, segments, n);
        lemma_dynamics_permitted(base, loads, state, image, offset, header, segments, n);
        let s = dynamics_handled(state, image, offset, header, segments, n).unwrap();
        if segments[n as int].type_ == crate::elf::PT_DYNAMIC {
            let entries = crate::elf::dynamic_entries_of(image.bytes, header, segments[n as int]).unwrap();
            match crate::kernel::relocations::rela_table_of(entries).unwrap() {
                None => {},
                Some(table) => {
                    lemma_relocations_permitted(base, loads, s,
                        image,
                        offset,
                        segments,
                        table.offset,
                        (table.total_size / crate::elf::RELA_SIZE) as nat,
                    );
                },
            }
        }
    }
}

/// Setting up what a segment has beyond the file keeps every page within what a loaded segment asks for.
proof fn lemma_bss_permitted<D: LegacyMemoryRegion>(
    base: Map<u64, Mapping>,
    loads: Seq<ProgramHeader>,
    state: LoadState<D>,
    image: Image,
    virt_start: u64,
    segment: ProgramHeader,
)
    requires
        all_permitted(state.space, base, loads),
        permitted(crate::kernel::segments::segment_flags(segment), loads),
        bss_handled(state, image, virt_start, segment) is Ok,
    ensures
        all_permitted(bss_handled(state, image, virt_start, segment).unwrap().space, base, loads),
{
    let zero_start = crate::kernel::memory::byte_address(virt_start, segment.file_size as int).unwrap();
    let zero_end = crate::kernel::memory::byte_address(virt_start, segment.mem_size as int).unwrap();
    let before = zero_start % PAGE_SIZE;
    let partial: LoadState<D> = if before != 0 {
        let last = crate::kernel::segments::address_before(zero_start).unwrap();
        let page = crate::kernel::memory::page_of(last);
        lemma_made_mutable_permitted(base, loads, state, image, page);
        let s = made_mutable(state, image, page).unwrap().0;
        let space = tail_zeroed(s.space, image, page, before as int).unwrap();
        assert forall|p: u64| #[trigger] space.contains_key(p) implies (base.contains_key(p) && narrower(base[p].flags, space[p].flags)) || permitted(space[p].flags, loads) by {
            if s.space.contains_key(p) {
            }
        }
        LoadState { space, ..s }
    } else {
        state
    };
    let first = crate::addr::canonical_form(
        crate::addr::aligned_up(zero_start as int, PAGE_SIZE as int) as u64,
    ).unwrap();
    let last = crate::kernel::segments::address_before(zero_end).unwrap();
    let count = crate::kernel::segments::page_count(
        crate::kernel::memory::page_of(first),
        crate::kernel::memory::page_of(last),
    ).unwrap();
    lemma_fresh_pages_permitted(base, loads, partial,
        crate::kernel::memory::page_of(first),
        count,
        crate::kernel::segments::segment_flags(segment),
        Some(crate::kernel::segments::zero_page()),
        LoadError::BssMapToFailed,
    );
}

/// Loading the segments keeps every page within what a loaded segment asks for.
proof fn lemma_loads_permitted<D: LegacyMemoryRegion>(
    base: Map<u64, Mapping>,
    loads: Seq<ProgramHeader>,
    state: LoadState<D>,
    image: Image,
    offset: int,
    segments: Seq<ProgramHeader>,
)
    requires
        all_permitted(state.space, base, loads),
        segments.len() <= loads.len(),
        forall|k: int| 0 <= k < segments.len() ==> segments[k] == loads[k],
        loads_handled(state, image, offset, segments) is Ok,
    ensures
        all_permitted(loads_handled(state, image, offset, segments).unwrap().0.space, base, loads),
    decreases segments.len(),
{
    if segments.len() > 0 {
        lemma_loads_unfold(state, image, offset, segments);
        lemma_loads_permitted(base, loads, state, image, offset, segments.drop_last());
        let (s, tls) = loads_handled(state, image, offset, segments.drop_last()).unwrap();
        let segment = segments.last();
        let after = load_handled(s, tls, image, offset, segment).unwrap().0;
        if crate::elf::segment_type_of(segment.type_) == Ok::<crate::elf::SegmentType, LoadError>(
            crate::elf::SegmentType::Load,
        ) {
            assert(segment == loads[segments.len() - 1] && segment.is_load());
            assert(permitted(crate::kernel::segments::segment_flags(segment), loads));
            let (start_frame, count) = crate::kernel::segments::file_frames(image, segment).unwrap();
            let virt_start = crate::kernel::segments::segment_start(offset, segment).unwrap();
            lemma_file_pages_permitted(base, loads, s.space,
                crate::kernel::memory::page_of(virt_start),
                start_frame,
                count,
                crate::kernel::segments::segment_flags(segment),
            );
            let space = file_pages_mapped(
                s.space,
                crate::kernel::memory::page_of(virt_start),
                start_frame,
                count,
                crate::kernel::segments::segment_flags(segment),
            ).unwrap();
            if segment.mem_size > segment.file_size {
                lemma_bss_permitted(base, loads, LoadState { space, ..s }, image, virt_start, segment);
            }
            assert(after == load_segment_handled(s, image, offset, segment).unwrap());
        } else {
            assert(after == s);
        }
    } else {
        reveal(loads_handled);
    }
}

/// After an image was loaded, every page that the loader mapped is present,
/// can be executed as a loaded segment says, and can be written only where
/// that segment says so: the loader gives no page a permission that no
/// loaded segment asks for. A page that was mapped before is present and can
/// be executed as before, and can be written only where it could.
pub proof fn lemma_loaded_pages_are_permitted<D: LegacyMemoryRegion>(
    state: LoadState<D>,
    image: Image,
    offset: int,
    header: ElfHeader,
    segments: Seq<ProgramHeader>,
)
    requires
        segments_loaded(state, image, offset, header, segments) is Ok,
    ensures
        all_permitted(
            segments_loaded(state, image, offset, header, segments).unwrap().0.space,
            state.space,
            segments,
        ),
{
    let base = state.space;
    let (s1, tls) = loads_handled(state, image, offset, segments).unwrap();
    let s2 = dynamics_handled(s1, image, offset, header, segments, segments.len()).unwrap();
    let space3 = relros_handled(s2.space, offset, segments).unwrap();
    let space4 = copied_removed(space3, offset, segments).unwrap();
    lemma_loads_permitted(base, segments, state, image, offset, segments);
    lemma_dynamics_permitted(base, segments, s1, image, offset, header, segments, segments.len());
    if segments.len() > 0 {
        lemma_relros_handled(s2.space, offset, segments, 0);
    } else {
        reveal(relros_handled);
    }
    lemma_copied_removed(space3, offset, segments);
    assert forall|p: u64| #[trigger] space4.contains_key(p) implies (base.contains_key(p)
        && narrower(base[p].flags, space4[p].flags)) || permitted(space4[p].flags, segments) by {
        assert(space3.contains_key(p));
        assert(s2.space.contains_key(p));
        if permitted(s2.space[p].flags, segments) {
            lemma_permitted_narrower(s2.space[p].flags, space3[p].flags, segments);
            lemma_permitted_narrower(space3[p].flags, space4[p].flags, segments);
        }
    }
}

/// Whether every page that is mapped is present.
pub open spec fn all_present(space: Map<u64, Mapping>) -> bool {
    forall|p: u64| #[trigger] space.contains_key(p) ==> space[p].flags.present
}

/// After an image was loaded into an address space whose pages are all
/// present, every page of the address space is present.
pub proof fn lemma_loaded_pages_are_present<D: LegacyMemoryRegion>(
    state: LoadState<D>,
    image: Image,
    offset: int,
    header: ElfHeader,
    segments: Seq<ProgramHeader>,
)
    requires
        all_present(state.space),
        segments_loaded(state, image, offset, header, segments) is Ok,
    ensures
        all_present(segments_loaded(state, image, offset, header, segments).unwrap().0.space),
{
    lemma_loaded_pages_are_permitted(state, image, offset, header, segments);
}

/// After an image was loaded into an address space whose pages are all
/// present, every page that a segment names as read-only after relocation is
/// mapped and present, and cannot be written.
pub proof fn lemma_relro_pages_are_present_and_read_only<D: LegacyMemoryRegion>(
    state: LoadState<D>,
    image: Image,
    offset: int,
    header: ElfHeader,
    segments: Seq<ProgramHeader>,
    i: int,
    page: u64,
)
    requires
        all_present(state.space),
        segments_loaded(state, image, offset, header, segments) is Ok,
        0 <= i < segments.len(),
        segments[i].type_ == PT_GNU_RELRO,
        page % PAGE_SIZE == 0,
        touched_pages(
            VirtualAddressOffset::moved(offset, segments[i].virtual_addr as int),
            segments[i].mem_size,
        ) matches Ok((first, count)) && in_pages(page, first, count),
    ensures
        ({
            let space = segments_loaded(state, image, offset, header, segments).unwrap().0.space;
            &&& space.contains_key(page)
            &&& space[page].flags.present
            &&& !space[page].flags.writable
        }),
{
    lemma_relro_pages_are_read_only(state, image, offset, header, segments, i);
    lemma_loaded_pages_are_present(state, image, offset, header, segments);
    let space = segments_loaded(state, image, offset, header, segments).unwrap().0.space;
    assert(frozen(space, offset, segments[i]));
    assert(space.contains_key(page));
}

} // verus!
