use vstd::prelude::*;
use crate::addr::{is_canonical, PAGE_SIZE};
use crate::elf::{
    dynamic_entries_of, le_bytes, ElfHeader, ProgramHeader, PT_DYNAMIC, PT_GNU_RELRO, RELA_SIZE,
};
use crate::error::LoadError;
use crate::frame_allocator::LegacyMemoryRegion;
use crate::kernel::bss_laws::{
    bss_is_zero, bss_range, has_bss, lemma_loads_bss_zero, lemma_loads_handled,
};
use crate::kernel::memory::{byte_read, bytes_read, bytes_written, Image, LoadState};
use crate::kernel::memory_laws::{lemma_bytes_written, lemma_same_but_flags_contents, state_ok};
use crate::kernel::relocations::{
    dynamic_segment_handled, lemma_relocations_applied_step, moved_address, rela_table_of,
    relocation_applied, relocation_read, relocations_applied, RelaTable,
};
use crate::kernel::segments::{
    copied_removed, in_pages, nth_page, segment_cleared, touched_pages,
};
use crate::kernel::{
    dynamics_handled, lemma_dynamics_handled_step, loads_handled, relros_handled,
    segments_loaded, VirtualAddressOffset,
};
use crate::paging::Mapping;

verus! {

/// Whether one space has the pages of another, with the same frames and the
/// same contents, and gives no page a permission to write that it had not.
pub open spec fn same_but_flags(before: Map<u64, Mapping>, after: Map<u64, Mapping>) -> bool {
    &&& forall|p: u64| before.contains_key(p) == #[trigger] after.contains_key(p)
    &&& forall|p: u64| #[trigger]
        after.contains_key(p) ==> {
            &&& after[p].frame == before[p].frame
            &&& after[p].data == before[p].data
            &&& after[p].copy_of == before[p].copy_of
            &&& after[p].flags.present == before[p].flags.present
            &&& after[p].flags.no_execute == before[p].flags.no_execute
            &&& after[p].flags.writable ==> before[p].flags.writable
        }
}

/// Whether every page that the segment touches is mapped and cannot be
/// written.
pub open spec fn frozen(space: Map<u64, Mapping>, offset: int, segment: ProgramHeader) -> bool {
    match touched_pages(
        VirtualAddressOffset::moved(offset, segment.virtual_addr as int),
        segment.mem_size,
    ) {
        Ok((first, count)) => forall|p: u64|
            p % PAGE_SIZE == 0 && in_pages(p, first, count) ==> #[trigger] space.contains_key(p)
                && !space[p].flags.writable,
        Err(_) => false,
    }
}

/// Clearing a flag on the pages of a segment changes nothing but flags, and
/// gives no page the permission to write.
pub proof fn lemma_segment_cleared(
    space: Map<u64, Mapping>,
    offset: int,
    segment: ProgramHeader,
    writable: bool,
)
    requires
        segment_cleared(space, offset, segment, writable) is Ok,
    ensures
        same_but_flags(space, segment_cleared(space, offset, segment, writable).unwrap()),
{
}

/// A page that lies among the `count` pages from `first` on is one of them.
pub proof fn lemma_in_pages(page: u64, first: u64, count: nat)
    requires
        page % PAGE_SIZE == 0,
        first % PAGE_SIZE == 0,
        in_pages(page, first, count),
    ensures
        exists|i: int| 0 <= i < count && page == #[trigger] nth_page(first, i),
{
    let d = page - first;
    assert(d % (PAGE_SIZE as int) == 0) by {
        vstd::arithmetic::div_mod::lemma_sub_mod_noop(page as int, first as int, PAGE_SIZE as int);
    }
    vstd::arithmetic::div_mod::lemma_fundamental_div_mod(d, PAGE_SIZE as int);
    let i = d / (PAGE_SIZE as int);
    assert(i < count) by (nonlinear_arith)
        requires
            i * PAGE_SIZE < count * PAGE_SIZE,
            PAGE_SIZE == 4096,
    ;
    assert(page == nth_page(first, i));
}

/// Taking the permission to write from the pages of a segment leaves them
/// mapped and without it.
pub proof fn lemma_segment_frozen(space: Map<u64, Mapping>, offset: int, segment: ProgramHeader)
    requires
        segment_cleared(space, offset, segment, true) is Ok,
    ensures
        frozen(segment_cleared(space, offset, segment, true).unwrap(), offset, segment),
{
    let (first, count) = touched_pages(
        VirtualAddressOffset::moved(offset, segment.virtual_addr as int),
        segment.mem_size,
    ).unwrap();
    let after = segment_cleared(space, offset, segment, true).unwrap();
    assert(first % PAGE_SIZE == 0) by {
        lemma_touched_pages_aligned(
            VirtualAddressOffset::moved(offset, segment.virtual_addr as int),
            segment.mem_size,
        );
    }
    assert forall|p: u64| p % PAGE_SIZE == 0 && in_pages(p, first, count) implies #[trigger] after.contains_key(
        p,
    ) && !after[p].flags.writable by {
        lemma_in_pages(p, first, count);
        let i = choose|i: int| 0 <= i < count && p == #[trigger] nth_page(first, i);
        assert(space.contains_key(nth_page(first, i)));
    }
}

/// The first page that a segment touches is a page.
pub proof fn lemma_touched_pages_aligned(start: Option<u64>, mem_size: u64)
    requires
        touched_pages(start, mem_size) is Ok,
    ensures
        touched_pages(start, mem_size).unwrap().0 % PAGE_SIZE == 0,
        is_canonical(touched_pages(start, mem_size).unwrap().0 as int),
{
    let a = start.unwrap();
    let first = crate::addr::canonical_form(a).unwrap();
    crate::kernel::memory::lemma_page_of(first);
}

/// What cannot be written stays so where only flags change and no page gains
/// the permission to write.
pub proof fn lemma_frozen_stays(
    before: Map<u64, Mapping>,
    after: Map<u64, Mapping>,
    offset: int,
    segment: ProgramHeader,
)
    requires
        frozen(before, offset, segment),
        same_but_flags(before, after),
    ensures
        frozen(after, offset, segment),
{
    let (first, count) = touched_pages(
        VirtualAddressOffset::moved(offset, segment.virtual_addr as int),
        segment.mem_size,
    ).unwrap();
    assert forall|p: u64| p % PAGE_SIZE == 0 && in_pages(p, first, count) implies #[trigger] after.contains_key(
        p,
    ) && !after[p].flags.writable by {
        assert(before.contains_key(p));
        assert(!before[p].flags.writable);
        assert(after.contains_key(p));
        assert(after[p].flags.writable ==> before[p].flags.writable);
    }
}

/// Changes of flags only, one after the other, are a change of flags only.
pub proof fn lemma_same_but_flags_trans(
    a: Map<u64, Mapping>,
    b: Map<u64, Mapping>,
    c: Map<u64, Mapping>,
)
    requires
        same_but_flags(a, b),
        same_but_flags(b, c),
    ensures
        same_but_flags(a, c),
{
    assert forall|p: u64| a.contains_key(p) == #[trigger] c.contains_key(p) by {
        assert(a.contains_key(p) == b.contains_key(p));
    }
    assert forall|p: u64| #[trigger] c.contains_key(p) implies {
        &&& c[p].frame == a[p].frame
        &&& c[p].data == a[p].data
        &&& c[p].flags.present == a[p].flags.present
        &&& c[p].flags.no_execute == a[p].flags.no_execute
        &&& c[p].flags.writable ==> a[p].flags.writable
    } by {
        assert(b.contains_key(p));
    }
}

/// Handling what is read-only after relocation changes nothing but flags,
/// and leaves the pages of each segment that names such a part mapped and
/// without the permission to write.
pub proof fn lemma_relros_handled(
    space: Map<u64, Mapping>,
    offset: int,
    segments: Seq<ProgramHeader>,
    i: int,
)
    requires
        relros_handled(space, offset, segments) is Ok,
        0 <= i < segments.len(),
    ensures
        same_but_flags(space, relros_handled(space, offset, segments).unwrap()),
        segments[i].type_ == PT_GNU_RELRO ==> frozen(
            relros_handled(space, offset, segments).unwrap(),
            offset,
            segments[i],
        ),
    decreases segments.len(),
{
    reveal_with_fuel(relros_handled, 2);
    let front = segments.drop_last();
    let last = segments.last();
    let before = relros_handled(space, offset, front).unwrap();
    let after = relros_handled(space, offset, segments).unwrap();
    if front.len() > 0 {
        lemma_relros_handled(space, offset, front, if i < front.len() {
            i
        } else {
            0
        });
    } else {
        assert(before == space);
    }
    if last.type_ == PT_GNU_RELRO {
        lemma_segment_cleared(before, offset, last, true);
        lemma_segment_frozen(before, offset, last);
    }
    lemma_same_but_flags_trans(space, before, after);
    if i < front.len() {
        assert(front[i] == segments[i]);
        if segments[i].type_ == PT_GNU_RELRO {
            lemma_frozen_stays(before, after, offset, segments[i]);
        }
    }
}

/// Removing the marks that the loader set changes nothing but flags.
pub proof fn lemma_copied_removed(
    space: Map<u64, Mapping>,
    offset: int,
    segments: Seq<ProgramHeader>,
)
    requires
        copied_removed(space, offset, segments) is Ok,
    ensures
        same_but_flags(space, copied_removed(space, offset, segments).unwrap()),
    decreases segments.len(),
{
    if segments.len() > 0 {
        let front = segments.drop_last();
        let before = copied_removed(space, offset, front).unwrap();
        lemma_copied_removed(space, offset, front);
        if segments.last().is_load() {
            lemma_segment_cleared(before, offset, segments.last(), false);
        }
        lemma_same_but_flags_trans(
            space,
            before,
            copied_removed(space, offset, segments).unwrap(),
        );
    }
}

/// After an image was loaded, no page that a segment names as read-only after
/// relocation can be written: every such page is mapped, and its flags do not
/// allow writes.
pub proof fn lemma_relro_pages_are_read_only<D: LegacyMemoryRegion>(
    state: LoadState<D>,
    image: Image,
    offset: int,
    header: ElfHeader,
    segments: Seq<ProgramHeader>,
    i: int,
)
    requires
        segments_loaded(state, image, offset, header, segments) is Ok,
        0 <= i < segments.len(),
        segments[i].type_ == PT_GNU_RELRO,
    ensures
        frozen(
            segments_loaded(state, image, offset, header, segments).unwrap().0.space,
            offset,
            segments[i],
        ),
{
    let (s1, tls) = crate::kernel::loads_handled(state, image, offset, segments).unwrap();
    let s2 = crate::kernel::dynamics_handled(
        s1,
        image,
        offset,
        header,
        segments,
        segments.len(),
    ).unwrap();
    let space3 = relros_handled(s2.space, offset, segments).unwrap();
    let space4 = copied_removed(space3, offset, segments).unwrap();
    lemma_relros_handled(s2.space, offset, segments, i);
    lemma_copied_removed(space3, offset, segments);
    lemma_frozen_stays(space3, space4, offset, segments[i]);
}

/// Where no segment holds a dynamic section, no relocation is applied.
pub proof fn lemma_no_dynamic<D: LegacyMemoryRegion>(
    state: LoadState<D>,
    image: Image,
    offset: int,
    header: ElfHeader,
    segments: Seq<ProgramHeader>,
    count: nat,
)
    requires
        count <= segments.len(),
        forall|k: int| 0 <= k < segments.len() ==> (#[trigger] segments[k]).type_ != PT_DYNAMIC,
    ensures
        dynamics_handled(state, image, offset, header, segments, count) == Ok::<
            LoadState<D>,
            LoadError,
        >(state),
    decreases count,
{
    lemma_dynamics_handled_step(state, image, offset, header, segments, 0);
    if count > 0 {
        lemma_no_dynamic(state, image, offset, header, segments, (count - 1) as nat);
        lemma_dynamics_handled_step(state, image, offset, header, segments, (count - 1) as nat);
    }
}

/// Where only the segment `j` holds a dynamic section, the relocations of
/// that section are all that is applied.
pub proof fn lemma_one_dynamic<D: LegacyMemoryRegion>(
    state: LoadState<D>,
    image: Image,
    offset: int,
    header: ElfHeader,
    segments: Seq<ProgramHeader>,
    j: int,
    count: nat,
)
    requires
        0 <= j < segments.len(),
        count <= segments.len(),
        forall|k: int|
            0 <= k < segments.len() ==> ((#[trigger] segments[k]).type_ == PT_DYNAMIC <==> k == j),
    ensures
        dynamics_handled(state, image, offset, header, segments, count) == (if count <= j {
            Ok(state)
        } else {
            dynamic_segment_handled(state, image, offset, header, segments, segments[j])
        }),
    decreases count,
{
    lemma_dynamics_handled_step(state, image, offset, header, segments, 0);
    if count > 0 {
        lemma_one_dynamic(state, image, offset, header, segments, j, (count - 1) as nat);
        lemma_dynamics_handled_step(state, image, offset, header, segments, (count - 1) as nat);
        assert(segments[count - 1].type_ == PT_DYNAMIC <==> count - 1 == j);
    }
}

/// After an image was loaded, every byte that a loaded segment has in memory
/// beyond what the file holds of it reads as zero, unless a relocation has
/// changed it.
pub proof fn lemma_bss_reads_zero<D: LegacyMemoryRegion>(
    state: LoadState<D>,
    image: Image,
    offset: int,
    header: ElfHeader,
    segments: Seq<ProgramHeader>,
    i: int,
    address: u64,
)
    requires
        state_ok(state),
        segments_loaded(state, image, offset, header, segments) is Ok,
        0 <= i < segments.len(),
        has_bss(segments[i]),
        is_canonical(address as int),
        bss_range(offset, segments[i]) matches Some((zero_start, zero_end)) ==> zero_start
            <= address < zero_end,
        byte_read(
            dynamics_handled(
                loads_handled(state, image, offset, segments).unwrap().0,
                image,
                offset,
                header,
                segments,
                segments.len(),
            ).unwrap().space,
            image,
            address,
        ) == byte_read(loads_handled(state, image, offset, segments).unwrap().0.space, image, address),
    ensures
        bss_range(offset, segments[i]).is_some(),
        byte_read(
            segments_loaded(state, image, offset, header, segments).unwrap().0.space,
            image,
            address,
        ) == Some(0u8),
{
    let (s1, tls) = loads_handled(state, image, offset, segments).unwrap();
    let s2 = dynamics_handled(s1, image, offset, header, segments, segments.len()).unwrap();
    let space3 = relros_handled(s2.space, offset, segments).unwrap();
    let space4 = copied_removed(space3, offset, segments).unwrap();
    lemma_loads_bss_zero(state, image, offset, segments, i);
    assert(byte_read(s1.space, image, address) == Some(0u8));
    lemma_relros_handled(s2.space, offset, segments, i);
    lemma_copied_removed(space3, offset, segments);
    lemma_same_but_flags_trans(s2.space, space3, space4);
    lemma_same_but_flags_contents(s2.space, space4, image);
}

/// After an image without a dynamic section was loaded, every byte that a
/// loaded segment has in memory beyond what the file holds of it reads as
/// zero.
pub proof fn lemma_bss_reads_zero_without_relocations<D: LegacyMemoryRegion>(
    state: LoadState<D>,
    image: Image,
    offset: int,
    header: ElfHeader,
    segments: Seq<ProgramHeader>,
    i: int,
)
    requires
        state_ok(state),
        segments_loaded(state, image, offset, header, segments) is Ok,
        0 <= i < segments.len(),
        has_bss(segments[i]),
        forall|k: int| 0 <= k < segments.len() ==> (#[trigger] segments[k]).type_ != PT_DYNAMIC,
    ensures
        bss_is_zero(
            segments_loaded(state, image, offset, header, segments).unwrap().0.space,
            image,
            offset,
            segments[i],
        ),
{
    let s1 = loads_handled(state, image, offset, segments).unwrap().0;
    lemma_no_dynamic(s1, image, offset, header, segments, segments.len());
    lemma_loads_bss_zero(state, image, offset, segments, i);
    let (zero_start, zero_end) = bss_range(offset, segments[i]).unwrap();
    let after = segments_loaded(state, image, offset, header, segments).unwrap().0.space;
    assert forall|a: u64|
        is_canonical(a as int) && zero_start <= a < zero_end implies #[trigger] byte_read(
        after,
        image,
        a,
    ) == Some(0u8) by {
        lemma_bss_reads_zero(state, image, offset, header, segments, i, a);
    }
}

/// After an image with a single relocation was loaded, the eight bytes at
/// the address of the relocation hold the base address of the image plus the
/// addend of the relocation, the lowest byte first. The image has one dynamic
/// section, in the segment `j`, which names a table of one relocation.
pub proof fn lemma_relocation_round_trip<D: LegacyMemoryRegion>(
    state: LoadState<D>,
    image: Image,
    offset: int,
    header: ElfHeader,
    segments: Seq<ProgramHeader>,
    j: int,
    table: RelaTable,
)
    requires
        state_ok(state),
        segments_loaded(state, image, offset, header, segments) is Ok,
        0 <= j < segments.len(),
        forall|k: int|
            0 <= k < segments.len() ==> ((#[trigger] segments[k]).type_ == PT_DYNAMIC <==> k == j),
        dynamic_entries_of(image.bytes, header, segments[j]) is Ok,
        rela_table_of(dynamic_entries_of(image.bytes, header, segments[j]).unwrap()) == Ok::<
            Option<RelaTable>,
            LoadError,
        >(Some(table)),
        table.total_size / RELA_SIZE == 1,
    ensures
        ({
            let loaded = loads_handled(state, image, offset, segments).unwrap().0;
            let rela = relocation_read(loaded.space, image, offset, table.offset, 0);
            &&& rela is Ok
            &&& moved_address(offset, rela.unwrap().offset as int).is_some()
            &&& VirtualAddressOffset::moved(offset, rela.unwrap().addend as int).is_some()
            &&& bytes_read(
                segments_loaded(state, image, offset, header, segments).unwrap().0.space,
                image,
                moved_address(offset, rela.unwrap().offset as int).unwrap(),
                8,
            ) == Some(
                le_bytes(VirtualAddressOffset::moved(offset, rela.unwrap().addend as int).unwrap()),
            )
        }),
{
    let (s1, tls) = loads_handled(state, image, offset, segments).unwrap();
    let s2 = dynamics_handled(s1, image, offset, header, segments, segments.len()).unwrap();
    let space3 = relros_handled(s2.space, offset, segments).unwrap();
    let space4 = copied_removed(space3, offset, segments).unwrap();
    lemma_loads_handled(state, image, offset, segments);
    lemma_one_dynamic(s1, image, offset, header, segments, j, segments.len());
    assert(Ok::<LoadState<D>, LoadError>(s2) == dynamic_segment_handled(
        s1,
        image,
        offset,
        header,
        segments,
        segments[j],
    ));
    assert(Ok::<LoadState<D>, LoadError>(s2) == relocations_applied(
        s1,
        image,
        offset,
        segments,
        table.offset,
        1,
    ));
    lemma_relocations_applied_step(s1, image, offset, segments, table.offset, 0);
    let rela = relocation_read(s1.space, image, offset, table.offset, 0).unwrap();
    assert(Ok::<LoadState<D>, LoadError>(s2) == relocation_applied(
        s1,
        image,
        offset,
        segments,
        rela,
    ));
    reveal(relocation_applied);
    let target = moved_address(offset, rela.offset as int).unwrap();
    let value = VirtualAddressOffset::moved(offset, rela.addend as int).unwrap();
    assert(Ok::<LoadState<D>, LoadError>(s2) == bytes_written(s1, image, target, le_bytes(value)));
    lemma_bytes_written(s1, image, target, le_bytes(value));
    lemma_relros_handled(s2.space, offset, segments, j);
    lemma_copied_removed(space3, offset, segments);
    lemma_same_but_flags_trans(s2.space, space3, space4);
    lemma_same_but_flags_contents(s2.space, space4, image);
}

/// An image with a relocation whose address lies within no loaded segment is
/// not loaded: the loader turns it down because the offset is not in a load
/// segment. The image has one dynamic section, in the segment `j`, which
/// names a table of relocations; the relocation `index` of the table is the
/// first that cannot be applied, and it is of the kind that the loader
/// applies.
pub proof fn lemma_relocation_outside_load_fails<D: LegacyMemoryRegion>(
    state: LoadState<D>,
    image: Image,
    offset: int,
    header: ElfHeader,
    segments: Seq<ProgramHeader>,
    j: int,
    table: RelaTable,
    index: nat,
)
    requires
        loads_handled(state, image, offset, segments) is Ok,
        0 <= j < segments.len(),
        forall|k: int|
            0 <= k < segments.len() ==> ((#[trigger] segments[k]).type_ == PT_DYNAMIC <==> k == j),
        dynamic_entries_of(image.bytes, header, segments[j]) is Ok,
        rela_table_of(dynamic_entries_of(image.bytes, header, segments[j]).unwrap()) == Ok::<
            Option<RelaTable>,
            LoadError,
        >(Some(table)),
        table.entry_size == RELA_SIZE,
        index < table.total_size / RELA_SIZE,
        ({
            let loaded = loads_handled(state, image, offset, segments).unwrap().0;
            let before = relocations_applied(loaded, image, offset, segments, table.offset, index);
            &&& before is Ok
            &&& relocation_read(before.unwrap().space, image, offset, table.offset, index as int) is Ok
            &&& ({
                let rela = relocation_read(
                    before.unwrap().space,
                    image,
                    offset,
                    table.offset,
                    index as int,
                ).unwrap();
                &&& rela.symbol_table_index() == 0
                &&& rela.relocation_type() == crate::elf::R_X86_64_RELATIVE
                &&& !crate::kernel::relocations::in_load(segments, rela.offset)
            })
        }),
    ensures
        segments_loaded(state, image, offset, header, segments) == Err::<
            (LoadState<D>, Option<crate::tls_template::TlsTemplate>),
            LoadError,
        >(LoadError::OffsetNotInLoad),
{
    let (s1, tls) = loads_handled(state, image, offset, segments).unwrap();
    let count = (table.total_size / RELA_SIZE) as nat;
    lemma_one_dynamic(s1, image, offset, header, segments, j, segments.len());
    lemma_relocations_applied_step(s1, image, offset, segments, table.offset, index);
    reveal(relocation_applied);
    crate::kernel::relocations::lemma_relocations_applied_fails(
        s1,
        image,
        offset,
        segments,
        table.offset,
        count,
        index + 1,
    );
}

/// Whether the relocation `index` of the table `table` is the first that
/// cannot be applied once the segments were loaded, is of the kind that the
/// loader applies, and names an address within no loaded segment.
pub open spec fn first_relocation_outside_load<D: LegacyMemoryRegion>(
    state: LoadState<D>,
    image: Image,
    offset: int,
    segments: Seq<ProgramHeader>,
    table: RelaTable,
    index: nat,
) -> bool {
    let loaded = loads_handled(state, image, offset, segments).unwrap().0;
    let before = relocations_applied(loaded, image, offset, segments, table.offset, index);
    &&& before is Ok
    &&& relocation_read(before.unwrap().space, image, offset, table.offset, index as int) is Ok
    &&& ({
        let rela = relocation_read(
            before.unwrap().space,
            image,
            offset,
            table.offset,
            index as int,
        ).unwrap();
        &&& rela.symbol_table_index() == 0
        &&& rela.relocation_type() == crate::elf::R_X86_64_RELATIVE
        &&& !crate::kernel::relocations::in_load(segments, rela.offset)
    })
}

/// A kernel with a relocation whose address lies within no loaded segment is
/// not loaded: loading it ends with the error that says that the offset is
/// not in a load segment. The kernel's file passes the checks and finds room,
/// its segments can be loaded, and it has one dynamic section, in the segment
/// `j`, which names a table of relocations; see
/// `first_relocation_outside_load`.
pub proof fn lemma_kernel_with_relocation_outside_load<D: LegacyMemoryRegion>(
    state: LoadState<D>,
    entries: Seq<bool>,
    bytes: Seq<u8>,
    header: ElfHeader,
    start_address: u64,
    j: int,
    table: RelaTable,
    index: nat,
)
    requires
        crate::kernel::loader_planned(bytes, header, start_address, entries) is Ok,
        ({
            let offset = crate::kernel::loader_planned(bytes, header, start_address, entries).unwrap().0;
            let segments = crate::elf::program_headers_of(bytes, header).unwrap();
            let image = Image { bytes, start: start_address };
            &&& loads_handled(state, image, offset, segments) is Ok
            &&& 0 <= j < segments.len()
            &&& forall|k: int|
                0 <= k < segments.len() ==> ((#[trigger] segments[k]).type_ == PT_DYNAMIC <==> k
                    == j)
            &&& dynamic_entries_of(bytes, header, segments[j]) is Ok
            &&& rela_table_of(dynamic_entries_of(bytes, header, segments[j]).unwrap()) == Ok::<
                Option<RelaTable>,
                LoadError,
            >(Some(table))
            &&& table.entry_size == RELA_SIZE
            &&& index < table.total_size / RELA_SIZE
            &&& first_relocation_outside_load(state, image, offset, segments, table, index)
        }),
    ensures
        crate::kernel::kernel_loaded(state, entries, bytes, header, start_address) matches Err(e)
            && e == LoadError::OffsetNotInLoad,
        LoadError::OffsetNotInLoad.spec_message() == "offset is not in load segment"@,
{
    let offset = crate::kernel::loader_planned(bytes, header, start_address, entries).unwrap().0;
    let segments = crate::elf::program_headers_of(bytes, header).unwrap();
    let image = Image { bytes, start: start_address };
    lemma_relocation_outside_load_fails(state, image, offset, header, segments, j, table, index);
}

/// Whether every page that the segment touches is mapped and does not carry
/// the mark that the loader sets on pages with a frame of their own.
pub open spec fn unmarked(space: Map<u64, Mapping>, offset: int, segment: ProgramHeader) -> bool {
    match touched_pages(
        VirtualAddressOffset::moved(offset, segment.virtual_addr as int),
        segment.mem_size,
    ) {
        Ok((first, count)) => forall|p: u64|
            p % PAGE_SIZE == 0 && in_pages(p, first, count) ==> #[trigger] space.contains_key(p)
                && !space[p].flags.copied,
        Err(_) => false,
    }
}

/// Whether one space has the pages of another and sets the mark on no page
/// that did not carry it.
pub open spec fn no_new_marks(before: Map<u64, Mapping>, after: Map<u64, Mapping>) -> bool {
    &&& forall|p: u64| before.contains_key(p) == #[trigger] after.contains_key(p)
    &&& forall|p: u64| #[trigger]
        after.contains_key(p) ==> (after[p].flags.copied ==> before[p].flags.copied)
}

/// After the marks were removed, no page of a loaded segment carries one.
pub proof fn lemma_copied_removed_unmarks(
    space: Map<u64, Mapping>,
    offset: int,
    segments: Seq<ProgramHeader>,
    i: int,
)
    requires
        copied_removed(space, offset, segments) is Ok,
        0 <= i < segments.len(),
    ensures
        no_new_marks(space, copied_removed(space, offset, segments).unwrap()),
        segments[i].is_load() ==> unmarked(
            copied_removed(space, offset, segments).unwrap(),
            offset,
            segments[i],
        ),
    decreases segments.len(),
{
    let front = segments.drop_last();
    let last = segments.last();
    let before = copied_removed(space, offset, front).unwrap();
    let after = copied_removed(space, offset, segments).unwrap();
    if front.len() > 0 {
        lemma_copied_removed_unmarks(space, offset, front, if i < front.len() {
            i
        } else {
            0
        });
    }
    assert(no_new_marks(before, after));
    assert forall|p: u64| space.contains_key(p) == #[trigger] after.contains_key(p) by {
        assert(space.contains_key(p) == before.contains_key(p));
    }
    assert forall|p: u64| #[trigger] after.contains_key(p) implies (after[p].flags.copied
        ==> space[p].flags.copied) by {
        assert(before.contains_key(p));
    }
    if i < front.len() {
        assert(front[i] == segments[i]);
        if segments[i].is_load() {
            assert(unmarked(before, offset, segments[i]));
            let touched = touched_pages(
                VirtualAddressOffset::moved(offset, segments[i].virtual_addr as int),
                segments[i].mem_size,
            );
            assert(touched is Ok);
            let (first, count) = touched.unwrap();
            assert forall|p: u64|
                p % PAGE_SIZE == 0 && in_pages(p, first, count) implies #[trigger] after.contains_key(
                p,
            ) && !after[p].flags.copied by {
                assert(before.contains_key(p));
                assert(!before[p].flags.copied);
                assert(after.contains_key(p));
                assert(after[p].flags.copied ==> before[p].flags.copied);
            }
            assert(unmarked(after, offset, segments[i]));
        }
    } else if last.is_load() {
        assert(segments[i] == last);
        assert(after == segment_cleared(before, offset, last, false).unwrap());
        let (first, count) = touched_pages(
            VirtualAddressOffset::moved(offset, last.virtual_addr as int),
            last.mem_size,
        ).unwrap();
        lemma_touched_pages_aligned(
            VirtualAddressOffset::moved(offset, last.virtual_addr as int),
            last.mem_size,
        );
        assert forall|p: u64|
            p % PAGE_SIZE == 0 && in_pages(p, first, count) implies #[trigger] after.contains_key(
            p,
        ) && !after[p].flags.copied by {
            lemma_in_pages(p, first, count);
            let k = choose|k: int| 0 <= k < count && p == #[trigger] nth_page(first, k);
            assert(before.contains_key(nth_page(first, k)));
            assert(after.contains_key(p));
            assert(!after[p].flags.copied);
        }
        assert(unmarked(after, offset, segments[i]));
    }
}

/// After an image was loaded, no page of a loaded segment carries the mark
/// that the loader sets on pages while it loads: every such page is mapped,
/// and its flags are those that the kernel is to see.
pub proof fn lemma_loaded_pages_are_unmarked<D: LegacyMemoryRegion>(
    state: LoadState<D>,
    image: Image,
    offset: int,
    header: ElfHeader,
    segments: Seq<ProgramHeader>,
    i: int,
)
    requires
        segments_loaded(state, image, offset, header, segments) is Ok,
        0 <= i < segments.len(),
        segments[i].is_load(),
    ensures
        unmarked(
            segments_loaded(state, image, offset, header, segments).unwrap().0.space,
            offset,
            segments[i],
        ),
{
    let (s1, tls) = loads_handled(state, image, offset, segments).unwrap();
    let s2 = dynamics_handled(s1, image, offset, header, segments, segments.len()).unwrap();
    let space3 = relros_handled(s2.space, offset, segments).unwrap();
    lemma_copied_removed_unmarks(space3, offset, segments, i);
}

} // verus!
