use vstd::prelude::*;
use crate::addr::{canonical_form, VirtAddr};
use crate::elf::{
    dynamic_entries_of, le_bytes, u64_to_le_bytes, valid_tag, DynamicEntry, ElfFile, ElfHeader,
    ProgramHeader, Rela, DT_RELA, DT_RELAENT, DT_RELASZ, PT_LOAD, RELA_SIZE, R_X86_64_RELATIVE,
};
use crate::error::LoadError;
use crate::frame_allocator::{LegacyFrameAllocator, LegacyMemoryRegion};
use crate::kernel::memory::{
    bytes_written, copied_from, ended_as, state_of, Image, Inner, LoadState,
};
use crate::kernel::VirtualAddressOffset;
use crate::paging::{AddressSpace, Mapping};

verus! {

/// What the dynamic section says of the relocation table, as far as it has
/// been read.
#[derive(Clone, Copy, Debug, PartialEq, Eq, Structural)]
pub struct RelaEntries {
    /// The address of the relocation table.
    pub rela: Option<u64>,
    /// The size of the relocation table in bytes.
    pub rela_size: Option<u64>,
    /// The size of one relocation in bytes.
    pub rela_ent: Option<u64>,
}

/// The relocation table of an image.
#[derive(Clone, Copy, Debug, PartialEq, Eq, Structural)]
pub struct RelaTable {
    /// The address of the table, as the file names it.
    pub offset: u64,
    /// The size of the table in bytes.
    pub total_size: u64,
    /// The size of one relocation in bytes.
    pub entry_size: u64,
}

/// What is known of the relocation table after one more entry of the dynamic
/// section was read.
pub open spec fn entry_scanned(found: RelaEntries, entry: DynamicEntry) -> Result<
    RelaEntries,
    LoadError,
> {
    if !valid_tag(entry.tag) {
        Err(LoadError::InvalidTag)
    } else if entry.tag == DT_RELA {
        if found.rela.is_some() {
            Err(LoadError::MultipleRela)
        } else {
            Ok(RelaEntries { rela: Some(entry.value), ..found })
        }
    } else if entry.tag == DT_RELASZ {
        if found.rela_size.is_some() {
            Err(LoadError::MultipleRelaSize)
        } else {
            Ok(RelaEntries { rela_size: Some(entry.value), ..found })
        }
    } else if entry.tag == DT_RELAENT {
        if found.rela_ent.is_some() {
            Err(LoadError::MultipleRelaEnt)
        } else {
            Ok(RelaEntries { rela_ent: Some(entry.value), ..found })
        }
    } else {
        Ok(found)
    }
}

/// What the entries of a dynamic section say of the relocation table.
pub open spec fn scanned(entries: Seq<DynamicEntry>) -> Result<RelaEntries, LoadError>
    decreases entries.len(),
{
    if entries.len() == 0 {
        Ok(RelaEntries { rela: None, rela_size: None, rela_ent: None })
    } else {
        match scanned(entries.drop_last()) {
            Err(e) => Err(e),
            Ok(found) => entry_scanned(found, entries.last()),
        }
    }
}

/// The relocation table that a dynamic section names, if it names one.
pub open spec fn rela_table_of(entries: Seq<DynamicEntry>) -> Result<Option<RelaTable>, LoadError> {
    match scanned(entries) {
        Err(e) => Err(e),
        Ok(found) => match found.rela {
            None => if found.rela_size.is_some() || found.rela_ent.is_some() {
                Err(LoadError::RelaMissing)
            } else {
                Ok(None)
            },
            Some(offset) => match found.rela_size {
                None => Err(LoadError::RelaSizeMissing),
                Some(total_size) => match found.rela_ent {
                    None => Err(LoadError::RelaEntMissing),
                    Some(entry_size) => Ok(Some(RelaTable { offset, total_size, entry_size })),
                },
            },
        },
    }
}

/// Whether the address `virt_offset` of the file lies within a segment that is
/// loaded.
pub open spec fn in_load(segments: Seq<ProgramHeader>, virt_offset: u64) -> bool {
    exists|i: int|
        0 <= i < segments.len() && (#[trigger] segments[i]).is_load() && segments[i].virtual_addr
            <= virt_offset && virt_offset - segments[i].virtual_addr < segments[i].mem_size
}

/// The virtual address that the address `address` of the file has when the
/// image is moved by `offset`.
pub open spec fn moved_address(offset: int, address: int) -> Option<u64> {
    match VirtualAddressOffset::moved(offset, address) {
        Some(a) => canonical_form(a),
        None => None,
    }
}

/// The relocation with index `idx` of the table at `table`, read through the
/// mappings of the kernel's address space.
#[verifier::opaque]
pub open spec fn relocation_read(
    space: Map<u64, Mapping>,
    image: Image,
    offset: int,
    table: u64,
    idx: int,
) -> Result<Rela, LoadError> {
    if table + RELA_SIZE * idx > u64::MAX {
        Err(LoadError::AddressOutOfRange)
    } else {
        match moved_address(offset, table + RELA_SIZE * idx) {
            None => Err(LoadError::AddressOutOfRange),
            Some(addr) => match copied_from(space, image, addr, RELA_SIZE as int) {
                Err(e) => Err(e),
                Ok(bytes) => Ok(Rela::decoded(bytes)),
            },
        }
    }
}

/// The state after the relocation `rela` was applied: the base address of the
/// image plus its addend is written to its address, the lowest byte first.
#[verifier::opaque]
pub open spec fn relocation_applied<D: LegacyMemoryRegion>(
    state: LoadState<D>,
    image: Image,
    offset: int,
    segments: Seq<ProgramHeader>,
    rela: Rela,
) -> Result<LoadState<D>, LoadError> {
    if rela.symbol_table_index() != 0 || rela.relocation_type() != R_X86_64_RELATIVE {
        Err(LoadError::UnsupportedRelocation)
    } else if !in_load(segments, rela.offset) {
        Err(LoadError::OffsetNotInLoad)
    } else {
        match (moved_address(offset, rela.offset as int), VirtualAddressOffset::moved(
            offset,
            rela.addend as int,
        )) {
            (Some(addr), Some(value)) => bytes_written(state, image, addr, le_bytes(value)),
            _ => Err(LoadError::AddressOutOfRange),
        }
    }
}

/// The state after the first `count` relocations of the table at `table` were
/// read and applied, one after the other.
#[verifier::opaque]
pub open spec fn relocations_applied<D: LegacyMemoryRegion>(
    state: LoadState<D>,
    image: Image,
    offset: int,
    segments: Seq<ProgramHeader>,
    table: u64,
    count: nat,
) -> Result<LoadState<D>, LoadError>
    decreases count,
{
    if count == 0 {
        Ok(state)
    } else {
        match relocations_applied(state, image, offset, segments, table, (count - 1) as nat) {
            Err(e) => Err(e),
            Ok(s) => match relocation_read(s.space, image, offset, table, count - 1) {
                Err(e) => Err(e),
                Ok(rela) => relocation_applied(s, image, offset, segments, rela),
            },
        }
    }
}

/// The state after the relocations were applied that the dynamic section in
/// `segment` names.
pub open spec fn dynamic_segment_handled<D: LegacyMemoryRegion>(
    state: LoadState<D>,
    image: Image,
    offset: int,
    header: ElfHeader,
    segments: Seq<ProgramHeader>,
    segment: ProgramHeader,
) -> Result<LoadState<D>, LoadError> {
    match dynamic_entries_of(image.bytes, header, segment) {
        Err(e) => Err(e),
        Ok(entries) => match rela_table_of(entries) {
            Err(e) => Err(e),
            Ok(None) => Ok(state),
            Ok(Some(table)) => if table.entry_size != RELA_SIZE {
                Err(LoadError::UnsupportedRelocation)
            } else {
                relocations_applied(
                    state,
                    image,
                    offset,
                    segments,
                    table.offset,
                    (table.total_size / RELA_SIZE) as nat,
                )
            },
        },
    }
}

/// Where applying the first `part` relocations fails, applying `count` of them
/// fails in the same way.
pub proof fn lemma_relocations_applied_fails<D: LegacyMemoryRegion>(
    state: LoadState<D>,
    image: Image,
    offset: int,
    segments: Seq<ProgramHeader>,
    table: u64,
    count: nat,
    part: nat,
)
    requires
        part <= count,
    ensures
        relocations_applied(state, image, offset, segments, table, part) matches Err(e)
            ==> relocations_applied(state, image, offset, segments, table, count) == Err::<
            LoadState<D>,
            LoadError,
        >(e),
    decreases count - part,
{
    if part < count {
        lemma_relocations_applied_fails(state, image, offset, segments, table, count, part + 1);
        lemma_relocations_applied_step(state, image, offset, segments, table, part);
    }
}

/// Applying one relocation more: the relocations before it are applied first,
/// then the relocation is read and applied.
pub proof fn lemma_relocations_applied_step<D: LegacyMemoryRegion>(
    state: LoadState<D>,
    image: Image,
    offset: int,
    segments: Seq<ProgramHeader>,
    table: u64,
    count: nat,
)
    ensures
        relocations_applied(state, image, offset, segments, table, 0) == Ok::<
            LoadState<D>,
            LoadError,
        >(state),
        relocations_applied(state, image, offset, segments, table, count + 1) == (
        match relocations_applied(state, image, offset, segments, table, count) {
            Err(e) => Err(e),
            Ok(s) => match relocation_read(s.space, image, offset, table, count as int) {
                Err(e) => Err(e),
                Ok(rela) => relocation_applied(s, image, offset, segments, rela),
            },
        }),
{
    reveal_with_fuel(relocations_applied, 2);
}

/// Where reading the first `part` entries of a dynamic section fails, reading
/// all of them fails in the same way.
pub proof fn lemma_scanned_fails(entries: Seq<DynamicEntry>, part: int)
    requires
        0 <= part <= entries.len(),
    ensures
        scanned(entries.subrange(0, part)) matches Err(e) ==> scanned(entries) == Err::<
            RelaEntries,
            LoadError,
        >(e),
    decreases entries.len() - part,
{
    if part < entries.len() {
        lemma_scanned_fails(entries, part + 1);
        assert(entries.subrange(0, part + 1).drop_last() =~= entries.subrange(0, part));
    } else {
        assert(entries.subrange(0, part) =~= entries);
    }
}

/// Whether `tag` is a tag that a dynamic entry may have.
fn is_valid_tag(tag: u64) -> (r: bool)
    ensures
        r == valid_tag(tag),
{
    tag <= 30 || (32 <= tag && tag <= 34) || (0x6000_000d <= tag && tag <= 0x6fff_ffff) || (
    0x7000_0000 <= tag && tag <= 0x7fff_ffff)
}

/// Finds the relocation table that the entries of a dynamic section name.
pub fn find_rela_table(entries: &Vec<DynamicEntry>) -> (r: Result<Option<RelaTable>, LoadError>)
    ensures
        r == rela_table_of(entries@),
{
    let mut found = RelaEntries { rela: None, rela_size: None, rela_ent: None };
    let mut i: usize = 0;
    assert(entries@.subrange(0, 0) =~= Seq::<DynamicEntry>::empty());
    while i < entries.len()
        invariant
            i <= entries@.len(),
            scanned(entries@.subrange(0, i as int)) == Ok::<RelaEntries, LoadError>(found),
        decreases entries@.len() - i,
    {
        let entry = entries[i];
        proof {
            assert(entries@.subrange(0, i + 1).drop_last() =~= entries@.subrange(0, i as int));
            assert(entries@.subrange(0, i + 1).last() == entry);
            lemma_scanned_fails(entries@, i + 1);
        }
        if !is_valid_tag(entry.tag) {
            return Err(LoadError::InvalidTag);
        }
        if entry.tag == DT_RELA {
            if found.rela.is_some() {
                return Err(LoadError::MultipleRela);
            }
            found.rela = Some(entry.value);
        } else if entry.tag == DT_RELASZ {
            if found.rela_size.is_some() {
                return Err(LoadError::MultipleRelaSize);
            }
            found.rela_size = Some(entry.value);
        } else if entry.tag == DT_RELAENT {
            if found.rela_ent.is_some() {
                return Err(LoadError::MultipleRelaEnt);
            }
            found.rela_ent = Some(entry.value);
        }
        i += 1;
    }
    assert(entries@.subrange(0, i as int) =~= entries@);
    let offset = match found.rela {
        Some(offset) => offset,
        None => {
            if found.rela_size.is_some() || found.rela_ent.is_some() {
                return Err(LoadError::RelaMissing);
            }
            return Ok(None);
        },
    };
    let total_size = match found.rela_size {
        Some(size) => size,
        None => {
            return Err(LoadError::RelaSizeMissing);
        },
    };
    let entry_size = match found.rela_ent {
        Some(size) => size,
        None => {
            return Err(LoadError::RelaEntMissing);
        },
    };
    Ok(Some(RelaTable { offset, total_size, entry_size }))
}

/// Checks that the address `virt_offset` of the file lies within a segment
/// that is loaded.
pub fn check_is_in_load(segments: &Vec<ProgramHeader>, virt_offset: u64) -> (r: Result<
    (),
    LoadError,
>)
    ensures
        r is Ok == in_load(segments@, virt_offset),
        r matches Err(e) ==> e == LoadError::OffsetNotInLoad,
{
    let mut i: usize = 0;
    while i < segments.len()
        invariant
            i <= segments@.len(),
            forall|j: int|
                0 <= j < i ==> !((#[trigger] segments@[j]).is_load() && segments@[j].virtual_addr
                    <= virt_offset && virt_offset - segments@[j].virtual_addr
                    < segments@[j].mem_size),
        decreases segments@.len() - i,
    {
        let program_header = segments[i];
        if program_header.type_ == PT_LOAD {
            if program_header.virtual_addr <= virt_offset {
                let offset_in_segment = virt_offset - program_header.virtual_addr;
                if offset_in_segment < program_header.mem_size {
                    assert(segments@[i as int].is_load());
                    return Ok(());
                }
            }
        }
        i += 1;
    }
    Err(LoadError::OffsetNotInLoad)
}

impl<'a> Inner<'a> {
    /// The virtual address of the address `address` of the file.
    fn moved(&self, address: u64) -> (r: Option<VirtAddr>)
        ensures
            r.is_some() == moved_address(self.virtual_address_offset@, address as int).is_some(),
            r matches Some(a) ==> Some(a@) == moved_address(
                self.virtual_address_offset@,
                address as int,
            ) && a.wf(),
    {
        match self.virtual_address_offset.checked_apply(address) {
            Some(a) => VirtAddr::try_new(a),
            None => None,
        }
    }

    /// Reads the relocation with index `idx` of the table at `relocation_table`
    /// through the mappings of the kernel's address space.
    pub fn read_relocation(&self, page_table: &AddressSpace, relocation_table: u64, idx: u64) -> (r:
        Result<Rela, LoadError>)
        requires
            self.wf(),
            page_table.wf(),
        ensures
            r == relocation_read(
                page_table@,
                self.image(),
                self.virtual_address_offset@,
                relocation_table,
                idx as int,
            ),
    {
        proof {
            reveal(relocation_read);
        }
        if idx > (u64::MAX - relocation_table) / RELA_SIZE {
            assert(relocation_table + RELA_SIZE * idx > u64::MAX) by (nonlinear_arith)
                requires
                    idx > (u64::MAX - relocation_table) / (RELA_SIZE as int),
                    RELA_SIZE == 24,
            ;
            return Err(LoadError::AddressOutOfRange);
        }
        assert(relocation_table + RELA_SIZE * idx <= u64::MAX) by (nonlinear_arith)
            requires
                idx <= (u64::MAX - relocation_table) / (RELA_SIZE as int),
                RELA_SIZE == 24,
        ;
        let offset: u64 = relocation_table + RELA_SIZE * idx;
        let addr = match self.moved(offset) {
            Some(addr) => addr,
            None => {
                return Err(LoadError::AddressOutOfRange);
            },
        };
        match self.copy_from(page_table, addr, RELA_SIZE as usize) {
            Ok(buf) => Ok(Rela::decode(buf.as_slice())),
            Err(e) => Err(e),
        }
    }

    /// Applies the relocation `rela`; see `relocation_applied`.
    pub fn apply_relocation<D: LegacyMemoryRegion>(
        &self,
        page_table: &mut AddressSpace,
        frame_allocator: &mut LegacyFrameAllocator<D>,
        rela: Rela,
        segments: &Vec<ProgramHeader>,
    ) -> (r: Result<(), LoadError>)
        requires
            self.wf(),
            old(page_table).wf(),
            old(frame_allocator).wf(),
        ensures
            final(page_table).wf(),
            final(frame_allocator).wf(),
            final(frame_allocator)@.regions == old(frame_allocator)@.regions,
            ended_as(
                r,
                state_of(final(page_table), final(frame_allocator)),
                relocation_applied(
                    state_of(old(page_table), old(frame_allocator)),
                    self.image(),
                    self.virtual_address_offset@,
                    segments@,
                    rela,
                ),
            ),
    {
        proof {
            reveal(relocation_applied);
        }
        if rela.get_symbol_table_index() != 0 || rela.get_type() != R_X86_64_RELATIVE {
            return Err(LoadError::UnsupportedRelocation);
        }
        match check_is_in_load(segments, rela.get_offset()) {
            Ok(()) => {},
            Err(e) => {
                return Err(e);
            },
        }
        let addr = match self.moved(rela.get_offset()) {
            Some(addr) => addr,
            None => {
                return Err(LoadError::AddressOutOfRange);
            },
        };
        let value = match self.virtual_address_offset.checked_apply(rela.get_addend()) {
            Some(value) => value,
            None => {
                return Err(LoadError::AddressOutOfRange);
            },
        };
        let bytes = u64_to_le_bytes(value);
        self.copy_to(page_table, frame_allocator, addr, bytes.as_slice())
    }

    /// Applies the relocations that the dynamic section in `segment` names;
    /// see `dynamic_segment_handled`.
    pub fn handle_dynamic_segment<D: LegacyMemoryRegion>(
        &self,
        page_table: &mut AddressSpace,
        frame_allocator: &mut LegacyFrameAllocator<D>,
        segment: &ProgramHeader,
        elf_file: &ElfFile<'a>,
        segments: &Vec<ProgramHeader>,
    ) -> (r: Result<(), LoadError>)
        requires
            self.wf(),
            old(page_table).wf(),
            old(frame_allocator).wf(),
            elf_file.input@ == self.kernel@,
        ensures
            final(page_table).wf(),
            final(frame_allocator).wf(),
            final(frame_allocator)@.regions == old(frame_allocator)@.regions,
            ended_as(
                r,
                state_of(final(page_table), final(frame_allocator)),
                dynamic_segment_handled(
                    state_of(old(page_table), old(frame_allocator)),
                    self.image(),
                    self.virtual_address_offset@,
                    elf_file.header,
                    segments@,
                    *segment,
                ),
            ),
    {
        let entries = match elf_file.dynamic_entries(segment) {
            Ok(entries) => entries,
            Err(e) => {
                return Err(e);
            },
        };
        let table = match find_rela_table(&entries) {
            Ok(Some(table)) => table,
            Ok(None) => {
                return Ok(());
            },
            Err(e) => {
                return Err(e);
            },
        };
        if table.entry_size != RELA_SIZE {
            return Err(LoadError::UnsupportedRelocation);
        }
        let num_entries: u64 = table.total_size / RELA_SIZE;
        let ghost start = state_of(page_table, frame_allocator);
        let mut idx: u64 = 0;
        proof {
            lemma_relocations_applied_step(
                start,
                self.image(),
                self.virtual_address_offset@,
                segments@,
                table.offset,
                0,
            );
        }
        while idx < num_entries
            invariant
                self.wf(),
                page_table.wf(),
                frame_allocator.wf(),
                idx <= num_entries,
                num_entries == table.total_size / RELA_SIZE,
                table.entry_size == RELA_SIZE,
                dynamic_entries_of(self.image().bytes, elf_file.header, *segment) == Ok::<
                    Seq<DynamicEntry>,
                    LoadError,
                >(entries@),
                rela_table_of(entries@) == Ok::<Option<RelaTable>, LoadError>(Some(table)),
                start == state_of(old(page_table), old(frame_allocator)),
                frame_allocator@.regions == start.allocator.regions,
                relocations_applied(
                    start,
                    self.image(),
                    self.virtual_address_offset@,
                    segments@,
                    table.offset,
                    idx as nat,
                ) == Ok::<LoadState<D>, LoadError>(state_of(page_table, frame_allocator)),
            decreases num_entries - idx,
        {
            proof {
                lemma_relocations_applied_fails(
                    start,
                    self.image(),
                    self.virtual_address_offset@,
                    segments@,
                    table.offset,
                    num_entries as nat,
                    (idx + 1) as nat,
                );
                lemma_relocations_applied_step(
                    start,
                    self.image(),
                    self.virtual_address_offset@,
                    segments@,
                    table.offset,
                    idx as nat,
                );
            }
            let rela = match self.read_relocation(page_table, table.offset, idx) {
                Ok(rela) => rela,
                Err(e) => {
                    return Err(e);
                },
            };
            match self.apply_relocation(page_table, frame_allocator, rela, segments) {
                Ok(()) => {},
                Err(e) => {
                    return Err(e);
                },
            }
            idx += 1;
        }
        Ok(())
    }
}

} // verus!
