use vstd::prelude::*;
use vstd::arithmetic::power2::is_pow2;
use crate::addr::{
    canonical_form, p4_index_of, p4_start, PageTableIndex, VirtAddr, LEVEL_4_SIZE,
};
use crate::elf::ProgramHeader;
use crate::kernel::VirtualAddressOffset;

verus! {

/// Which entries of the level 4 page table are taken. An entry that is taken
/// stays taken.
pub struct Entries {
    entry_state: [bool; 512],
}

impl View for Entries {
    type V = Seq<bool>;

    closed spec fn view(&self) -> Seq<bool> {
        self.entry_state@
    }
}

/// `state` with the entries from `first` to `last` taken as well.
pub open spec fn marked(state: Seq<bool>, first: int, last: int) -> Seq<bool> {
    Seq::new(state.len(), |i: int| state[i] || first <= i <= last)
}

/// Whether the `num` entries from `index` on exist and are all free.
pub open spec fn is_free_run(state: Seq<bool>, index: int, num: int) -> bool {
    &&& 0 <= index
    &&& index + num <= state.len()
    &&& forall|i: int| index <= i < index + num ==> !#[trigger] state[i]
}

/// Whether `index` is where the first run of `num` free entries starts.
pub open spec fn is_first_free_run(state: Seq<bool>, index: int, num: int) -> bool {
    &&& is_free_run(state, index, num)
    &&& forall|j: int| 0 <= j < index ==> !#[trigger] is_free_run(state, j, num)
}

/// Whether there is a run of `num` free entries.
pub open spec fn has_free_run(state: Seq<bool>, num: int) -> bool {
    exists|index: int| #[trigger] is_free_run(state, index, num)
}

/// The number of level 4 entries that `size` bytes take.
pub open spec fn entries_for(size: int) -> int {
    (size + (LEVEL_4_SIZE - 1)) / (LEVEL_4_SIZE as int)
}

/// The address at which the range of `size` bytes from `address` on starts,
/// and the address of its last byte, where both are virtual addresses.
pub open spec fn range_bounds(address: u64, size: u64) -> Option<(u64, u64)> {
    match canonical_form(address) {
        Some(start) => {
            if start + size <= u64::MAX && canonical_form((start + size) as u64).is_some() {
                let end = canonical_form((start + size) as u64).unwrap();
                if end >= 1 && canonical_form((end - 1) as u64).is_some() {
                    Some((start, canonical_form((end - 1) as u64).unwrap()))
                } else {
                    None
                }
            } else {
                None
            }
        },
        None => None,
    }
}

/// `state` with the level 4 entries taken that the range of `size` bytes from
/// `address` on touches.
pub open spec fn marked_range(state: Seq<bool>, address: u64, size: u64) -> Seq<bool> {
    let (start, end_inclusive) = range_bounds(address, size).unwrap();
    marked(state, p4_index_of(start as int), p4_index_of(end_inclusive as int))
}

/// Whether the range of a segment can be marked: the segment is empty, or its
/// range, moved by `offset`, has bounds.
pub open spec fn segment_markable(segment: ProgramHeader, offset: int) -> bool {
    segment.mem_size > 0 ==> {
        &&& VirtualAddressOffset::moved(offset, segment.virtual_addr as int).is_some()
        &&& range_bounds(
            VirtualAddressOffset::moved(offset, segment.virtual_addr as int).unwrap(),
            segment.mem_size,
        ).is_some()
    }
}

/// `state` with the level 4 entries taken that the segment touches when it is
/// moved by `offset`.
pub open spec fn marked_segment(state: Seq<bool>, segment: ProgramHeader, offset: int) -> Seq<
    bool,
> {
    if segment.mem_size > 0 {
        marked_range(
            state,
            VirtualAddressOffset::moved(offset, segment.virtual_addr as int).unwrap(),
            segment.mem_size,
        )
    } else {
        state
    }
}

/// `state` with the level 4 entries taken that the segments touch.
pub open spec fn marked_segments(state: Seq<bool>, segments: Seq<ProgramHeader>, offset: int) -> Seq<
    bool,
>
    decreases segments.len(),
{
    if segments.len() == 0 {
        state
    } else {
        marked_segment(
            marked_segments(state, segments.drop_last(), offset),
            segments.last(),
            offset,
        )
    }
}

/// Where the first run of `num` free entries starts.
pub open spec fn first_free_run(state: Seq<bool>, num: int) -> int {
    choose|index: int| is_first_free_run(state, index, num)
}

/// The state after the requests for `requests[0]`, `requests[1]`, .. free
/// entries were served in turn by `get_free_entries`.
pub open spec fn served(state: Seq<bool>, requests: Seq<int>) -> Seq<bool>
    decreases requests.len(),
{
    if requests.len() == 0 {
        state
    } else {
        let before = served(state, requests.drop_last());
        let index = first_free_run(before, requests.last());
        marked(before, index, index + requests.last() - 1)
    }
}

/// Whether each of the requests can be served in turn: each asks for at least
/// one entry and finds a run of free entries that is long enough.
pub open spec fn servable(state: Seq<bool>, requests: Seq<int>) -> bool
    decreases requests.len(),
{
    requests.len() == 0 || {
        &&& servable(state, requests.drop_last())
        &&& requests.last() >= 1
        &&& has_free_run(served(state, requests.drop_last()), requests.last())
    }
}

/// The index that request `i` is answered with.
pub open spec fn answer(state: Seq<bool>, requests: Seq<int>, i: int) -> int {
    first_free_run(served(state, requests.subrange(0, i)), requests[i])
}

/// There is one first run of free entries where there is a run at all.
pub proof fn lemma_first_free_run(state: Seq<bool>, num: int)
    requires
        has_free_run(state, num),
    ensures
        is_first_free_run(state, first_free_run(state, num), num),
        forall|index: int|
            is_first_free_run(state, index, num) ==> index == first_free_run(state, num),
{
    let some = choose|index: int| #[trigger] is_free_run(state, index, num);
    lemma_least_free_run(state, num, some);
    let first = first_free_run(state, num);
    assert forall|index: int| is_first_free_run(state, index, num) implies index == first by {
        if index < first {
            assert(!is_free_run(state, index, num));
        } else if first < index {
            assert(!is_free_run(state, first, num));
        }
    }
}

/// Below a run of free entries there is a first one.
proof fn lemma_least_free_run(state: Seq<bool>, num: int, index: int)
    requires
        is_free_run(state, index, num),
    ensures
        exists|first: int| is_first_free_run(state, first, num),
    decreases index,
{
    if exists|j: int| 0 <= j < index && #[trigger] is_free_run(state, j, num) {
        let j = choose|j: int| 0 <= j < index && #[trigger] is_free_run(state, j, num);
        lemma_least_free_run(state, num, j);
    } else {
        assert(is_first_free_run(state, index, num));
    }
}

/// Serving requests keeps the number of entries, and keeps taken what was taken.
pub proof fn lemma_served_keeps(state: Seq<bool>, requests: Seq<int>, count: int)
    requires
        0 <= count <= requests.len(),
    ensures
        served(state, requests).len() == state.len(),
        forall|i: int|
            0 <= i < state.len() && served(state, requests.subrange(0, count))[i] ==> served(
                state,
                requests,
            )[i],
    decreases requests.len(),
{
    if requests.len() == 0 {
        assert(requests.subrange(0, count) =~= requests);
    } else if count == requests.len() {
        assert(requests.subrange(0, count) =~= requests);
        lemma_served_keeps(state, requests.drop_last(), 0);
    } else {
        lemma_served_keeps(state, requests.drop_last(), count);
        assert(requests.drop_last().subrange(0, count) =~= requests.subrange(0, count));
    }
}

/// The runs that `get_free_entries` hands out, one call after the other, have
/// no entry in common, and none of them holds the first entry of the table.
pub proof fn lemma_free_entries_disjoint(state: Seq<bool>, requests: Seq<int>, i: int, j: int)
    requires
        state.len() == 512,
        state[0],
        servable(state, requests),
        0 <= i < j < requests.len(),
    ensures
        answer(state, requests, i) >= 1,
        answer(state, requests, j) >= 1,
        answer(state, requests, i) + requests[i] <= answer(state, requests, j) || answer(
            state,
            requests,
            j,
        ) + requests[j] <= answer(state, requests, i),
{
    lemma_servable_prefix(state, requests, i + 1);
    lemma_servable_prefix(state, requests, j + 1);
    let upto_i = requests.subrange(0, i);
    let with_i = requests.subrange(0, i + 1);
    let upto_j = requests.subrange(0, j);
    let with_j = requests.subrange(0, j + 1);
    assert(with_i.drop_last() =~= upto_i);
    assert(with_j.drop_last() =~= upto_j);
    assert(with_i.last() == requests[i]);
    assert(with_j.last() == requests[j]);
    lemma_served_keeps(state, upto_i, 0);
    lemma_served_keeps(state, upto_j, 0);
    assert(upto_i.subrange(0, 0) =~= Seq::<int>::empty());
    assert(upto_j.subrange(0, 0) =~= Seq::<int>::empty());
    let before_i = served(state, upto_i);
    let before_j = served(state, upto_j);
    lemma_first_free_run(before_i, requests[i]);
    lemma_first_free_run(before_j, requests[j]);
    let a = answer(state, requests, i);
    let b = answer(state, requests, j);
    assert(before_i[0] && before_j[0]);
    if a == 0 {
        assert(!before_i[0]);
    }
    if b == 0 {
        assert(!before_j[0]);
    }
    // What request `i` took is still taken when request `j` is served.
    lemma_served_keeps(state, upto_j, i + 1);
    assert(upto_j.subrange(0, i + 1) =~= with_i);
    if !(a + requests[i] <= b || b + requests[j] <= a) {
        let common = if a <= b {
            b
        } else {
            a
        };
        assert(served(state, with_i)[common]);
        assert(before_j[common]);
        assert(!before_j[common]);
    }
}

/// Where requests can be served, so can the first `count` of them.
pub proof fn lemma_servable_prefix(state: Seq<bool>, requests: Seq<int>, count: int)
    requires
        servable(state, requests),
        0 <= count <= requests.len(),
    ensures
        servable(state, requests.subrange(0, count)),
    decreases requests.len(),
{
    if count == requests.len() {
        assert(requests.subrange(0, count) =~= requests);
    } else {
        lemma_servable_prefix(state, requests.drop_last(), count);
        assert(requests.drop_last().subrange(0, count) =~= requests.subrange(0, count));
    }
}

/// Whether the range of `size` bytes from `address` on has bounds; see
/// `range_bounds`.
pub fn range_has_bounds(address: u64, size: u64) -> (r: bool)
    ensures
        r == range_bounds(address, size).is_some(),
{
    let start = match VirtAddr::try_new(address) {
        Some(start) => start,
        None => {
            return false;
        },
    };
    let end = match start.as_u64().checked_add(size) {
        Some(sum) => match VirtAddr::try_new(sum) {
            Some(end) => end,
            None => {
                return false;
            },
        },
        None => {
            return false;
        },
    };
    if end.as_u64() < 1 {
        return false;
    }
    VirtAddr::try_new(end.as_u64() - 1).is_some()
}

/// Whether the range of `segment` can be marked when the image is moved by
/// `offset`; see `segment_markable`.
pub fn is_markable(segment: &ProgramHeader, offset: VirtualAddressOffset) -> (r: bool)
    ensures
        r == segment_markable(*segment, offset@),
{
    if segment.mem_size > 0 {
        match offset.checked_apply(segment.virtual_addr) {
            Some(address) => range_has_bounds(address, segment.mem_size),
            None => false,
        }
    } else {
        true
    }
}

impl Entries {
    /// The invariant of the type: the first entry, under which the low
    /// addresses are mapped to themselves, is always taken.
    pub open spec fn wf(&self) -> bool {
        self@.len() == 512 && self@[0]
    }

    /// A tracker in which only the first entry is taken.
    pub fn new() -> (r: Self)
        ensures
            r.wf(),
            forall|i: int| 1 <= i < 512 ==> !r@[i],
    {
        let mut used = Entries { entry_state: [false;512] };
        used.entry_state[0] = true;
        used
    }

    /// Whether entry `index` is taken.
    pub fn is_used(&self, index: PageTableIndex) -> (r: bool)
        requires
            index.wf(),
            self@.len() == 512,
        ensures
            r == self@[index@ as int],
    {
        self.entry_state[index.as_u16() as usize]
    }

    /// Takes the entry `p4_index`.
    fn mark_p4_index_as_used(&mut self, p4_index: PageTableIndex)
        requires
            p4_index.wf(),
            old(self)@.len() == 512,
        ensures
            final(self)@ == old(self)@.update(p4_index@ as int, true),
    {
        self.entry_state[p4_index.as_u16() as usize] = true;
    }

    /// Takes every entry that the range of `size` bytes from `address` on
    /// touches.
    fn mark_range_as_used(&mut self, address: u64, size: u64)
        requires
            old(self)@.len() == 512,
            range_bounds(address, size).is_some(),
        ensures
            final(self)@ == marked_range(old(self)@, address, size),
    {
        let start = VirtAddr::new(address);
        let end = VirtAddr::new(start.as_u64() + size);
        let end_inclusive = VirtAddr::new(end.as_u64() - 1);
        let first: u16 = start.p4_index().as_u16();
        let last: u16 = end_inclusive.p4_index().as_u16();
        let mut p4_index: u16 = first;
        assert(self@ =~= marked(old(self)@, first as int, first - 1));
        while p4_index <= last
            invariant
                self@.len() == 512,
                first <= p4_index <= last + 1 || (first > last && p4_index == first),
                last < 512,
                self@ == marked(old(self)@, first as int, p4_index - 1),
            decreases last + 1 - p4_index,
        {
            self.mark_p4_index_as_used(PageTableIndex::new(p4_index));
            assert(self@ =~= marked(old(self)@, first as int, p4_index as int));
            p4_index += 1;
        }
        assert(self@ =~= marked(old(self)@, first as int, last as int));
    }

    /// Takes every entry that a segment touches when the image is moved by
    /// `virtual_address_offset`.
    pub fn mark_segments(
        &mut self,
        segments: &Vec<ProgramHeader>,
        virtual_address_offset: VirtualAddressOffset,
    )
        requires
            old(self)@.len() == 512,
            forall|i: int|
                0 <= i < segments@.len() ==> segment_markable(
                    #[trigger] segments@[i],
                    virtual_address_offset@,
                ),
        ensures
            final(self)@ == marked_segments(old(self)@, segments@, virtual_address_offset@),
            final(self)@.len() == 512,
            old(self).wf() ==> final(self).wf(),
            forall|i: int| 0 <= i < 512 && old(self)@[i] ==> final(self)@[i],
    {
        let mut i: usize = 0;
        assert(segments@.subrange(0, 0) =~= Seq::<ProgramHeader>::empty());
        while i < segments.len()
            invariant
                i <= segments@.len(),
                self@.len() == 512,
                forall|j: int|
                    0 <= j < segments@.len() ==> segment_markable(
                        #[trigger] segments@[j],
                        virtual_address_offset@,
                    ),
                self@ == marked_segments(
                    old(self)@,
                    segments@.subrange(0, i as int),
                    virtual_address_offset@,
                ),
                forall|j: int| 0 <= j < 512 && old(self)@[j] ==> self@[j],
            decreases segments@.len() - i,
        {
            let segment = segments[i];
            proof {
                assert(segments@.subrange(0, i + 1).drop_last() =~= segments@.subrange(0, i as int));
                assert(segments@.subrange(0, i + 1).last() == segment);
                assert(segment_markable(segments@[i as int], virtual_address_offset@));
            }
            if segment.mem_size > 0 {
                self.mark_range_as_used(
                    virtual_address_offset.apply(segment.virtual_addr),
                    segment.mem_size,
                );
            }
            i += 1;
        }
        assert(segments@.subrange(0, i as int) =~= segments@);
    }

    /// Where the first run of `num` free entries starts, if there is one.
    fn find_free_entries(&self, num: usize) -> (r: Option<usize>)
        requires
            self@.len() == 512,
            num >= 1,
        ensures
            r.is_some() == has_free_run(self@, num as int),
            r matches Some(index) ==> is_first_free_run(self@, index as int, num as int),
    {
        if num > 512 {
            assert forall|index: int| !#[trigger] is_free_run(self@, index, num as int) by {}
            return None;
        }
        let mut index: usize = 0;
        while index + num <= 512
            invariant
                self@.len() == 512,
                1 <= num <= 512,
                index <= 512,
                forall|j: int| 0 <= j < index ==> !#[trigger] is_free_run(self@, j, num as int),
            decreases 512 - index,
        {
            let mut taken: bool = false;
            let mut k: usize = 0;
            while k < num
                invariant
                    self@.len() == 512,
                    index + num <= 512,
                    k <= num,
                    taken ==> exists|i: int| index <= i < index + num && self@[i],
                    !taken ==> forall|i: int| index <= i < index + k ==> !#[trigger] self@[i],
                decreases num - k,
            {
                if self.entry_state[index + k] {
                    taken = true;
                    assert(self@[index + k]);
                }
                k += 1;
            }
            if !taken {
                assert(is_free_run(self@, index as int, num as int));
                return Some(index);
            }
            index += 1;
        }
        assert forall|j: int| !#[trigger] is_free_run(self@, j, num as int) by {}
        None
    }

    /// Takes the first run of `num` free entries and returns where it starts.
    pub fn get_free_entries(&mut self, num: u64) -> (r: PageTableIndex)
        requires
            old(self)@.len() == 512,
            num >= 1,
            has_free_run(old(self)@, num as int),
        ensures
            r.wf(),
            is_first_free_run(old(self)@, r@ as int, num as int),
            final(self)@ == marked(old(self)@, r@ as int, r@ + num - 1),
            old(self).wf() ==> final(self).wf() && r@ >= 1,
    {
        self.try_get_free_entries(num).unwrap()
    }

    /// Takes the first run of `num` free entries and returns where it starts;
    /// takes nothing where `num` is zero or no such run exists.
    pub fn try_get_free_entries(&mut self, num: u64) -> (r: Option<PageTableIndex>)
        requires
            old(self)@.len() == 512,
        ensures
            r.is_some() == (num >= 1 && has_free_run(old(self)@, num as int)),
            r matches Some(index) ==> index.wf() && is_first_free_run(
                old(self)@,
                index@ as int,
                num as int,
            ) && final(self)@ == marked(old(self)@, index@ as int, index@ + num - 1) && (old(
                self,
            ).wf() ==> index@ >= 1),
            r.is_none() ==> final(self)@ == old(self)@,
            old(self).wf() ==> final(self).wf(),
            final(self)@.len() == 512,
    {
        if num == 0 {
            return None;
        }
        if num > 512 {
            assert forall|index: int| !#[trigger] is_free_run(self@, index, num as int) by {}
            return None;
        }
        let count: usize = crate::convert::usize_from_u64(num);
        match self.find_free_entries(count) {
            Some(index) => {
                assert(is_free_run(self@, index as int, num as int));
                assert(self@[0] ==> index >= 1) by {
                    if index == 0 {
                        assert(!self@[0]);
                    }
                }
                let mut i: usize = 0;
                assert(self@ =~= marked(old(self)@, index as int, index - 1));
                while i < count
                    invariant
                        self@.len() == 512,
                        index + count <= 512,
                        i <= count,
                        self@ == marked(old(self)@, index as int, index + i - 1),
                    decreases count - i,
                {
                    self.entry_state[index + i] = true;
                    assert(self@ =~= marked(old(self)@, index as int, index + i));
                    i += 1;
                }
                Some(PageTableIndex::new(index as u16))
            },
            None => None,
        }
    }

    /// Takes as many free level 4 entries as `size` bytes need and returns the
    /// address at which they start. `alignment` has to be a power of two; the
    /// address is a multiple of the size of a level 4 entry.
    pub fn get_free_address(&mut self, size: u64, alignment: u64) -> (r: VirtAddr)
        requires
            old(self)@.len() == 512,
            is_pow2(alignment as int),
            size + (LEVEL_4_SIZE - 1) <= u64::MAX,
            entries_for(size as int) >= 1,
            has_free_run(old(self)@, entries_for(size as int)),
        ensures
            r.wf(),
            exists|index: int|
                #![trigger p4_start(index)]
                is_first_free_run(old(self)@, index, entries_for(size as int)) && r@ == p4_start(
                    index,
                ) && final(self)@ == marked(
                    old(self)@,
                    index,
                    index + entries_for(size as int) - 1,
                ) && (old(self).wf() ==> index >= 1),
            old(self).wf() ==> final(self).wf(),
            final(self)@.len() == 512,
    {
        let level_4_entries = (size + (LEVEL_4_SIZE - 1)) / LEVEL_4_SIZE;
        let index = self.get_free_entries(level_4_entries);
        assert(is_first_free_run(old(self)@, index@ as int, entries_for(size as int)));
        index.start_address()
    }

    /// As `get_free_address`, but takes nothing and returns nothing where that
    /// would fail: `alignment` is no power of two, `size` is zero or too large
    /// to round up, or no run of free entries is long enough.
    pub fn try_get_free_address(&mut self, size: u64, alignment: u64) -> (r: Option<VirtAddr>)
        requires
            old(self)@.len() == 512,
        ensures
            r.is_some() == (is_pow2(alignment as int) && size + (LEVEL_4_SIZE - 1) <= u64::MAX
                && entries_for(size as int) >= 1 && has_free_run(
                old(self)@,
                entries_for(size as int),
            )),
            r matches Some(a) ==> a.wf() && exists|index: int|
                #![trigger p4_start(index)]
                is_first_free_run(old(self)@, index, entries_for(size as int)) && a@ == p4_start(
                    index,
                ) && final(self)@ == marked(
                    old(self)@,
                    index,
                    index + entries_for(size as int) - 1,
                ) && (old(self).wf() ==> index >= 1),
            r.is_none() ==> final(self)@ == old(self)@,
            old(self).wf() ==> final(self).wf(),
            final(self)@.len() == 512,
    {
        if !crate::addr::is_power_of_two(alignment) {
            return None;
        }
        if size > u64::MAX - (LEVEL_4_SIZE - 1) {
            return None;
        }
        let level_4_entries = (size + (LEVEL_4_SIZE - 1)) / LEVEL_4_SIZE;
        match self.try_get_free_entries(level_4_entries) {
            Some(index) => {
                assert(is_first_free_run(old(self)@, index@ as int, entries_for(size as int)));
                Some(index.start_address())
            },
            None => None,
        }
    }
}

} // verus!
