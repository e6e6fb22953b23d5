use vstd::prelude::*;
use crate::addr::{is_canonical, lemma_aligned_down, PAGE_SIZE, PHYS_LIMIT};
use crate::error::LoadError;
use crate::frame_allocator::LegacyMemoryRegion;
use crate::kernel::laws::same_but_flags;
use crate::kernel::memory::{
    byte_address, byte_read, byte_written, bytes_read, bytes_written, made_mutable, page_bytes, page_of, readable, Image, LoadState,
};
use crate::paging::{space_wf, Mapping};

verus! {

/// Whether the mappings are well formed and the frame allocator is valid.
pub open spec fn state_ok<D: LegacyMemoryRegion>(state: LoadState<D>) -> bool {
    space_wf(state.space) && state.allocator.wf()
}

/// Whether every page shows the same in two spaces.
pub open spec fn same_contents(before: Map<u64, Mapping>, after: Map<u64, Mapping>, image: Image) -> bool {
    forall|p: u64| #[trigger] page_bytes(after, image, p) == page_bytes(before, image, p)
}

/// What a page of a well-formed space shows is a page's worth of bytes.
pub proof fn lemma_page_bytes_len(space: Map<u64, Mapping>, image: Image, page: u64)
    requires
        space_wf(space),
        page_bytes(space, image, page).is_some(),
    ensures
        page_bytes(space, image, page).unwrap().len() == PAGE_SIZE,
{
    assert(space.contains_key(page));
}

/// The index of an address within its page lies within the page.
pub proof fn lemma_offset_in_page(addr: u64)
    ensures
        0 <= addr - page_of(addr) < PAGE_SIZE,
        0 <= page_of(addr) <= addr,
{
    lemma_aligned_down(addr as int, PAGE_SIZE as int);
}

/// Making a page safe to write changes nothing of what any page shows.
pub proof fn lemma_made_mutable<D: LegacyMemoryRegion>(
    state: LoadState<D>,
    image: Image,
    page: u64,
)
    requires
        state_ok(state),
        made_mutable(state, image, page) is Ok,
    ensures
        state_ok(made_mutable(state, image, page).unwrap().0),
        same_contents(state.space, made_mutable(state, image, page).unwrap().0.space, image),
        forall|p: u64|
            state.space.contains_key(p) == #[trigger] made_mutable(
                state,
                image,
                page,
            ).unwrap().0.space.contains_key(p),
        made_mutable(state, image, page).unwrap().0.space.contains_key(page),
        made_mutable(state, image, page).unwrap().0.allocator.regions == state.allocator.regions,
{
    let after = made_mutable(state, image, page).unwrap().0;
    assert(state.space.contains_key(page));
    if !state.space[page].flags.copied {
        state.allocator.lemma_allocate();
        lemma_page_bytes_len(state.space, image, page);
        assert forall|p: u64| #[trigger]
            page_bytes(after.space, image, p) == page_bytes(state.space, image, p) by {
            if p == page {
            } else {
                assert(after.space.contains_key(p) == state.space.contains_key(p));
            }
        }
        assert forall|p: u64| #[trigger] after.space.contains_key(p) implies {
            &&& is_canonical(p as int)
            &&& p % PAGE_SIZE == 0
            &&& after.space[p].frame < PHYS_LIMIT
            &&& after.space[p].frame % PAGE_SIZE == 0
            &&& after.space[p].data matches Some(d) ==> d.len() == PAGE_SIZE
            &&& after.space[p].copy_of matches Some(f) ==> f < PHYS_LIMIT && f % PAGE_SIZE == 0
        } by {
            if p != page {
                assert(state.space.contains_key(p));
            }
        }
    }
}

/// A page that is mapped can be made safe to write whenever it carries the
/// mark or the allocator has a frame left, whatever is known of what it
/// shows. A page that carries the mark keeps its frame, and no frame is taken.
/// Any other page gets the frame that the allocator hands out next, the mark,
/// and the name of the frame that it is a copy of. Once a page was made safe
/// to write, making it so again gives the same frame and changes nothing.
pub proof fn lemma_made_mutable_once<D: LegacyMemoryRegion>(
    state: LoadState<D>,
    image: Image,
    page: u64,
)
    requires
        state.space.contains_key(page),
        state.space[page].flags.copied || state.allocator.allocate().0 is Some,
    ensures
        made_mutable(state, image, page) is Ok,
        ({
            let (after, frame) = made_mutable(state, image, page).unwrap();
            &&& after.space.contains_key(page)
            &&& after.space[page].frame == frame
            &&& after.space[page].flags.copied
            &&& state.space[page].flags.copied ==> after == state
            &&& !state.space[page].flags.copied ==> {
                &&& Some(frame) == state.allocator.allocate().0
                &&& after.allocator == state.allocator.allocate().1
                &&& after.space[page].flags == crate::kernel::memory::marked_copied(
                    state.space[page].flags,
                )
                &&& after.space[page].copy_of == Some(
                    crate::kernel::memory::copy_source(state.space[page]),
                )
                &&& page_bytes(after.space, image, page) == page_bytes(state.space, image, page)
            }
            &&& made_mutable(after, image, page) == Ok::<(LoadState<D>, u64), LoadError>(
                (after, frame),
            )
        }),
{
}

/// Writing a byte makes the byte read as what was written, and changes no
/// other byte.
pub proof fn lemma_byte_written<D: LegacyMemoryRegion>(
    state: LoadState<D>,
    image: Image,
    addr: u64,
    value: u8,
)
    requires
        state_ok(state),
        byte_written(state, image, addr, value) is Ok,
    ensures
        state_ok(byte_written(state, image, addr, value).unwrap()),
        byte_read(byte_written(state, image, addr, value).unwrap().space, image, addr) == Some(value),
        forall|other: u64|
            other != addr ==> #[trigger] byte_read(
                byte_written(state, image, addr, value).unwrap().space,
                image,
                other,
            ) == byte_read(state.space, image, other),
        byte_written(state, image, addr, value).unwrap().allocator.regions
            == state.allocator.regions,
{
    let page = page_of(addr);
    let (s, _) = made_mutable(state, image, page).unwrap();
    let after = byte_written(state, image, addr, value).unwrap();
    lemma_made_mutable(state, image, page);
    lemma_offset_in_page(addr);
    let d = page_bytes(s.space, image, page).unwrap();
    lemma_page_bytes_len(s.space, image, page);
    assert(s.space.contains_key(page));
    assert(d.len() == PAGE_SIZE);
    assert forall|p: u64| #[trigger] after.space.contains_key(p) implies {
        &&& is_canonical(p as int)
        &&& p % PAGE_SIZE == 0
        &&& after.space[p].frame < PHYS_LIMIT
        &&& after.space[p].frame % PAGE_SIZE == 0
        &&& after.space[p].data matches Some(d) ==> d.len() == PAGE_SIZE
        &&& after.space[p].copy_of matches Some(f) ==> f < PHYS_LIMIT && f % PAGE_SIZE == 0
    } by {
        assert(s.space.contains_key(p));
    }
    assert forall|other: u64| other != addr implies #[trigger] byte_read(after.space, image, other)
        == byte_read(state.space, image, other) by {
        lemma_offset_in_page(other);
        let q = page_of(other);
        assert(page_bytes(s.space, image, q) == page_bytes(state.space, image, q));
        if q == page {
            assert(page_bytes(after.space, image, q) == Some(d.update(addr - page, Some(value))));
        } else {
            assert(page_bytes(after.space, image, q) == page_bytes(s.space, image, q));
        }
    }
}

/// Within a run of at most a page's worth of bytes, different bytes have
/// different addresses.
pub proof fn lemma_byte_addresses_differ(addr: u64, i: int, j: int)
    requires
        0 <= i < j < PAGE_SIZE,
        byte_address(addr, i).is_some(),
        byte_address(addr, j).is_some(),
    ensures
        byte_address(addr, i) != byte_address(addr, j),
{
}

/// Writing bytes makes each of them read as what was written, and changes no
/// other byte.
pub proof fn lemma_bytes_written<D: LegacyMemoryRegion>(
    state: LoadState<D>,
    image: Image,
    addr: u64,
    bytes: Seq<u8>,
)
    requires
        state_ok(state),
        bytes.len() <= PAGE_SIZE,
        bytes_written(state, image, addr, bytes) is Ok,
    ensures
        state_ok(bytes_written(state, image, addr, bytes).unwrap()),
        forall|i: int|
            0 <= i < bytes.len() ==> (#[trigger] byte_address(addr, i)).is_some() && byte_read(
                bytes_written(state, image, addr, bytes).unwrap().space,
                image,
                byte_address(addr, i).unwrap(),
            ) == Some(bytes[i]),
        forall|other: u64|
            (forall|i: int| 0 <= i < bytes.len() ==> byte_address(addr, i) != Some(other))
                ==> #[trigger] byte_read(
                bytes_written(state, image, addr, bytes).unwrap().space,
                image,
                other,
            ) == byte_read(state.space, image, other),
        bytes_read(bytes_written(state, image, addr, bytes).unwrap().space, image, addr, bytes.len() as int)
            == Some(bytes),
        bytes_written(state, image, addr, bytes).unwrap().allocator.regions
            == state.allocator.regions,
    decreases bytes.len(),
{
    reveal(bytes_written);
    let after = bytes_written(state, image, addr, bytes).unwrap();
    if bytes.len() > 0 {
        let front = bytes.drop_last();
        let n = bytes.len() - 1;
        let s = bytes_written(state, image, addr, front).unwrap();
        lemma_bytes_written(state, image, addr, front);
        let a = byte_address(addr, n).unwrap();
        lemma_byte_written(s, image, a, bytes.last());
        assert forall|i: int| 0 <= i < bytes.len() implies (#[trigger] byte_address(addr, i)).is_some()
            && byte_read(after.space, image, byte_address(addr, i).unwrap()) == Some(bytes[i]) by {
            if i < n {
                assert(byte_address(addr, i).is_some());
                lemma_byte_addresses_differ(addr, i, n);
                assert(front[i] == bytes[i]);
                assert(byte_read(after.space, image, byte_address(addr, i).unwrap()) == byte_read(
                    s.space,
                    image,
                    byte_address(addr, i).unwrap(),
                ));
            }
        }
        assert forall|other: u64|
            (forall|i: int| 0 <= i < bytes.len() ==> byte_address(addr, i) != Some(
                other,
            )) implies #[trigger] byte_read(after.space, image, other) == byte_read(
            state.space,
            image,
            other,
        ) by {
            assert(byte_address(addr, n) != Some(other));
            assert(byte_read(after.space, image, other) == byte_read(s.space, image, other));
            assert forall|i: int| 0 <= i < front.len() implies byte_address(addr, i) != Some(
                other,
            ) by {}
        }
    }
    assert(readable(after.space, image, addr, bytes.len() as int));
    assert(bytes_read(after.space, image, addr, bytes.len() as int).unwrap() =~= bytes);
}

/// Where only flags change, every page shows what it showed.
pub proof fn lemma_same_but_flags_contents(
    before: Map<u64, Mapping>,
    after: Map<u64, Mapping>,
    image: Image,
)
    requires
        same_but_flags(before, after),
    ensures
        same_contents(before, after, image),
        forall|addr: u64| #[trigger] byte_read(after, image, addr) == byte_read(before, image, addr),
        forall|addr: u64, len: int| #[trigger]
            bytes_read(after, image, addr, len) == bytes_read(before, image, addr, len),
{
    assert forall|p: u64| #[trigger] page_bytes(after, image, p) == page_bytes(before, image, p) by {
        assert(before.contains_key(p) == after.contains_key(p));
        if after.contains_key(p) {
        }
    }
    assert forall|addr: u64| #[trigger]
        byte_read(after, image, addr) == byte_read(before, image, addr) by {
        assert(page_bytes(after, image, page_of(addr)) == page_bytes(before, image, page_of(addr)));
    }
    assert forall|addr: u64, len: int| #[trigger]
        bytes_read(after, image, addr, len) == bytes_read(before, image, addr, len) by {
        if readable(before, image, addr, len) {
            assert forall|i: int| 0 <= i < len implies (#[trigger] byte_address(addr, i)).is_some()
                && byte_read(after, image, byte_address(addr, i).unwrap()).is_some() by {
                assert(byte_read(after, image, byte_address(addr, i).unwrap()) == byte_read(
                    before,
                    image,
                    byte_address(addr, i).unwrap(),
                ));
            }
            assert(bytes_read(after, image, addr, len).unwrap() =~= bytes_read(
                before,
                image,
                addr,
                len,
            ).unwrap());
        }
        if readable(after, image, addr, len) {
            assert forall|i: int| 0 <= i < len implies (#[trigger] byte_address(addr, i)).is_some()
                && byte_read(before, image, byte_address(addr, i).unwrap()).is_some() by {
                assert(byte_read(after, image, byte_address(addr, i).unwrap()) == byte_read(
                    before,
                    image,
                    byte_address(addr, i).unwrap(),
                ));
            }
        }
    }
}

} // verus!
