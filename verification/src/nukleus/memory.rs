use vstd::prelude::*;
use crate::addr::{aligned_down, lemma_aligned_down, PhysAddr, PhysFrame, PAGE_SIZE, PHYS_LIMIT};
use crate::memory::{MemoryRegion, MemoryRegionKind, MemoryRegions};

verus! {

/// The kernel's allocator of frames: it hands out the frames of the usable
/// regions of the memory map that the boot loader left, in the order of the
/// map.
pub struct NukleusFrameAllocator {
    memory_map: MemoryRegions,
    next: usize,
}

/// The number of frames that are handed out from a region: one for every
/// 4096 bytes from its start on that start before its end.
pub open spec fn frames_in(region: MemoryRegion) -> int {
    if region.kind == MemoryRegionKind::Usable && region.start < region.end {
        (region.end - region.start + PAGE_SIZE - 1) / (PAGE_SIZE as int)
    } else {
        0
    }
}

/// The frame that is handed out as number `n`, counted from zero, from the
/// regions from `from` on.
pub open spec fn usable_frame(regions: Seq<MemoryRegion>, from: int, n: int) -> Option<u64>
    decreases regions.len() - from,
{
    if from < 0 || from >= regions.len() || n < 0 {
        None
    } else if n < frames_in(regions[from]) {
        Some(aligned_down(regions[from].start + n * PAGE_SIZE, PAGE_SIZE as int) as u64)
    } else {
        usable_frame(regions, from + 1, n - frames_in(regions[from]))
    }
}

impl NukleusFrameAllocator {
    /// The memory map that the frames are taken from.
    pub closed spec fn regions(&self) -> Seq<MemoryRegion> {
        self.memory_map@
    }

    /// The number of frames that were handed out or asked for in vain.
    pub closed spec fn position(&self) -> nat {
        self.next as nat
    }

    /// The invariant of the type: the usable regions lie within the physical
    /// address space.
    pub open spec fn wf(&self) -> bool {
        forall|i: int|
            0 <= i < self.regions().len() && (#[trigger] self.regions()[i]).kind
                == MemoryRegionKind::Usable ==> self.regions()[i].end <= PHYS_LIMIT
    }

    /// An allocator over `memory_map` that has handed out nothing. The caller
    /// vouches that the usable regions of the map are not in use.
    pub fn init(memory_map: MemoryRegions) -> (r: Self)
        ensures
            r.regions() == memory_map@,
            r.position() == 0,
    {
        NukleusFrameAllocator { memory_map, next: 0 }
    }

    /// Hands out the next frame of the usable regions; none when they are
    /// used up.
    pub fn allocate_frame(&mut self) -> (r: Option<PhysFrame>)
        requires
            old(self).wf(),
            old(self).position() < usize::MAX,
        ensures
            final(self).regions() == old(self).regions(),
            final(self).position() == old(self).position() + 1,
            final(self).wf(),
            r.is_some() == usable_frame(old(self).regions(), 0, old(self).position() as int).is_some(),
            r matches Some(frame) ==> Some(frame@) == usable_frame(
                old(self).regions(),
                0,
                old(self).position() as int,
            ) && frame.wf(),
    {
        let wanted: usize = self.next;
        self.next = self.next + 1;
        let mut remaining: u64 = wanted as u64;
        let mut i: usize = 0;
        while i < self.memory_map.len()
            invariant
                self.wf(),
                self.regions() == old(self).regions(),
                self.position() == old(self).position() + 1,
                i <= self.regions().len(),
                usable_frame(self.regions(), i as int, remaining as int) == usable_frame(
                    self.regions(),
                    0,
                    wanted as int,
                ),
                wanted == old(self).position(),
            decreases self.regions().len() - i,
        {
            let region = self.memory_map.get(i);
            if region.kind == MemoryRegionKind::Usable && region.start < region.end {
                let frames: u64 = (region.end - region.start - 1) / PAGE_SIZE + 1;
                assert(frames == frames_in(region)) by {
                    let d = (region.end - region.start - 1) as int;
                    vstd::arithmetic::div_mod::lemma_fundamental_div_mod(d, PAGE_SIZE as int);
                    vstd::arithmetic::div_mod::lemma_fundamental_div_mod(
                        d + PAGE_SIZE,
                        PAGE_SIZE as int,
                    );
                    vstd::arithmetic::div_mod::lemma_div_plus_one(d, PAGE_SIZE as int);
                }
                if remaining < frames {
                    assert(remaining * PAGE_SIZE <= (frames - 1) * PAGE_SIZE) by (nonlinear_arith)
                        requires
                            remaining <= frames - 1,
                            PAGE_SIZE == 4096,
                    ;
                    assert((frames - 1) * PAGE_SIZE <= region.end - region.start - 1) by {
                        vstd::arithmetic::div_mod::lemma_fundamental_div_mod(
                            (region.end - region.start - 1) as int,
                            PAGE_SIZE as int,
                        );
                    }
                    let address: u64 = region.start + remaining * PAGE_SIZE;
                    proof {
                        lemma_aligned_down(address as int, PAGE_SIZE as int);
                    }
                    return Some(PhysFrame::containing_address(PhysAddr::new(address)));
                }
                remaining = remaining - frames;
            }
            i += 1;
        }
        None
    }
}

} // verus!
