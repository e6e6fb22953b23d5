use vstd::prelude::*;
use crate::addr::{aligned_down, lemma_aligned_down, PhysAddr, PhysFrame, PAGE_SIZE, PHYS_LIMIT};
use crate::error::LoadError;
use crate::memory::{MemoryRegion, MemoryRegionKind};

verus! {

/// A region of the memory map that the firmware reports.
pub trait LegacyMemoryRegion: Copy {
    /// Whether the start and the length of the region can be computed.
    spec fn valid(&self) -> bool;

    /// The physical address at which the region starts.
    spec fn region_start(&self) -> u64;

    /// The number of bytes of the region.
    spec fn region_len(&self) -> u64;

    /// What the region may be used for.
    spec fn region_kind(&self) -> MemoryRegionKind;

    /// Whether the kernel may use the region once the firmware is left.
    spec fn reclaimable(&self) -> bool;

    fn start(&self) -> (r: PhysAddr)
        requires
            self.valid(),
        ensures
            r@ == self.region_start(),
            r.wf(),
    ;

    fn len(&self) -> (r: u64)
        requires
            self.valid(),
        ensures
            r == self.region_len(),
    ;

    fn is_empty(&self) -> (r: bool)
        requires
            self.valid(),
        ensures
            r == (self.region_len() == 0),
    ;

    fn kind(&self) -> (r: MemoryRegionKind)
        ensures
            r == self.region_kind(),
    ;

    fn usable_after_bootloader_exit(&self) -> (r: bool)
        ensures
            r == self.reclaimable(),
    ;
}

/// The first address after the region.
pub open spec fn region_end<D: LegacyMemoryRegion>(d: D) -> int {
    d.region_start() + d.region_len()
}

/// The frame in which the region starts.
pub open spec fn first_frame<D: LegacyMemoryRegion>(d: D) -> int {
    aligned_down(d.region_start() as int, PAGE_SIZE as int)
}

/// The frame that holds the last byte of the region.
pub open spec fn last_frame<D: LegacyMemoryRegion>(d: D) -> int {
    aligned_down(region_end(d) - 1, PAGE_SIZE as int)
}

/// The frame that is tried next in region `d` when `next` is the next frame
/// overall: `next`, or the region's first frame where that lies above it.
pub open spec fn candidate<D: LegacyMemoryRegion>(d: D, next: int) -> int {
    if next < first_frame(d) {
        first_frame(d)
    } else {
        next
    }
}

/// What the allocator asks of a region of its memory map: that the region lies
/// within the physical address space and, where frames are taken from it, that
/// it is not an empty region at address zero and that the frame after its last
/// one is still a physical address.
pub open spec fn region_ok<D: LegacyMemoryRegion>(d: D) -> bool {
    &&& d.valid()
    &&& region_end(d) < PHYS_LIMIT
    &&& d.region_kind() == MemoryRegionKind::Usable ==> 1 <= region_end(d) <= PHYS_LIMIT - PAGE_SIZE
}

/// Whether every region of a memory map is as `region_ok` says.
pub open spec fn map_ok<D: LegacyMemoryRegion>(regions: Seq<D>) -> bool {
    forall|i: int| 0 <= i < regions.len() ==> region_ok(#[trigger] regions[i])
}

/// `regions` with `region` at its end, unless `region` is empty.
pub open spec fn with_region(regions: Seq<MemoryRegion>, region: MemoryRegion) -> Seq<
    MemoryRegion,
> {
    if region.start == region.end {
        regions
    } else {
        regions.push(region)
    }
}

/// Whether `region` is a usable region that holds a byte of the kernel image
/// from `kernel_start` to `kernel_end`, or encloses the place of an empty image.
pub open spec fn overlaps_kernel(region: MemoryRegion, kernel_start: u64, kernel_end: u64) -> bool {
    region.kind == MemoryRegionKind::Usable && kernel_start < region.end && kernel_end
        > region.start
}

/// `regions` with `region` at its end; where `region` overlaps the kernel image
/// it is cut in three: what lies before the image, the image itself, which
/// belongs to the boot loader, and what lies after it.
pub open spec fn with_split(
    regions: Seq<MemoryRegion>,
    region: MemoryRegion,
    kernel_start: u64,
    kernel_end: u64,
) -> Seq<MemoryRegion> {
    if overlaps_kernel(region, kernel_start, kernel_end) {
        let before = MemoryRegion { end: kernel_start, ..region };
        let kernel = MemoryRegion {
            start: kernel_start,
            end: kernel_end,
            kind: MemoryRegionKind::Bootloader,
        };
        let after = MemoryRegion { start: kernel_end, ..region };
        with_region(with_region(with_region(regions, before), kernel), after)
    } else {
        with_region(regions, region)
    }
}

/// Whether the allocator has taken frames from the start of the usable region
/// `d` and left frames at its end, when `next_free` is its next frame.
pub open spec fn straddles<D: LegacyMemoryRegion>(d: D, next_free: u64) -> bool {
    d.region_kind() == MemoryRegionKind::Usable && d.region_start() < next_free < region_end(d)
}

/// The part of region `d` that the allocator has used, where `d` straddles the
/// next free frame.
pub open spec fn used_part<D: LegacyMemoryRegion>(d: D, next_free: u64) -> MemoryRegion {
    MemoryRegion { start: d.region_start(), end: next_free, kind: MemoryRegionKind::Bootloader }
}

/// What the kernel is told of region `d`, but for the part that `used_part`
/// gives: a usable region is the boot loader's where it lies below the next
/// free frame and usable from there on; another region is usable where the
/// firmware no longer needs it, and else keeps its kind.
pub open spec fn rest_part<D: LegacyMemoryRegion>(d: D, next_free: u64) -> MemoryRegion {
    let end = region_end(d) as u64;
    if d.region_kind() == MemoryRegionKind::Usable {
        if end <= next_free {
            MemoryRegion { start: d.region_start(), end, kind: MemoryRegionKind::Bootloader }
        } else if d.region_start() >= next_free {
            MemoryRegion { start: d.region_start(), end, kind: MemoryRegionKind::Usable }
        } else {
            MemoryRegion { start: next_free, end, kind: MemoryRegionKind::Usable }
        }
    } else if d.reclaimable() {
        MemoryRegion { start: d.region_start(), end, kind: MemoryRegionKind::Usable }
    } else {
        MemoryRegion { start: d.region_start(), end, kind: d.region_kind() }
    }
}

/// `regions` with what the kernel is told of region `d` at its end.
pub open spec fn with_descriptor<D: LegacyMemoryRegion>(
    regions: Seq<MemoryRegion>,
    d: D,
    next_free: u64,
    kernel_start: u64,
    kernel_end: u64,
) -> Seq<MemoryRegion> {
    let used = if straddles(d, next_free) {
        with_region(regions, used_part(d, next_free))
    } else {
        regions
    };
    with_split(used, rest_part(d, next_free), kernel_start, kernel_end)
}

/// The memory map that the kernel receives for the firmware's map `ds`, when
/// the allocator's next frame is `next_free` and the kernel image lies from
/// `kernel_start` to `kernel_end`.
pub open spec fn memory_map<D: LegacyMemoryRegion>(
    ds: Seq<D>,
    next_free: u64,
    kernel_start: u64,
    kernel_end: u64,
) -> Seq<MemoryRegion>
    decreases ds.len(),
{
    if ds.len() == 0 {
        Seq::empty()
    } else {
        with_descriptor(
            memory_map(ds.drop_last(), next_free, kernel_start, kernel_end),
            ds.last(),
            next_free,
            kernel_start,
            kernel_end,
        )
    }
}

/// Whether the kernel image lies wholly within region `d` if it overlaps the
/// usable part of it.
pub open spec fn kernel_fits<D: LegacyMemoryRegion>(
    d: D,
    next_free: u64,
    kernel_start: u64,
    kernel_end: u64,
) -> bool {
    overlaps_kernel(rest_part(d, next_free), kernel_start, kernel_end) ==> rest_part(
        d,
        next_free,
    ).start <= kernel_start && kernel_end <= rest_part(d, next_free).end
}

/// Whether that holds of every region of a memory map.
pub open spec fn kernel_fits_map<D: LegacyMemoryRegion>(
    ds: Seq<D>,
    next_free: u64,
    kernel_start: u64,
    kernel_end: u64,
) -> bool {
    forall|i: int|
        0 <= i < ds.len() ==> kernel_fits(#[trigger] ds[i], next_free, kernel_start, kernel_end)
}

/// A memory map grows with every region that is added to the firmware's map.
pub proof fn lemma_memory_map_grows<D: LegacyMemoryRegion>(
    ds: Seq<D>,
    count: int,
    next_free: u64,
    kernel_start: u64,
    kernel_end: u64,
)
    requires
        0 <= count <= ds.len(),
    ensures
        memory_map(ds.subrange(0, count), next_free, kernel_start, kernel_end).len() <= memory_map(
            ds,
            next_free,
            kernel_start,
            kernel_end,
        ).len(),
    decreases ds.len() - count,
{
    if count < ds.len() {
        lemma_memory_map_grows(ds.drop_last(), count, next_free, kernel_start, kernel_end);
        assert(ds.drop_last().subrange(0, count) =~= ds.subrange(0, count));
    } else {
        assert(ds.subrange(0, count) =~= ds);
    }
}

/// What a frame allocator holds.
pub struct AllocatorState<D> {
    /// The memory map, as the firmware gave it.
    pub regions: Seq<D>,
    /// The number of regions that the search for a frame has gone past.
    pub position: nat,
    /// The region from which frames are being taken.
    pub current: Option<D>,
    /// The next frame to try.
    pub next_frame: u64,
}

impl<D: LegacyMemoryRegion> AllocatorState<D> {
    /// The invariant of a frame allocator.
    pub open spec fn wf(self) -> bool {
        &&& map_ok(self.regions)
        &&& self.position <= self.regions.len()
        &&& self.next_frame < PHYS_LIMIT
        &&& self.next_frame % PAGE_SIZE == 0
        &&& match self.current {
            Some(d) => region_ok(d) && d.region_kind() == MemoryRegionKind::Usable,
            None => true,
        }
    }

    /// Taking a frame from region `d`: the frame, if the region has one left,
    /// and the next frame to try afterwards.
    pub open spec fn take_from(self, d: D) -> (Option<u64>, u64) {
        let c = candidate(d, self.next_frame as int);
        if c <= last_frame(d) {
            (Some(c as u64), (c + PAGE_SIZE) as u64)
        } else {
            (None, c as u64)
        }
    }

    /// The search through the regions that have not been visited yet, for the
    /// first usable one that has a frame left.
    pub open spec fn scan(self) -> (Option<u64>, Self)
        decreases self.regions.len() - self.position,
    {
        if self.position >= self.regions.len() {
            (None, self)
        } else {
            let d = self.regions[self.position as int];
            if d.region_kind() != MemoryRegionKind::Usable {
                (AllocatorState { position: self.position + 1, ..self }).scan()
            } else {
                let (frame, next) = self.take_from(d);
                if frame.is_some() {
                    (
                        frame,
                        AllocatorState {
                            position: self.position + 1,
                            current: Some(d),
                            next_frame: next,
                            ..self
                        },
                    )
                } else {
                    (AllocatorState { position: self.position + 1, next_frame: next, ..self }).scan()
                }
            }
        }
    }

    /// One allocation: the frame that is handed out, if any, and the state
    /// afterwards. The frame comes from the current region while that has one,
    /// and else from the next usable region that has one.
    pub open spec fn allocate(self) -> (Option<u64>, Self) {
        match self.current {
            Some(d) => {
                let (frame, next) = self.take_from(d);
                if frame.is_some() {
                    (frame, AllocatorState { next_frame: next, ..self })
                } else {
                    (AllocatorState { current: None, next_frame: next, ..self }).scan()
                }
            },
            None => self.scan(),
        }
    }

    /// The state after `count` allocations.
    pub open spec fn after(self, count: nat) -> Self
        decreases count,
    {
        if count == 0 {
            self
        } else {
            self.after((count - 1) as nat).allocate().1
        }
    }

    /// Taking a frame keeps the invariant; the frame is not below the next frame
    /// of before, and the next frame of afterwards is not below it.
    pub proof fn lemma_take_from(self, d: D)
        requires
            self.wf(),
            region_ok(d),
            d.region_kind() == MemoryRegionKind::Usable,
        ensures
            self.take_from(d).1 < PHYS_LIMIT,
            self.take_from(d).1 % PAGE_SIZE == 0,
            self.take_from(d).1 >= self.next_frame,
            self.take_from(d).0 matches Some(f) ==> f >= self.next_frame && f % PAGE_SIZE == 0
                && self.take_from(d).1 == f + PAGE_SIZE && first_frame(d) <= f <= last_frame(d),
    {
        lemma_aligned_down(d.region_start() as int, PAGE_SIZE as int);
        lemma_aligned_down(region_end(d) - 1, PAGE_SIZE as int);
        let c = candidate(d, self.next_frame as int);
        assert(c % (PAGE_SIZE as int) == 0);
        if c <= last_frame(d) {
            assert((c + PAGE_SIZE) % (PAGE_SIZE as int) == 0) by {
                vstd::arithmetic::div_mod::lemma_mod_adds(c, PAGE_SIZE as int, PAGE_SIZE as int);
            }
        }
    }

    /// The search keeps the invariant, never lowers the next frame, and finds
    /// only frames that are not below the next frame of before.
    pub proof fn lemma_scan(self)
        requires
            self.wf(),
        ensures
            self.scan().1.wf(),
            self.scan().1.regions == self.regions,
            self.scan().1.position >= self.position,
            self.scan().1.next_frame >= self.next_frame,
            self.scan().0 matches Some(f) ==> f >= self.next_frame && f % PAGE_SIZE == 0
                && self.scan().1.next_frame == f + PAGE_SIZE,
            self.scan().0 matches Some(f) ==> self.scan().1.current matches Some(d) && first_frame(d)
                <= f <= last_frame(d),
            self.scan().0 is None ==> self.scan().1.position == self.regions.len(),
            self.current is None ==> (self.scan().0 is None ==> self.scan().1.current is None),
        decreases self.regions.len() - self.position,
    {
        if self.position < self.regions.len() {
            let d = self.regions[self.position as int];
            if d.region_kind() != MemoryRegionKind::Usable {
                (AllocatorState { position: self.position + 1, ..self }).lemma_scan();
            } else {
                self.lemma_take_from(d);
                let (frame, next) = self.take_from(d);
                if frame.is_none() {
                    (AllocatorState {
                        position: self.position + 1,
                        next_frame: next,
                        ..self
                    }).lemma_scan();
                }
            }
        }
    }

    /// An allocation keeps the invariant and the memory map. The next frame
    /// never goes down. A frame that is handed out is not below the next frame
    /// of before, and the next frame of afterwards is the one that follows it:
    /// no frame is handed out twice.
    pub proof fn lemma_allocate(self)
        requires
            self.wf(),
        ensures
            self.allocate().1.wf(),
            self.allocate().1.regions == self.regions,
            self.allocate().1.next_frame >= self.next_frame,
            self.allocate().0 matches Some(f) ==> f >= self.next_frame && f % PAGE_SIZE == 0
                && self.allocate().1.next_frame == f + PAGE_SIZE,
            self.allocate().0 matches Some(f) ==> self.allocate().1.current matches Some(d)
                && first_frame(d) <= f <= last_frame(d),
    {
        match self.current {
            Some(d) => {
                self.lemma_take_from(d);
                let (frame, next) = self.take_from(d);
                if frame.is_none() {
                    (AllocatorState { current: None, next_frame: next, ..self }).lemma_scan();
                }
            },
            None => {
                self.lemma_scan();
            },
        }
    }

    /// While the next frame lies within the current region, `count` allocations
    /// hand out the `count` frames from the next frame on, one after the other,
    /// and move the next frame on by `count` frames.
    pub proof fn lemma_contiguous_allocations(self, count: nat)
        requires
            self.wf(),
            self.current is Some,
            first_frame(self.current.unwrap()) <= self.next_frame,
            self.next_frame + count * PAGE_SIZE <= last_frame(self.current.unwrap()) + PAGE_SIZE,
        ensures
            self.after(count).wf(),
            self.after(count).current == self.current,
            self.after(count).regions == self.regions,
            self.after(count).position == self.position,
            self.after(count).next_frame == self.next_frame + count * PAGE_SIZE,
            forall|i: nat|
                i < count ==> #[trigger] self.after(i).allocate().0 == Some(
                    (self.next_frame + i * PAGE_SIZE) as u64,
                ),
        decreases count,
    {
        if count > 0 {
            let before = (count - 1) as nat;
            self.lemma_contiguous_allocations(before);
            let s = self.after(before);
            let d = self.current.unwrap();
            s.lemma_take_from(d);
            s.lemma_allocate();
            assert(s.allocate().0 == Some((self.next_frame + before * PAGE_SIZE) as u64));
            assert forall|i: nat| i < count implies #[trigger] self.after(i).allocate().0 == Some(
                (self.next_frame + i * PAGE_SIZE) as u64,
            ) by {
                if i < before {
                } else {
                    assert(i == before);
                }
            }
        }
    }

    /// Where no region is current yet and the next frame lies within the next
    /// region of the map, which is usable, `count` allocations hand out the
    /// `count` frames from the next frame on and move the next frame on by
    /// `count` frames.
    pub proof fn lemma_contiguous_allocations_in_next_region(self, count: nat)
        requires
            self.wf(),
            self.current is None,
            self.position < self.regions.len(),
            self.regions[self.position as int].region_kind() == MemoryRegionKind::Usable,
            first_frame(self.regions[self.position as int]) <= self.next_frame,
            self.next_frame + count * PAGE_SIZE <= last_frame(self.regions[self.position as int])
                + PAGE_SIZE,
        ensures
            self.after(count).wf(),
            self.after(count).regions == self.regions,
            self.after(count).next_frame == self.next_frame + count * PAGE_SIZE,
            forall|i: nat|
                i < count ==> #[trigger] self.after(i).allocate().0 == Some(
                    (self.next_frame + i * PAGE_SIZE) as u64,
                ),
    {
        if count > 0 {
            let d = self.regions[self.position as int];
            self.lemma_take_from(d);
            assert(0 < count * PAGE_SIZE) by (nonlinear_arith)
                requires
                    count > 0,
                    PAGE_SIZE == 4096,
            ;
            let first = self.allocate().1;
            assert(self.allocate().0 == Some(self.next_frame));
            assert(first.current == Some(d));
            assert(first.next_frame == self.next_frame + PAGE_SIZE);
            assert((count - 1) * PAGE_SIZE + PAGE_SIZE == count * PAGE_SIZE) by (nonlinear_arith);
            first.lemma_contiguous_allocations((count - 1) as nat);
            assert forall|k: nat| k <= count - 1 implies #[trigger] first.after(k) == self.after(
                k + 1,
            ) by {
                Self::lemma_after_shift(self, k);
            }
            assert(self.after(count) == first.after((count - 1) as nat));
            assert forall|i: nat| i < count implies #[trigger] self.after(i).allocate().0 == Some(
                (self.next_frame + i * PAGE_SIZE) as u64,
            ) by {
                if i > 0 {
                    let k = (i - 1) as nat;
                    assert(first.after(k) == self.after(k + 1));
                    assert(first.after(k).allocate().0 == Some(
                        (first.next_frame + k * PAGE_SIZE) as u64,
                    ));
                    assert(k * PAGE_SIZE + PAGE_SIZE == i * PAGE_SIZE) by (nonlinear_arith)
                        requires
                            k + 1 == i,
                    ;
                }
            }
        }
    }

    /// Wherever an allocation finds its frame, be it in the current region or
    /// in a later one that the search reaches past regions that are used or
    /// used up: where the region that the frame lies in has `count` frames from
    /// that frame on, `count` allocations hand out those frames, one after the
    /// other, and move the next frame on by exactly `count` frames.
    pub proof fn lemma_allocations_advance(self, count: nat)
        requires
            self.wf(),
            count >= 1,
            self.allocate().0 is Some,
            self.allocate().0.unwrap() + count * PAGE_SIZE <= last_frame(
                self.allocate().1.current.unwrap(),
            ) + PAGE_SIZE,
        ensures
            self.after(count).wf(),
            self.after(count).regions == self.regions,
            self.after(count).current == self.allocate().1.current,
            self.after(count).next_frame == self.allocate().0.unwrap() + count * PAGE_SIZE,
            forall|i: nat|
                i < count ==> #[trigger] self.after(i).allocate().0 == Some(
                    (self.allocate().0.unwrap() + i * PAGE_SIZE) as u64,
                ),
    {
        self.lemma_allocate();
        let frame = self.allocate().0.unwrap();
        let first = self.allocate().1;
        assert((count - 1) * PAGE_SIZE + PAGE_SIZE == count * PAGE_SIZE) by (nonlinear_arith);
        first.lemma_contiguous_allocations((count - 1) as nat);
        assert forall|k: nat| k <= count - 1 implies #[trigger] first.after(k) == self.after(
            k + 1,
        ) by {
            Self::lemma_after_shift(self, k);
        }
        assert(self.after(count) == first.after((count - 1) as nat));
        assert forall|i: nat| i < count implies #[trigger] self.after(i).allocate().0 == Some(
            (frame + i * PAGE_SIZE) as u64,
        ) by {
            if i > 0 {
                let k = (i - 1) as nat;
                assert(first.after(k) == self.after(k + 1));
                assert(first.after(k).allocate().0 == Some(
                    (first.next_frame + k * PAGE_SIZE) as u64,
                ));
                assert(first.next_frame + k * PAGE_SIZE == frame + i * PAGE_SIZE)
                    by (nonlinear_arith)
                    requires
                        first.next_frame == frame + PAGE_SIZE,
                        k == i - 1,
                ;
            }
        }
    }

    /// The state after one allocation and `count` more is the state after
    /// `count` + 1 allocations.
    pub proof fn lemma_after_shift(self, count: nat)
        ensures
            self.allocate().1.after(count) == self.after(count + 1),
        decreases count,
    {
        if count > 0 {
            self.lemma_after_shift((count - 1) as nat);
        } else {
            assert(self.after(1) == self.after(0).allocate().1);
        }
    }
}

/// Whether the memory map for the kernel can be written into an array of
/// `capacity` regions: the kernel image has an end, lies wholly within the
/// region that it overlaps, and the map has no more than `capacity` regions.
pub open spec fn constructible<D: LegacyMemoryRegion>(
    state: AllocatorState<D>,
    capacity: int,
    kernel_start: u64,
    kernel_len: u64,
) -> Result<(), LoadError> {
    if kernel_start + kernel_len > u64::MAX {
        Err(LoadError::AddressOutOfRange)
    } else if !kernel_fits_map(
        state.regions,
        state.next_frame,
        kernel_start,
        (kernel_start + kernel_len) as u64,
    ) {
        Err(LoadError::KernelOutsideRegion)
    } else if memory_map(
        state.regions,
        state.next_frame,
        kernel_start,
        (kernel_start + kernel_len) as u64,
    ).len() > capacity {
        Err(LoadError::MemoryMapOverflow)
    } else {
        Ok(())
    }
}

/// A bump allocator of frames over the memory map of the firmware. It hands out
/// the frames of the usable regions in the order of the map, each region from
/// its first frame to its last, and never a frame below one that it handed out.
pub struct LegacyFrameAllocator<D> {
    memory_map: Vec<D>,
    position: usize,
    current_descriptor: Option<D>,
    next_frame: PhysFrame,
}

impl<D: LegacyMemoryRegion> View for LegacyFrameAllocator<D> {
    type V = AllocatorState<D>;

    closed spec fn view(&self) -> AllocatorState<D> {
        AllocatorState {
            regions: self.memory_map@,
            position: self.position as nat,
            current: self.current_descriptor,
            next_frame: self.next_frame@,
        }
    }
}

impl<D: LegacyMemoryRegion> LegacyFrameAllocator<D> {
    /// The invariant of the type.
    pub open spec fn wf(&self) -> bool {
        self@.wf()
    }

    /// An allocator over `memory_map` that starts at the second frame, because
    /// address zero is no valid address of an object.
    pub fn new(memory_map: Vec<D>) -> (r: Self)
        requires
            map_ok(memory_map@),
        ensures
            r.wf(),
            r@ == (AllocatorState {
                regions: memory_map@,
                position: 0,
                current: None,
                next_frame: 0x1000,
            }),
    {
        let start_frame = PhysFrame::containing_address(PhysAddr::new(0x1000));
        Self::new_starting_at(start_frame, memory_map)
    }

    /// An allocator over `memory_map` that hands out no frame below `frame`.
    pub fn new_starting_at(frame: PhysFrame, memory_map: Vec<D>) -> (r: Self)
        requires
            frame.wf(),
            map_ok(memory_map@),
        ensures
            r.wf(),
            r@ == (AllocatorState {
                regions: memory_map@,
                position: 0,
                current: None,
                next_frame: frame@,
            }),
    {
        LegacyFrameAllocator {
            memory_map,
            position: 0,
            current_descriptor: None,
            next_frame: frame,
        }
    }

    /// Takes the next frame from `descriptor`, if it has one left.
    fn allocate_frame_from_descriptor(&mut self, descriptor: D) -> (r: Option<PhysFrame>)
        requires
            old(self).wf(),
            region_ok(descriptor),
            descriptor.region_kind() == MemoryRegionKind::Usable,
        ensures
            final(self).wf(),
            final(self)@ == (AllocatorState {
                next_frame: old(self)@.take_from(descriptor).1,
                ..old(self)@
            }),
            r.is_some() == old(self)@.take_from(descriptor).0.is_some(),
            r matches Some(f) ==> Some(f@) == old(self)@.take_from(descriptor).0 && f.wf(),
    {
        proof {
            self@.lemma_take_from(descriptor);
            lemma_aligned_down(descriptor.region_start() as int, PAGE_SIZE as int);
            lemma_aligned_down(region_end(descriptor) - 1, PAGE_SIZE as int);
        }
        let start_addr = descriptor.start();
        let start_frame = PhysFrame::containing_address(start_addr);
        let end_addr = PhysAddr::new(start_addr.as_u64() + descriptor.len());
        let end_frame = PhysFrame::containing_address(PhysAddr::new(end_addr.as_u64() - 1));
        if self.next_frame.start_address().as_u64() < start_frame.start_address().as_u64() {
            self.next_frame = start_frame;
        }
        if self.next_frame.start_address().as_u64() <= end_frame.start_address().as_u64() {
            let ret = self.next_frame;
            self.next_frame = self.next_frame.next();
            Some(ret)
        } else {
            None
        }
    }

    /// Hands out the next frame: from the current region while that has one,
    /// else from the next usable region of the memory map that has one; none
    /// when the map is exhausted.
    pub fn allocate_frame(&mut self) -> (r: Option<PhysFrame>)
        requires
            old(self).wf(),
        ensures
            final(self).wf(),
            final(self)@ == old(self)@.allocate().1,
            r.is_some() == old(self)@.allocate().0.is_some(),
            r matches Some(f) ==> Some(f@) == old(self)@.allocate().0 && f.wf() && f@ >= old(
                self,
            )@.next_frame && final(self)@.next_frame == f@ + PAGE_SIZE,
            final(self)@.regions == old(self)@.regions,
            final(self)@.next_frame >= old(self)@.next_frame,
    {
        let ghost start = self@;
        proof {
            start.lemma_allocate();
        }
        if let Some(current_descriptor) = self.current_descriptor {
            match self.allocate_frame_from_descriptor(current_descriptor) {
                Some(frame) => {
                    return Some(frame);
                },
                None => {
                    self.current_descriptor = None;
                },
            }
        }
        let ghost searching = self@;
        while self.position < self.memory_map.len()
            invariant
                self.wf(),
                start.wf(),
                start == old(self)@,
                start.allocate() == searching.scan(),
                self@.scan() == searching.scan(),
                self@.current is None,
            decreases self.memory_map.len() - self.position,
        {
            proof {
                start.lemma_allocate();
            }
            let descriptor = self.memory_map[self.position];
            self.position += 1;
            if descriptor.kind() != MemoryRegionKind::Usable {
                continue ;
            }
            if let Some(frame) = self.allocate_frame_from_descriptor(descriptor) {
                self.current_descriptor = Some(descriptor);
                return Some(frame);
            }
        }
        None
    }

    /// The number of regions of the memory map. Allocations do not change it.
    pub fn len(&self) -> (r: usize)
        ensures
            r == self@.regions.len(),
    {
        self.memory_map.len()
    }

    /// Whether the memory map has no region.
    pub fn is_empty(&self) -> (r: bool)
        ensures
            r == (self@.regions.len() == 0),
    {
        self.len() == 0
    }

    /// The largest address at which a region of the memory map ends.
    pub fn max_physical_address(&self) -> (r: PhysAddr)
        requires
            self.wf(),
            self@.regions.len() > 0,
        ensures
            r.wf(),
            exists|i: int| 0 <= i < self@.regions.len() && r@ == region_end(#[trigger] self@.regions[i]),
            forall|i: int| 0 <= i < self@.regions.len() ==> region_end(#[trigger] self@.regions[i]) <= r@,
    {
        let first = self.memory_map[0];
        let mut max: u64 = first.start().as_u64() + first.len();
        let ghost mut at: int = 0;
        let mut i: usize = 1;
        while i < self.memory_map.len()
            invariant
                self.wf(),
                1 <= i <= self.memory_map.len(),
                0 <= at < i,
                max == region_end(self@.regions[at]),
                forall|j: int| 0 <= j < i ==> region_end(#[trigger] self@.regions[j]) <= max,
            decreases self.memory_map.len() - i,
        {
            let d = self.memory_map[i];
            let end = d.start().as_u64() + d.len();
            if end > max {
                max = end;
                proof {
                    at = i as int;
                }
            }
            i += 1;
        }
        PhysAddr::new(max)
    }

    /// Puts `region` into the slot `next_index` of `regions`, unless it is empty.
    fn add_region(region: MemoryRegion, regions: &mut Vec<MemoryRegion>, next_index: &mut usize)
        requires
            *old(next_index) <= old(regions)@.len(),
            with_region(old(regions)@.subrange(0, *old(next_index) as int), region).len() <= old(
                regions,
            )@.len(),
        ensures
            *final(next_index) <= final(regions)@.len(),
            final(regions)@.len() == old(regions)@.len(),
            final(regions)@.subrange(0, *final(next_index) as int) == with_region(
                old(regions)@.subrange(0, *old(next_index) as int),
                region,
            ),
            forall|i: int|
                *final(next_index) <= i < old(regions)@.len() ==> final(regions)@[i] == old(
                    regions,
                )@[i],
    {
        if region.start == region.end {
            return ;
        }
        let at: usize = *next_index;
        assert(regions@.subrange(0, at as int).push(region).len() == at + 1);
        assert(at < regions.len());
        regions[at] = region;
        *next_index = at + 1;
        assert(regions@.subrange(0, at + 1) =~= old(regions)@.subrange(0, at as int).push(region));
    }

    /// The memory map for the kernel: each region of the firmware's map with
    /// the kind that it has for the kernel, the frames that were handed out and
    /// the kernel image marked as the boot loader's. The map is written to the
    /// front of `regions`; the number of regions written is returned.
    pub fn construct_memory_map(
        self,
        regions: &mut Vec<MemoryRegion>,
        kernel_slice_start: u64,
        kernel_slice_len: u64,
    ) -> (count: usize)
        requires
            self.wf(),
            kernel_slice_start + kernel_slice_len <= u64::MAX,
            kernel_fits_map(
                self@.regions,
                self@.next_frame,
                kernel_slice_start,
                (kernel_slice_start + kernel_slice_len) as u64,
            ),
            memory_map(
                self@.regions,
                self@.next_frame,
                kernel_slice_start,
                (kernel_slice_start + kernel_slice_len) as u64,
            ).len() <= old(regions)@.len(),
        ensures
            count <= final(regions)@.len(),
            final(regions)@.len() == old(regions)@.len(),
            final(regions)@.subrange(0, count as int) == memory_map(
                self@.regions,
                self@.next_frame,
                kernel_slice_start,
                (kernel_slice_start + kernel_slice_len) as u64,
            ),
            forall|i: int|
                count <= i < old(regions)@.len() ==> final(regions)@[i] == old(regions)@[i],
    {
        let mut next_index: usize = 0;
        let next_free: u64 = self.next_frame.start_address().as_u64();
        let kernel_slice_end: u64 = kernel_slice_start + kernel_slice_len;
        let ghost ds = self@.regions;
        let mut i: usize = 0;
        assert(regions@.subrange(0, 0) =~= memory_map(
            ds.subrange(0, 0),
            next_free,
            kernel_slice_start,
            kernel_slice_end,
        ));
        while i < self.memory_map.len()
            invariant
                self.wf(),
                ds == self@.regions,
                next_free == self@.next_frame,
                i <= ds.len(),
                kernel_slice_end == kernel_slice_start + kernel_slice_len,
                kernel_fits_map(ds, next_free, kernel_slice_start, kernel_slice_end),
                memory_map(ds, next_free, kernel_slice_start, kernel_slice_end).len() <= regions@.len(),
                regions@.len() == old(regions)@.len(),
                next_index <= regions@.len(),
                regions@.subrange(0, next_index as int) == memory_map(
                    ds.subrange(0, i as int),
                    next_free,
                    kernel_slice_start,
                    kernel_slice_end,
                ),
                forall|j: int|
                    next_index <= j < old(regions)@.len() ==> regions@[j] == old(regions)@[j],
            decreases self.memory_map.len() - i,
        {
            let descriptor = self.memory_map[i];
            proof {
                lemma_memory_map_grows(
                    ds,
                    i + 1,
                    next_free,
                    kernel_slice_start,
                    kernel_slice_end,
                );
                assert(ds.subrange(0, i + 1).drop_last() =~= ds.subrange(0, i as int));
                assert(ds.subrange(0, i + 1).last() == descriptor);
                assert(kernel_fits(ds[i as int], next_free, kernel_slice_start, kernel_slice_end));
            }
            let mut start: u64 = descriptor.start().as_u64();
            let end: u64 = start + descriptor.len();
            let kind = match descriptor.kind() {
                MemoryRegionKind::Usable => {
                    if end <= next_free {
                        MemoryRegionKind::Bootloader
                    } else if start >= next_free {
                        MemoryRegionKind::Usable
                    } else {
                        let used_region = MemoryRegion {
                            start,
                            end: next_free,
                            kind: MemoryRegionKind::Bootloader,
                        };
                        Self::add_region(used_region, regions, &mut next_index);
                        start = next_free;
                        MemoryRegionKind::Usable
                    }
                },
                other => {
                    if descriptor.usable_after_bootloader_exit() {
                        MemoryRegionKind::Usable
                    } else {
                        other
                    }
                },
            };
            let region = MemoryRegion { start, end, kind };
            assert(region == rest_part(descriptor, next_free));
            if region.kind == MemoryRegionKind::Usable && kernel_slice_start < region.end
                && kernel_slice_end > region.start {
                let before_kernel = MemoryRegion { end: kernel_slice_start, ..region };
                let kernel = MemoryRegion {
                    start: kernel_slice_start,
                    end: kernel_slice_end,
                    kind: MemoryRegionKind::Bootloader,
                };
                let after_kernel = MemoryRegion { start: kernel_slice_end, ..region };
                Self::add_region(before_kernel, regions, &mut next_index);
                Self::add_region(kernel, regions, &mut next_index);
                Self::add_region(after_kernel, regions, &mut next_index);
            } else {
                Self::add_region(region, regions, &mut next_index);
            }
            i += 1;
        }
        assert(ds.subrange(0, i as int) =~= ds);
        next_index
    }

    /// What the kernel is told of the region `d`, but for the part that the
    /// allocator has used of it; see `rest_part`.
    fn rest_of(&self, d: &D) -> (r: MemoryRegion)
        requires
            self.wf(),
            region_ok(*d),
        ensures
            r == rest_part(*d, self@.next_frame),
    {
        let next_free: u64 = self.next_frame.start_address().as_u64();
        let start: u64 = d.start().as_u64();
        let end: u64 = start + d.len();
        match d.kind() {
            MemoryRegionKind::Usable => {
                if end <= next_free {
                    MemoryRegion { start, end, kind: MemoryRegionKind::Bootloader }
                } else if start >= next_free {
                    MemoryRegion { start, end, kind: MemoryRegionKind::Usable }
                } else {
                    MemoryRegion { start: next_free, end, kind: MemoryRegionKind::Usable }
                }
            },
            other => {
                if d.usable_after_bootloader_exit() {
                    MemoryRegion { start, end, kind: MemoryRegionKind::Usable }
                } else {
                    MemoryRegion { start, end, kind: other }
                }
            },
        }
    }

    /// Whether `construct_memory_map` can write the memory map into an array
    /// of `capacity` regions, and why not; see `constructible`.
    pub fn check_memory_map(&self, capacity: usize, kernel_slice_start: u64, kernel_slice_len: u64) -> (r:
        Result<(), LoadError>)
        requires
            self.wf(),
        ensures
            r == constructible(self@, capacity as int, kernel_slice_start, kernel_slice_len),
    {
        let kernel_slice_end = match kernel_slice_start.checked_add(kernel_slice_len) {
            Some(end) => end,
            None => {
                return Err(LoadError::AddressOutOfRange);
            },
        };
        let next_free: u64 = self.next_frame.start_address().as_u64();
        let ghost ds = self@.regions;
        let mut i: usize = 0;
        while i < self.memory_map.len()
            invariant
                self.wf(),
                ds == self@.regions,
                next_free == self@.next_frame,
                i <= ds.len(),
                kernel_slice_end == kernel_slice_start + kernel_slice_len,
                forall|j: int|
                    0 <= j < i ==> kernel_fits(
                        #[trigger] ds[j],
                        next_free,
                        kernel_slice_start,
                        kernel_slice_end,
                    ),
            decreases self.memory_map.len() - i,
        {
            let region = self.rest_of(&self.memory_map[i]);
            if region.kind == MemoryRegionKind::Usable && kernel_slice_start < region.end
                && kernel_slice_end > region.start {
                if !(kernel_slice_start >= region.start && kernel_slice_end <= region.end) {
                    assert(!kernel_fits(ds[i as int], next_free, kernel_slice_start, kernel_slice_end));
                    return Err(LoadError::KernelOutsideRegion);
                }
            }
            i += 1;
        }
        let mut count: usize = 0;
        let mut k: usize = 0;
        assert(ds.subrange(0, 0) =~= Seq::<D>::empty());
        while k < self.memory_map.len()
            invariant
                self.wf(),
                ds == self@.regions,
                next_free == self@.next_frame,
                k <= ds.len(),
                kernel_slice_end == kernel_slice_start + kernel_slice_len,
                kernel_fits_map(ds, next_free, kernel_slice_start, kernel_slice_end),
                count == memory_map(
                    ds.subrange(0, k as int),
                    next_free,
                    kernel_slice_start,
                    kernel_slice_end,
                ).len(),
                count <= capacity,
            decreases self.memory_map.len() - k,
        {
            let d = self.memory_map[k];
            proof {
                lemma_memory_map_grows(ds, k + 1, next_free, kernel_slice_start, kernel_slice_end);
                assert(ds.subrange(0, k + 1).drop_last() =~= ds.subrange(0, k as int));
                assert(ds.subrange(0, k + 1).last() == d);
            }
            let region = self.rest_of(&d);
            let start: u64 = d.start().as_u64();
            let mut more: usize = 0;
            if d.kind() == MemoryRegionKind::Usable && start < next_free && next_free
                < region.end {
                if start != next_free {
                    more = more + 1;
                }
            }
            if region.kind == MemoryRegionKind::Usable && kernel_slice_start < region.end
                && kernel_slice_end > region.start {
                if region.start != kernel_slice_start {
                    more = more + 1;
                }
                if kernel_slice_start != kernel_slice_end {
                    more = more + 1;
                }
                if kernel_slice_end != region.end {
                    more = more + 1;
                }
            } else if region.start != region.end {
                more = more + 1;
            }
            assert(count + more == memory_map(
                ds.subrange(0, k + 1),
                next_free,
                kernel_slice_start,
                kernel_slice_end,
            ).len());
            if more > capacity - count {
                return Err(LoadError::MemoryMapOverflow);
            }
            count = count + more;
            k += 1;
        }
        assert(ds.subrange(0, k as int) =~= ds);
        Ok(())
    }
}

} // verus!
