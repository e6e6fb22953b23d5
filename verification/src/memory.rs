use vstd::prelude::*;

verus! {

/// What a region of physical memory may be used for once the kernel runs.
#[derive(Debug, Copy, Clone, Eq, PartialEq, Structural)]
#[non_exhaustive]
pub enum MemoryRegionKind {
    /// Free for the kernel to use.
    Usable,
    /// In use by the boot loader or by what it loaded: the kernel image, page
    /// tables, the boot information.
    Bootloader,
    /// A firmware memory type that the boot loader does not interpret.
    UnknownUefi(u32),
}

/// A region of physical memory, from `start` up to but without `end`.
#[derive(Debug, Copy, Clone, Eq, PartialEq, Structural)]
pub struct MemoryRegion {
    pub start: u64,
    pub end: u64,
    pub kind: MemoryRegionKind,
}

impl MemoryRegion {
    /// An empty region at address zero.
    pub fn empty() -> (r: Self)
        ensures
            r == (MemoryRegion { start: 0, end: 0, kind: MemoryRegionKind::Bootloader }),
    {
        MemoryRegion { start: 0, end: 0, kind: MemoryRegionKind::Bootloader }
    }

    /// Whether the region holds no byte.
    pub open spec fn is_empty(self) -> bool {
        self.start == self.end
    }

    /// Whether `address` lies in the region.
    pub open spec fn contains(self, address: int) -> bool {
        self.start <= address < self.end
    }
}

/// The memory map that is handed to the kernel.
#[derive(Debug)]
pub struct MemoryRegions {
    pub regions: Vec<MemoryRegion>,
}

impl View for MemoryRegions {
    type V = Seq<MemoryRegion>;

    open spec fn view(&self) -> Seq<MemoryRegion> {
        self.regions@
    }
}

impl MemoryRegions {
    /// The number of regions.
    pub fn len(&self) -> (n: usize)
        ensures
            n == self@.len(),
    {
        self.regions.len()
    }

    /// The region at `index`.
    pub fn get(&self, index: usize) -> (r: MemoryRegion)
        requires
            index < self@.len(),
        ensures
            r == self@[index as int],
    {
        self.regions[index]
    }
}

impl From<Vec<MemoryRegion>> for MemoryRegions {
    fn from(regions: Vec<MemoryRegion>) -> (r: Self)
        ensures
            r@ == regions@,
    {
        MemoryRegions { regions }
    }
}

impl vstd::std_specs::convert::FromSpecImpl<Vec<MemoryRegion>> for MemoryRegions {
    open spec fn obeys_from_spec() -> bool {
        true
    }

    open spec fn from_spec(regions: Vec<MemoryRegion>) -> Self {
        MemoryRegions { regions }
    }
}

} // verus!
