use vstd::prelude::*;
use crate::addr::{PhysAddr, PAGE_SIZE, PHYS_LIMIT};
use crate::frame_allocator::{map_ok, region_ok, LegacyMemoryRegion};
use crate::memory::MemoryRegionKind;

verus! {

/// Memory that is free for general use.
pub const CONVENTIONAL: u32 = 7;

/// The code of a loaded UEFI application.
pub const LOADER_CODE: u32 = 1;

/// The data of a loaded UEFI application.
pub const LOADER_DATA: u32 = 2;

/// The code of the boot services.
pub const BOOT_SERVICES_CODE: u32 = 3;

/// The data of the boot services.
pub const BOOT_SERVICES_DATA: u32 = 4;

/// The code of the runtime services.
pub const RUNTIME_SERVICES_CODE: u32 = 5;

/// The data of the runtime services.
pub const RUNTIME_SERVICES_DATA: u32 = 6;

/// One entry of the memory map that the firmware reports.
#[derive(Debug, Copy, Clone)]
pub struct MemoryDescriptor {
    /// The firmware's type of the memory.
    pub ty: u32,
    /// Where the region starts in physical memory.
    pub phys_start: u64,
    /// Where the region starts in virtual memory.
    pub virt_start: u64,
    /// The number of pages of 4 KiB.
    pub page_count: u64,
    /// The attributes of the region.
    pub att: u64,
}

/// A firmware memory descriptor, seen as a region of the frame allocator's
/// memory map.
#[derive(Debug, Copy, Clone)]
pub struct UefiMemoryDescriptor(pub MemoryDescriptor);

/// Whether the firmware type `ty` is free for the kernel once the boot services
/// have been left: conventional memory, and what the loader and the boot
/// services occupied.
pub open spec fn reclaimable_type(ty: u32) -> bool {
    ty == CONVENTIONAL || ty == LOADER_CODE || ty == LOADER_DATA || ty == BOOT_SERVICES_CODE || ty
        == BOOT_SERVICES_DATA
}

impl LegacyMemoryRegion for UefiMemoryDescriptor {
    open spec fn valid(&self) -> bool {
        self.0.phys_start < PHYS_LIMIT && self.0.page_count * PAGE_SIZE <= u64::MAX
    }

    open spec fn region_start(&self) -> u64 {
        self.0.phys_start
    }

    open spec fn region_len(&self) -> u64 {
        (self.0.page_count * PAGE_SIZE) as u64
    }

    open spec fn region_kind(&self) -> MemoryRegionKind {
        if self.0.ty == CONVENTIONAL {
            MemoryRegionKind::Usable
        } else {
            MemoryRegionKind::UnknownUefi(self.0.ty)
        }
    }

    open spec fn reclaimable(&self) -> bool {
        reclaimable_type(self.0.ty)
    }

    fn start(&self) -> PhysAddr {
        PhysAddr::new(self.0.phys_start)
    }

    fn len(&self) -> u64 {
        self.0.page_count * PAGE_SIZE
    }

    fn is_empty(&self) -> bool {
        self.len() == 0
    }

    fn kind(&self) -> MemoryRegionKind {
        if self.0.ty == CONVENTIONAL {
            MemoryRegionKind::Usable
        } else {
            MemoryRegionKind::UnknownUefi(self.0.ty)
        }
    }

    fn usable_after_bootloader_exit(&self) -> bool {
        let ty = self.0.ty;
        ty == CONVENTIONAL || ty == LOADER_CODE || ty == LOADER_DATA || ty == BOOT_SERVICES_CODE
            || ty == BOOT_SERVICES_DATA
    }
}

impl UefiMemoryDescriptor {
    /// Whether the frame allocator accepts the region: `region_ok`.
    pub fn is_ok(&self) -> (r: bool)
        ensures
            r == region_ok(*self),
    {
        if self.0.phys_start >= PHYS_LIMIT || self.0.page_count >= PHYS_LIMIT / PAGE_SIZE {
            return false;
        }
        let end = self.0.phys_start + self.0.page_count * PAGE_SIZE;
        if end >= PHYS_LIMIT {
            return false;
        }
        if self.0.ty == CONVENTIONAL {
            1 <= end && end <= PHYS_LIMIT - PAGE_SIZE
        } else {
            true
        }
    }
}

/// Whether the frame allocator accepts the memory map: `map_ok`.
pub fn memory_map_is_ok(memory_map: &Vec<UefiMemoryDescriptor>) -> (r: bool)
    ensures
        r == map_ok(memory_map@),
{
    let mut i: usize = 0;
    while i < memory_map.len()
        invariant
            i <= memory_map.len(),
            forall|j: int| 0 <= j < i ==> region_ok(#[trigger] memory_map@[j]),
        decreases memory_map.len() - i,
    {
        if !memory_map[i].is_ok() {
            return false;
        }
        i += 1;
    }
    true
}

} // verus!
