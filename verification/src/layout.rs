use vstd::prelude::*;
use crate::boot::BootInfo;
use crate::elf::{le_bytes, u64_to_le_bytes};
use crate::framebuffer::{Framebuffer, FramebufferInfo, PixelFormat};
use crate::memory::{MemoryRegion, MemoryRegionKind};
use crate::optional::Optional;
use crate::tls_template::TlsTemplate;

verus! {

/// The tag of an optional value that is present.
pub const TAG_PRESENT: u32 = 0;

/// The tag of an optional value that is absent.
pub const TAG_ABSENT: u32 = 1;

/// The number of bytes of the boot information record.
pub const BOOT_INFO_BYTES: usize = 168;

/// The number of bytes of a memory region.
pub const MEMORY_REGION_BYTES: usize = 24;

/// The four bytes of `value`, the lowest byte first.
pub open spec fn le_bytes_32(value: u32) -> Seq<u8> {
    seq![
        (value % 0x100) as u8,
        (value / 0x100 % 0x100) as u8,
        (value / 0x1_0000 % 0x100) as u8,
        (value / 0x100_0000 % 0x100) as u8,
    ]
}

/// A word of eight bytes that holds the tag `tag` in its lower half.
pub open spec fn tag_word(tag: u32) -> Seq<u8> {
    le_bytes_32(tag) + le_bytes_32(0)
}

/// The number that stands for a pixel format.
pub open spec fn pixel_format_tag(format: PixelFormat) -> u32 {
    match format {
        PixelFormat::Rgb => 0,
        PixelFormat::Bgr => 1,
    }
}

/// The tag and the payload that stand for the kind of a memory region.
pub open spec fn kind_words(kind: MemoryRegionKind) -> (u32, u32) {
    match kind {
        MemoryRegionKind::Usable => (0, 0),
        MemoryRegionKind::Bootloader => (1, 0),
        MemoryRegionKind::UnknownUefi(raw) => (2, raw),
    }
}

/// The 24 bytes of a memory region in the kernel's memory: start, end, and
/// the tag and the payload of its kind.
pub open spec fn region_bytes(region: MemoryRegion) -> Seq<u8> {
    le_bytes(region.start) + le_bytes(region.end) + le_bytes_32(kind_words(region.kind).0)
        + le_bytes_32(kind_words(region.kind).1)
}

/// The bytes of an array of memory regions.
pub open spec fn regions_bytes(regions: Seq<MemoryRegion>) -> Seq<u8>
    decreases regions.len(),
{
    if regions.len() == 0 {
        Seq::empty()
    } else {
        regions_bytes(regions.drop_last()) + region_bytes(regions.last())
    }
}

/// The 48 bytes of the geometry of a framebuffer.
pub open spec fn framebuffer_info_bytes(info: FramebufferInfo) -> Seq<u8> {
    le_bytes(info.width as u64) + le_bytes(info.height as u64) + tag_word(
        pixel_format_tag(info.pixel_format),
    ) + le_bytes(info.byte_len as u64) + le_bytes(info.bytes_per_pixel as u64) + le_bytes(
        info.stride as u64,
    )
}

/// The 16 bytes of an optional number: its tag, and the number where it is
/// present.
pub open spec fn optional_u64_bytes(value: Optional<u64>) -> Seq<u8> {
    match value {
        Optional::Present(v) => tag_word(TAG_PRESENT) + le_bytes(v),
        Optional::Absent => tag_word(TAG_ABSENT) + le_bytes(0),
    }
}

/// The 64 bytes of an optional framebuffer.
pub open spec fn optional_framebuffer_bytes(value: Optional<Framebuffer>) -> Seq<u8> {
    match value {
        Optional::Present(fb) => tag_word(TAG_PRESENT) + le_bytes(fb.start_address)
            + framebuffer_info_bytes(fb.info),
        Optional::Absent => tag_word(TAG_ABSENT) + Seq::new(56, |i: int| 0u8),
    }
}

/// The 32 bytes of an optional thread-local storage template.
pub open spec fn optional_tls_bytes(value: Optional<TlsTemplate>) -> Seq<u8> {
    match value {
        Optional::Present(t) => tag_word(TAG_PRESENT) + le_bytes(t.start_address) + le_bytes(
            t.file_size,
        ) + le_bytes(t.mem_size),
        Optional::Absent => tag_word(TAG_ABSENT) + Seq::new(24, |i: int| 0u8),
    }
}

/// The 168 bytes of the boot information record in the kernel's memory, when
/// the array of its memory regions lies at `regions_addr`.
pub open spec fn boot_info_bytes(info: BootInfo, regions_addr: u64) -> Seq<u8> {
    le_bytes(regions_addr) + le_bytes(info.memory_regions@.len() as u64)
        + optional_framebuffer_bytes(info.framebuffer) + optional_u64_bytes(
        info.physical_memory_offset,
    ) + optional_u64_bytes(info.rsdp_address) + optional_tls_bytes(info.tls_template)
        + optional_u64_bytes(info.ramdisk_address) + le_bytes(info.ramdisk_len)
}

/// Appends the eight bytes of `value` to `out`.
fn push_u64(out: &mut Vec<u8>, value: u64)
    ensures
        final(out)@ == old(out)@ + le_bytes(value),
{
    let bytes = u64_to_le_bytes(value);
    let mut i: usize = 0;
    while i < 8
        invariant
            i <= 8,
            bytes@ == le_bytes(value),
            out@ == old(out)@ + le_bytes(value).subrange(0, i as int),
        decreases 8 - i,
    {
        out.push(bytes[i]);
        assert(out@ =~= old(out)@ + le_bytes(value).subrange(0, i + 1));
        i += 1;
    }
    assert(le_bytes(value).subrange(0, 8) =~= le_bytes(value));
}

/// Appends a word of eight bytes that holds `tag` in its lower half to `out`.
fn push_tag(out: &mut Vec<u8>, tag: u32)
    requires
        tag < 0x100,
    ensures
        final(out)@ == old(out)@ + tag_word(tag),
{
    out.push(tag as u8);
    let mut i: usize = 1;
    while i < 8
        invariant
            1 <= i <= 8,
            tag < 0x100,
            out@ == old(out)@ + tag_word(tag).subrange(0, i as int),
        decreases 8 - i,
    {
        out.push(0);
        assert(out@ =~= old(out)@ + tag_word(tag).subrange(0, i + 1));
        i += 1;
    }
    assert(tag_word(tag).subrange(0, 8) =~= tag_word(tag));
}

/// Appends `count` zeros to `out`.
fn push_zeros(out: &mut Vec<u8>, count: usize)
    ensures
        final(out)@ == old(out)@ + Seq::new(count as nat, |i: int| 0u8),
{
    let mut i: usize = 0;
    while i < count
        invariant
            i <= count,
            out@ == old(out)@ + Seq::new(i as nat, |k: int| 0u8),
        decreases count - i,
    {
        out.push(0);
        assert(out@ =~= old(out)@ + Seq::new((i + 1) as nat, |k: int| 0u8));
        i += 1;
    }
}

/// Appends the four bytes of `value` to `out`.
fn push_u32(out: &mut Vec<u8>, value: u32)
    ensures
        final(out)@ == old(out)@ + le_bytes_32(value),
{
    out.push((value % 0x100) as u8);
    out.push((value / 0x100 % 0x100) as u8);
    out.push((value / 0x1_0000 % 0x100) as u8);
    out.push((value / 0x100_0000 % 0x100) as u8);
    assert(out@ =~= old(out)@ + le_bytes_32(value));
}

/// Appends an optional number to `out`.
fn push_optional_u64(out: &mut Vec<u8>, value: &Optional<u64>)
    ensures
        final(out)@ == old(out)@ + optional_u64_bytes(*value),
        optional_u64_bytes(*value).len() == 16,
{
    match value {
        Optional::Present(v) => {
            push_tag(out, TAG_PRESENT);
            push_u64(out, *v);
        },
        Optional::Absent => {
            push_tag(out, TAG_ABSENT);
            push_u64(out, 0);
        },
    }
    assert(out@ =~= old(out)@ + optional_u64_bytes(*value));
}

impl MemoryRegion {
    /// The 24 bytes of the region in the kernel's memory.
    pub fn encode(&self) -> (r: Vec<u8>)
        ensures
            r@ == region_bytes(*self),
            r@.len() == MEMORY_REGION_BYTES,
    {
        let mut out: Vec<u8> = Vec::new();
        push_u64(&mut out, self.start);
        push_u64(&mut out, self.end);
        match self.kind {
            MemoryRegionKind::Usable => {
                push_u32(&mut out, 0);
                push_u32(&mut out, 0);
            },
            MemoryRegionKind::Bootloader => {
                push_u32(&mut out, 1);
                push_u32(&mut out, 0);
            },
            MemoryRegionKind::UnknownUefi(raw) => {
                push_u32(&mut out, 2);
                push_u32(&mut out, raw);
            },
        }
        assert(out@ =~= region_bytes(*self));
        out
    }
}

/// Appends an optional framebuffer to `out`.
fn push_optional_framebuffer(out: &mut Vec<u8>, value: &Optional<Framebuffer>)
    ensures
        final(out)@ == old(out)@ + optional_framebuffer_bytes(*value),
        optional_framebuffer_bytes(*value).len() == 64,
{
    match value {
        Optional::Present(fb) => {
            push_tag(out, TAG_PRESENT);
            push_u64(out, fb.start_address);
            let ghost before = out@;
            push_u64(out, fb.info.width as u64);
            push_u64(out, fb.info.height as u64);
            match fb.info.pixel_format {
                PixelFormat::Rgb => push_tag(out, 0),
                PixelFormat::Bgr => push_tag(out, 1),
            }
            push_u64(out, fb.info.byte_len as u64);
            push_u64(out, fb.info.bytes_per_pixel as u64);
            push_u64(out, fb.info.stride as u64);
            assert(out@ =~= before + framebuffer_info_bytes(fb.info));
            assert(out@ =~= old(out)@ + optional_framebuffer_bytes(*value));
        },
        Optional::Absent => {
            push_tag(out, TAG_ABSENT);
            push_zeros(out, 56);
            assert(out@ =~= old(out)@ + optional_framebuffer_bytes(*value));
        },
    }
}

/// Appends an optional thread-local storage template to `out`.
fn push_optional_tls(out: &mut Vec<u8>, value: &Optional<TlsTemplate>)
    ensures
        final(out)@ == old(out)@ + optional_tls_bytes(*value),
        optional_tls_bytes(*value).len() == 32,
{
    match value {
        Optional::Present(t) => {
            push_tag(out, TAG_PRESENT);
            push_u64(out, t.start_address);
            push_u64(out, t.file_size);
            push_u64(out, t.mem_size);
        },
        Optional::Absent => {
            push_tag(out, TAG_ABSENT);
            push_zeros(out, 24);
        },
    }
    assert(out@ =~= old(out)@ + optional_tls_bytes(*value));
}

impl BootInfo {
    /// The 168 bytes of the record in the kernel's memory, when the array of
    /// its memory regions lies at `regions_addr`.
    pub fn encode(&self, regions_addr: u64) -> (r: Vec<u8>)
        ensures
            r@ == boot_info_bytes(*self, regions_addr),
            r@.len() == BOOT_INFO_BYTES,
    {
        let mut out: Vec<u8> = Vec::new();
        push_u64(&mut out, regions_addr);
        assert(out@ =~= le_bytes(regions_addr));
        push_u64(&mut out, self.memory_regions.len() as u64);
        push_optional_framebuffer(&mut out, &self.framebuffer);
        push_optional_u64(&mut out, &self.physical_memory_offset);
        push_optional_u64(&mut out, &self.rsdp_address);
        push_optional_tls(&mut out, &self.tls_template);
        push_optional_u64(&mut out, &self.ramdisk_address);
        push_u64(&mut out, self.ramdisk_len);
        out
    }

    /// The bytes of the array of memory regions in the kernel's memory.
    pub fn encode_memory_regions(&self) -> (r: Vec<u8>)
        ensures
            r@ == regions_bytes(self.memory_regions@),
            r@.len() == self.memory_regions@.len() * MEMORY_REGION_BYTES,
    {
        let mut out: Vec<u8> = Vec::new();
        let mut i: usize = 0;
        assert(self.memory_regions@.subrange(0, 0) =~= Seq::<MemoryRegion>::empty());
        while i < self.memory_regions.len()
            invariant
                i <= self.memory_regions@.len(),
                out@ == regions_bytes(self.memory_regions@.subrange(0, i as int)),
                out@.len() == i * MEMORY_REGION_BYTES,
            decreases self.memory_regions@.len() - i,
        {
            let region = self.memory_regions.get(i);
            let mut bytes = region.encode();
            proof {
                assert(self.memory_regions@.subrange(0, i + 1).drop_last()
                    =~= self.memory_regions@.subrange(0, i as int));
                assert(self.memory_regions@.subrange(0, i + 1).last() == region);
            }
            out.append(&mut bytes);
            i += 1;
        }
        assert(self.memory_regions@.subrange(0, i as int) =~= self.memory_regions@);
        out
    }
}

} // verus!
