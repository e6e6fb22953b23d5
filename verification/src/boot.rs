use vstd::prelude::*;
use crate::framebuffer::Framebuffer;
use crate::memory::MemoryRegions;
use crate::optional::Optional;
use crate::tls_template::TlsTemplate;

verus! {

/// What the boot loader is asked for before it starts the kernel.
pub struct BootConfig {
    /// The largest framebuffer width that is acceptable.
    pub framebuffer_width: usize,
    /// The largest framebuffer height that is acceptable.
    pub framebuffer_height: usize,
}

/// What the kernel is told when it is entered.
pub struct BootInfo {
    pub memory_regions: MemoryRegions,
    pub framebuffer: Optional<Framebuffer>,
    pub physical_memory_offset: Optional<u64>,
    pub rsdp_address: Optional<u64>,
    pub tls_template: Optional<TlsTemplate>,
    pub ramdisk_address: Optional<u64>,
    pub ramdisk_len: u64,
}

impl BootInfo {
    /// Boot information that holds the memory map and nothing else.
    pub fn new(memory_regions: MemoryRegions) -> (r: Self)
        ensures
            r.memory_regions == memory_regions,
            r.framebuffer is Absent,
            r.physical_memory_offset is Absent,
            r.rsdp_address is Absent,
            r.tls_template is Absent,
            r.ramdisk_address is Absent,
            r.ramdisk_len == 0,
    {
        BootInfo {
            memory_regions,
            framebuffer: Optional::Absent,
            physical_memory_offset: Optional::Absent,
            rsdp_address: Optional::Absent,
            tls_template: Optional::Absent,
            ramdisk_address: Optional::Absent,
            ramdisk_len: 0,
        }
    }
}

/// The resolution that is chosen from the modes of the firmware's graphics
/// output, which are tried in turn: a mode that fits the configuration is
/// taken where it is at least as wide or at least as high as the one taken
/// before it. Zero by zero where no mode fits.
pub open spec fn chosen_resolution(modes: Seq<(usize, usize)>, config: BootConfig) -> (usize, usize)
    decreases modes.len(),
{
    if modes.len() == 0 {
        (0, 0)
    } else {
        let before = chosen_resolution(modes.drop_last(), config);
        let (width, height) = modes.last();
        if width <= config.framebuffer_width && height <= config.framebuffer_height && (width
            >= before.0 || height >= before.1) {
            (width, height)
        } else {
            before
        }
    }
}

/// Whether `index` is the last mode that has the resolution `resolution`.
pub open spec fn is_last_with(modes: Seq<(usize, usize)>, resolution: (usize, usize), index: int) -> bool {
    &&& 0 <= index < modes.len()
    &&& modes[index] == resolution
    &&& forall|j: int| index < j < modes.len() ==> #[trigger] modes[j] != resolution
}

/// The mode of the firmware's graphics output that is to be set: the last of
/// the modes that have the chosen resolution; none where no mode has it.
pub fn select_mode(modes: &Vec<(usize, usize)>, config: &BootConfig) -> (r: Option<usize>)
    ensures
        r matches Some(index) ==> is_last_with(
            modes@,
            chosen_resolution(modes@, *config),
            index as int,
        ),
        r is None ==> forall|j: int|
            0 <= j < modes@.len() ==> #[trigger] modes@[j] != chosen_resolution(modes@, *config),
{
    let mut last_width: usize = 0;
    let mut last_height: usize = 0;
    let mut i: usize = 0;
    assert(modes@.subrange(0, 0) =~= Seq::<(usize, usize)>::empty());
    while i < modes.len()
        invariant
            i <= modes@.len(),
            (last_width, last_height) == chosen_resolution(modes@.subrange(0, i as int), *config),
        decreases modes@.len() - i,
    {
        let (width, height) = modes[i];
        proof {
            assert(modes@.subrange(0, i + 1).drop_last() =~= modes@.subrange(0, i as int));
            assert(modes@.subrange(0, i + 1).last() == modes@[i as int]);
        }
        if width <= config.framebuffer_width && height <= config.framebuffer_height {
            if width >= last_width || height >= last_height {
                last_width = width;
                last_height = height;
            }
        }
        i += 1;
    }
    assert(modes@.subrange(0, i as int) =~= modes@);
    let mut found: Option<usize> = None;
    let mut k: usize = 0;
    while k < modes.len()
        invariant
            k <= modes@.len(),
            found matches Some(index) ==> index < k && modes@[index as int] == (
                last_width,
                last_height,
            ) && forall|j: int| index < j < k ==> #[trigger] modes@[j] != (last_width, last_height),
            found is None ==> forall|j: int|
                0 <= j < k ==> #[trigger] modes@[j] != (last_width, last_height),
        decreases modes@.len() - k,
    {
        let (width, height) = modes[k];
        if width == last_width && height == last_height {
            found = Some(k);
        }
        k += 1;
    }
    found
}

} // verus!
