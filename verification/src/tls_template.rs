use vstd::prelude::*;

verus! {

/// The thread-local storage template of a kernel image: where its initial image
/// starts, how many bytes of it are initialised, and how large it is in memory.
#[derive(Debug, Clone, Copy, PartialEq, Eq, Structural)]
pub struct TlsTemplate {
    pub start_address: u64,
    pub file_size: u64,
    pub mem_size: u64,
}

} // verus!
