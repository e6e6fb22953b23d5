//! Core of a UEFI boot loader for x86_64 kernels: a bump frame allocator over the
//! firmware memory map, a planner for the kernel's virtual address space, and an
//! ELF loader, together with the boot information that is handed to the kernel.

pub mod optional;
pub mod tls_template;
pub mod addr;
mod convert;
pub mod memory;
pub mod framebuffer;
pub mod boot;
pub mod layout;
pub mod frame_allocator;
pub mod memory_map;
pub mod descriptor;
pub mod paging;
pub mod error;
pub mod elf;
pub mod kernel;
pub mod entries;
pub mod initium;
pub mod stack_laws;
pub mod nukleus;
pub mod disk_image;
pub mod uefi_boot;
