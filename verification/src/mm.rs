//! Memory management: page-table entries, physical frames and the kernel heap.

pub mod phys_mem;
pub mod paging;
pub mod frame_alloc;
pub mod malloc;
