//! A small x86-64 kernel core: page-table entries, a bitmap frame allocator,
//! a page-granular heap over a model of physical memory, a text console,
//! framebuffer drawing, x2APIC register programming and a round-robin
//! process table.

pub mod mm;
pub mod screen;
pub mod process;
pub mod apic;
pub mod logger;
pub mod serial;
pub mod interrupts;
