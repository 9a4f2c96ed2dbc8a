# yenx_kernel

The core of a small x86-64 kernel, verified with Verus.

`src/` is the library:

- `mm/` — page-table entry encoding and the boot page tables, a bitmap
  allocator of 4 KiB frames, and the page-granular kernel heap
  (`kmalloc`/`kfree`) together with the page-table search that finds the
  virtual address of a physical one. Page-table memory is modelled as a
  sequence of 64-bit words (`PhysMem`).
- `screen/` — a linear framebuffer held as its pixel words, glyph drawing
  from an 8x16 font, the scrolling text console, and the parsing of the
  multiboot2 framebuffer tag.
- `apic.rs`, `serial.rs` — the register and port writes that program the
  x2APIC, the legacy PICs and the UART.
- `process.rs` — saved contexts and the round-robin process table.
- `logger.rs`, `interrupts.rs` — log routing and the answer to each CPU
  exception.

`app/` is the kernel around it: the boot entry, the interrupt stubs, the
port and MSR accesses, and the copy of page-table words between the
hardware and the library's model.
