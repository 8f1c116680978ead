# OnyxKernel library, verified with Verus

The logic of a small RISC-V (Sv39) kernel, written as a Verus library whose
functions carry `requires` / `ensures` contracts that Verus proves.

## Layout

- `src/` — the verified library, one module per subsystem:
  - `mm/` — physical page bitmap and slab caches (`pmm`), the kernel heap
    (`heap`), Sv39 page tables (`vmm`) and the translation laws (`mapping`);
  - `onyxfs/` — the journaled filesystem: on-disk formats, bitmaps,
    directories, file data, the write-ahead journal and its recovery
    (`fs`, `redo`), snapshots with RLE compression and rollback
    (`snapshot`), and what a read gives back of a write (`readback`);
  - `vfs/` — mounts, capability tokens for file descriptors, and the
    operations that dispatch to OnyxFS, FAT32 and procfs;
  - `compress`, `ipc`, `procfs`, `fat32`, `fdt`, `klog`, `fb`, `fb_term`,
    `font`, `pci`, `sdhci`, `virtio`, `regs`, `mmio`, `le`, `errno`,
    `smp`, `trap_frame` — the rest of the kernel's decisions and formats.
- `tests/` — ordinary Rust tests that run the library on concrete values.
- `app/` — the thin executable around it: CSR and MMIO access, the UART,
  interrupt plumbing, the global allocator and the boot sequence. Device
  drivers there perform the register accesses that the library's state
  machines decide.

Laws that relate several operations (roundtrips of the formats and of
RLE, journal redo, snapshot rollback, page allocation and freeing, heap
allocation and freeing, mapping then translating, descriptor tokens) are
public proof functions next to the code they speak of.
