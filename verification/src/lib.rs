//! Verified core logic of the OnyxKernel RISC-V kernel.
use vstd::prelude::*;

pub mod compress;
pub mod errno;
pub mod fat32;
pub mod fdt;
pub mod fb;
pub mod fb_term;
pub mod font;
pub mod ipc;
pub mod klog;
pub mod mm;
pub mod le;
pub mod mmio;
pub mod onyxfs;
pub mod pci;
pub mod procfs;
pub mod regs;
pub mod sdhci;
pub mod smp;
pub mod trap_frame;
pub mod vfs;
pub mod virtio;

verus! {
} // verus!
