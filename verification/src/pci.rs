//! PCI configuration-space scan for a display controller's framebuffer.
//!
//! The scan walks buses 0..16 (skipping a bus whose device 0 is absent),
//! devices 0..32 of each, and for a display controller (class 0x03) its
//! six base address registers; the first memory BAR with a non-zero
//! address gives the framebuffer. It is a state machine: each state names
//! the configuration word to read next, and the word read moves it on.
use vstd::prelude::*;
use crate::errno::Errno;

verus! {

pub const ECAM_BASE: usize = 0x3000_0000;
pub const PCI_VENDOR_ID: u32 = 0x00;
pub const PCI_CLASS_REV: u32 = 0x08;
pub const PCI_BAR0: u32 = 0x10;

/// Physical address of a configuration word.
pub fn cfg_addr(bus: u8, dev: u8, fun: u8, off: u32) -> (r: usize)
    requires
        dev < 32,
        fun < 8,
        off < 4096,
    ensures
        r == ECAM_BASE + bus * 0x10_0000 + dev * 0x8000 + fun * 0x1000 + off,
{
    let b = bus as usize;
    let d = dev as usize;
    let f = fun as usize;
    assert(b < 256);
    ECAM_BASE + b * 0x10_0000 + d * 0x8000 + f * 0x1000 + off as usize
}

/// A configuration word to read: bus, device, function 0, offset.
#[derive(Clone, Copy, Debug, PartialEq, Eq, Structural)]
pub struct CfgRead {
    pub bus: u8,
    pub dev: u8,
    pub off: u32,
}

/// Where the scan stands.
#[derive(Clone, Copy, Debug, PartialEq, Eq, Structural)]
pub enum PciScan {
    Probe { bus: u8 },
    Vendor { bus: u8, dev: u8 },
    Class { bus: u8, dev: u8 },
    Bar { bus: u8, dev: u8, bar: u32 },
    BarHigh { bus: u8, dev: u8, bar: u32, lo: u32 },
    Found { pa: u64 },
    NotFound,
}

/// A vendor word that means "no device".
pub open spec fn absent(v: u32) -> bool {
    v & 0xFFFF == 0xFFFF || v & 0xFFFF == 0
}

/// The scan moved past bus `bus`.
pub open spec fn after_bus(bus: u8) -> PciScan {
    if bus + 1 < 16 {
        PciScan::Probe { bus: (bus + 1) as u8 }
    } else {
        PciScan::NotFound
    }
}

/// The scan moved past device `dev` of bus `bus`.
pub open spec fn after_dev(bus: u8, dev: u8) -> PciScan {
    if dev + 1 < 32 {
        PciScan::Vendor { bus, dev: (dev + 1) as u8 }
    } else {
        after_bus(bus)
    }
}

/// The scan moved past BAR `bar`.
pub open spec fn after_bar(bus: u8, dev: u8, bar: u32) -> PciScan {
    if bar + 1 < 6 {
        PciScan::Bar { bus, dev, bar: (bar + 1) as u32 }
    } else {
        after_dev(bus, dev)
    }
}

/// The scan state holds valid bus, device and BAR numbers.
pub open spec fn scan_wf(s: PciScan) -> bool {
    match s {
        PciScan::Probe { bus } => bus < 16,
        PciScan::Vendor { bus, dev } => bus < 16 && dev < 32,
        PciScan::Class { bus, dev } => bus < 16 && dev < 32,
        PciScan::Bar { bus, dev, bar } => bus < 16 && dev < 32 && bar < 6,
        PciScan::BarHigh { bus, dev, bar, .. } => bus < 16 && dev < 32 && bar + 1 < 6,
        _ => true,
    }
}

/// The word a state reads.
pub open spec fn spec_scan_read(s: PciScan) -> Option<CfgRead> {
    match s {
        PciScan::Probe { bus } => Some(CfgRead { bus, dev: 0, off: PCI_VENDOR_ID }),
        PciScan::Vendor { bus, dev } => Some(CfgRead { bus, dev, off: PCI_VENDOR_ID }),
        PciScan::Class { bus, dev } => Some(CfgRead { bus, dev, off: PCI_CLASS_REV }),
        PciScan::Bar { bus, dev, bar } => Some(CfgRead { bus, dev, off: (PCI_BAR0 + bar * 4) as u32 }),
        PciScan::BarHigh { bus, dev, bar, .. } => Some(CfgRead { bus, dev, off: (PCI_BAR0 + bar * 4 + 4) as u32 }),
        _ => None,
    }
}

/// The state after reading `val`.
pub open spec fn spec_scan_next(s: PciScan, val: u32) -> PciScan {
    match s {
        PciScan::Probe { bus } => if absent(val) {
            after_bus(bus)
        } else {
            PciScan::Vendor { bus, dev: 0 }
        },
        PciScan::Vendor { bus, dev } => if absent(val) {
            after_dev(bus, dev)
        } else {
            PciScan::Class { bus, dev }
        },
        PciScan::Class { bus, dev } => if (val >> 16u32) >> 8u32 == 0x03 {
            PciScan::Bar { bus, dev, bar: 0 }
        } else {
            after_dev(bus, dev)
        },
        PciScan::Bar { bus, dev, bar } => if val == 0 || val == 0xFFFF_FFFF || val & 1 != 0 {
            after_bar(bus, dev, bar)
        } else if val & 0x6 == 0x4 {
            if bar + 1 >= 6 {
                after_bar(bus, dev, bar)
            } else {
                PciScan::BarHigh { bus, dev, bar, lo: val }
            }
        } else if val & 0xFFFF_FFF0 == 0 {
            after_bar(bus, dev, bar)
        } else {
            PciScan::Found { pa: (val & 0xFFFF_FFF0) as u64 }
        },
        PciScan::BarHigh { lo, .. } => PciScan::Found {
            pa: ((lo & 0xFFFF_FFF0) as u64) | ((val as u64) << 32u64),
        },
        _ => s,
    }
}

/// The scan's answer once finished: the framebuffer address, or `NoEnt`.
pub open spec fn spec_scan_result(s: PciScan) -> Option<Result<u64, Errno>> {
    match s {
        PciScan::Found { pa } => Some(Ok(pa)),
        PciScan::NotFound => Some(Err(Errno::NoEnt)),
        _ => None,
    }
}

impl PciScan {
    /// The first state: bus 0.
    pub fn start() -> (r: PciScan)
        ensures
            r == (PciScan::Probe { bus: 0 }),
            scan_wf(r),
    {
        PciScan::Probe { bus: 0 }
    }

    /// The configuration word to read next, if the scan goes on.
    pub fn read(self) -> (r: Option<CfgRead>)
        requires
            scan_wf(self),
        ensures
            r == spec_scan_read(self),
    {
        match self {
            PciScan::Probe { bus } => Some(CfgRead { bus, dev: 0, off: PCI_VENDOR_ID }),
            PciScan::Vendor { bus, dev } => Some(CfgRead { bus, dev, off: PCI_VENDOR_ID }),
            PciScan::Class { bus, dev } => Some(CfgRead { bus, dev, off: PCI_CLASS_REV }),
            PciScan::Bar { bus, dev, bar } => Some(CfgRead { bus, dev, off: PCI_BAR0 + bar * 4 }),
            PciScan::BarHigh { bus, dev, bar, .. } => Some(CfgRead { bus, dev, off: PCI_BAR0 + bar * 4 + 4 }),
            _ => None,
        }
    }

    /// The state after the word read was `val`.
    pub fn next(self, val: u32) -> (r: PciScan)
        requires
            scan_wf(self),
        ensures
            r == spec_scan_next(self, val),
            scan_wf(r),
    {
        match self {
            PciScan::Probe { bus } => {
                if val & 0xFFFF == 0xFFFF || val & 0xFFFF == 0 {
                    next_bus(bus)
                } else {
                    PciScan::Vendor { bus, dev: 0 }
                }
            },
            PciScan::Vendor { bus, dev } => {
                if val & 0xFFFF == 0xFFFF || val & 0xFFFF == 0 {
                    next_dev(bus, dev)
                } else {
                    PciScan::Class { bus, dev }
                }
            },
            PciScan::Class { bus, dev } => {
                if (val >> 16u32) >> 8u32 == 0x03 {
                    PciScan::Bar { bus, dev, bar: 0 }
                } else {
                    next_dev(bus, dev)
                }
            },
            PciScan::Bar { bus, dev, bar } => {
                if val == 0 || val == 0xFFFF_FFFF || val & 1 != 0 {
                    next_bar(bus, dev, bar)
                } else if val & 0x6 == 0x4 {
                    if bar + 1 >= 6 {
                        next_bar(bus, dev, bar)
                    } else {
                        PciScan::BarHigh { bus, dev, bar, lo: val }
                    }
                } else if val & 0xFFFF_FFF0 == 0 {
                    next_bar(bus, dev, bar)
                } else {
                    PciScan::Found { pa: (val & 0xFFFF_FFF0) as u64 }
                }
            },
            PciScan::BarHigh { lo, .. } => PciScan::Found {
                pa: ((lo & 0xFFFF_FFF0) as u64) | ((val as u64) << 32u64),
            },
            _ => self,
        }
    }

    /// The answer once the scan is finished.
    pub fn result(self) -> (r: Option<Result<u64, Errno>>)
        ensures
            r == spec_scan_result(self),
    {
        match self {
            PciScan::Found { pa } => Some(Ok(pa)),
            PciScan::NotFound => Some(Err(Errno::NoEnt)),
            _ => None,
        }
    }
}

fn next_bus(bus: u8) -> (r: PciScan)
    requires
        bus < 16,
    ensures
        r == after_bus(bus),
        scan_wf(r),
{
    if bus + 1 < 16 {
        PciScan::Probe { bus: bus + 1 }
    } else {
        PciScan::NotFound
    }
}

fn next_dev(bus: u8, dev: u8) -> (r: PciScan)
    requires
        bus < 16,
        dev < 32,
    ensures
        r == after_dev(bus, dev),
        scan_wf(r),
{
    if dev + 1 < 32 {
        PciScan::Vendor { bus, dev: dev + 1 }
    } else {
        next_bus(bus)
    }
}

fn next_bar(bus: u8, dev: u8, bar: u32) -> (r: PciScan)
    requires
        bus < 16,
        dev < 32,
        bar < 6,
    ensures
        r == after_bar(bus, dev, bar),
        scan_wf(r),
{
    if bar + 1 < 6 {
        PciScan::Bar { bus, dev, bar: bar + 1 }
    } else {
        next_dev(bus, dev)
    }
}

} // verus!
