//! Discovery of VirtIO devices behind memory-mapped registers.
//!
//! The registers are read and written by the caller; here is what the
//! kernel expects to read and what it has written.
use vstd::prelude::*;

verus! {

/// What the first register of a VirtIO device reads as: "virt".
pub const VIRTIO_MAGIC: u32 = 0x7472_6976;

/// The device version that the kernel can drive.
pub const VIRTIO_VERSION: u32 = 1;

/// Offset of the status register, in registers.
pub const VIRTIO_STATUS: usize = 0x14;

/// A VirtIO device behind memory-mapped registers at `base`.
#[derive(Copy, Clone, Debug)]
pub struct VirtioMmioDev {
    pub base: u64,
}

/// What a VirtIO device says of itself.
#[derive(Copy, Clone, Debug)]
pub struct VirtioMmioDevInfo {
    pub device_id: u32,
}

impl VirtioMmioDev {
    /// The device at `base`, whose first three registers read as `magic`,
    /// `version` and `device_id`. The first two must be those of a VirtIO
    /// device of the version that the kernel can drive.
    pub fn new(base: u64, magic: u32, version: u32, device_id: u32) -> (r: (
        Self,
        VirtioMmioDevInfo,
    ))
        requires
            magic == VIRTIO_MAGIC,
            version == VIRTIO_VERSION,
        ensures
            r.0.base == base,
            r.1.device_id == device_id,
    {
        (Self { base }, VirtioMmioDevInfo { device_id })
    }

    /// Address of the register number `offset`.
    pub fn register(&self, offset: usize) -> (r: u64)
        requires
            self.base + offset * 4 <= u64::MAX,
        ensures
            r == self.base + offset * 4,
    {
        self.base + (offset as u64) * 4
    }
}

/// The driver of a VirtIO 9P device.
#[derive(Copy, Clone, Debug)]
pub struct Virtio9pDriver {
    pub dev: VirtioMmioDev,
}

impl Virtio9pDriver {
    /// The driver of the device `dev`.
    pub fn new(dev: VirtioMmioDev) -> (r: Self)
        ensures
            r.dev == dev,
    {
        Self { dev }
    }

    /// What is written to the status register to bring the device up:
    /// first that it has been noticed, then that a driver is there too.
    pub fn init(&self) -> (r: [(usize, u32); 2])
        ensures
            r[0] == (VIRTIO_STATUS, 1u32),
            r[1] == (VIRTIO_STATUS, 5u32),
    {
        [(VIRTIO_STATUS, 1), (VIRTIO_STATUS, 5)]
    }
}

} // verus!
