use vstd::prelude::*;

verus! {

/// Byte order in which a device's registers are accessed.
#[derive(Debug, Clone, Copy, PartialEq, Eq, Structural)]
pub enum DeviceEndian {
    Native,
    Big,
    Little,
}

/// Access sizes, in bytes, and whether unaligned accesses are allowed.
#[derive(Debug, Clone, Copy, PartialEq, Eq, Structural)]
pub struct AccessConstraints {
    pub min_access_size: u32,
    pub max_access_size: u32,
    pub unaligned: bool,
}

/// How a memory region's registers are accessed: the byte order, the accesses the guest may
/// make, and the accesses the device implements.
#[derive(Debug, Clone, Copy, PartialEq, Eq, Structural)]
pub struct MemoryRegionOps {
    pub endianness: DeviceEndian,
    pub valid: AccessConstraints,
    pub impl_: AccessConstraints,
}

/// Builds a `MemoryRegionOps` one setting at a time.
#[derive(Debug, Clone, Copy, PartialEq, Eq, Structural)]
pub struct MemoryRegionOpsBuilder {
    pub ops: MemoryRegionOps,
}

/// Access constraints with nothing set.
pub open spec fn no_constraints() -> AccessConstraints {
    AccessConstraints { min_access_size: 0, max_access_size: 0, unaligned: false }
}

impl MemoryRegionOpsBuilder {
    /// A builder with native byte order and no access constraints set.
    pub fn new() -> (r: MemoryRegionOpsBuilder)
        ensures
            r.ops == (MemoryRegionOps {
                endianness: DeviceEndian::Native,
                valid: no_constraints(),
                impl_: no_constraints(),
            }),
    {
        let none = AccessConstraints { min_access_size: 0, max_access_size: 0, unaligned: false };
        MemoryRegionOpsBuilder {
            ops: MemoryRegionOps { endianness: DeviceEndian::Native, valid: none, impl_: none },
        }
    }

    /// Registers are big-endian.
    pub fn big_endian(self) -> (r: MemoryRegionOpsBuilder)
        ensures
            r.ops == (MemoryRegionOps { endianness: DeviceEndian::Big, ..self.ops }),
    {
        let mut b = self;
        b.ops.endianness = DeviceEndian::Big;
        b
    }

    /// Registers are little-endian.
    pub fn little_endian(self) -> (r: MemoryRegionOpsBuilder)
        ensures
            r.ops == (MemoryRegionOps { endianness: DeviceEndian::Little, ..self.ops }),
    {
        let mut b = self;
        b.ops.endianness = DeviceEndian::Little;
        b
    }

    /// Registers follow the target's byte order.
    pub fn native_endian(self) -> (r: MemoryRegionOpsBuilder)
        ensures
            r.ops == (MemoryRegionOps { endianness: DeviceEndian::Native, ..self.ops }),
    {
        let mut b = self;
        b.ops.endianness = DeviceEndian::Native;
        b
    }

    /// The sizes of access the guest may make.
    pub fn valid_sizes(self, min: u32, max: u32) -> (r: MemoryRegionOpsBuilder)
        ensures
            r.ops == (MemoryRegionOps {
                valid: AccessConstraints { min_access_size: min, max_access_size: max, ..self.ops.valid },
                ..self.ops
            }),
    {
        let mut b = self;
        b.ops.valid.min_access_size = min;
        b.ops.valid.max_access_size = max;
        b
    }

    /// The guest may make unaligned accesses.
    pub fn valid_unaligned(self) -> (r: MemoryRegionOpsBuilder)
        ensures
            r.ops == (MemoryRegionOps {
                valid: AccessConstraints { unaligned: true, ..self.ops.valid },
                ..self.ops
            }),
    {
        let mut b = self;
        b.ops.valid.unaligned = true;
        b
    }

    /// The sizes of access the device implements.
    pub fn impl_sizes(self, min: u32, max: u32) -> (r: MemoryRegionOpsBuilder)
        ensures
            r.ops == (MemoryRegionOps {
                impl_: AccessConstraints { min_access_size: min, max_access_size: max, ..self.ops.impl_ },
                ..self.ops
            }),
    {
        let mut b = self;
        b.ops.impl_.min_access_size = min;
        b.ops.impl_.max_access_size = max;
        b
    }

    /// The device implements unaligned accesses.
    pub fn impl_unaligned(self) -> (r: MemoryRegionOpsBuilder)
        ensures
            r.ops == (MemoryRegionOps {
                impl_: AccessConstraints { unaligned: true, ..self.ops.impl_ },
                ..self.ops
            }),
    {
        let mut b = self;
        b.ops.impl_.unaligned = true;
        b
    }

    /// The settings made.
    pub fn build(self) -> (r: MemoryRegionOps)
        ensures
            r == self.ops,
    {
        self.ops
    }
}

} // verus!
