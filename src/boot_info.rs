use crate::memory_map::MemoryMap;
use vstd::prelude::*;

verus! {

/// Version of the boot record's layout. The loader stamps it and the
/// kernel checks it before it trusts any other field.
pub const VERSION: u64 = 4;

/// The record that the loader hands to the kernel: the layout version, the
/// physical address of the root page table, and the memory map.
pub struct BootInfo {
    pub version: u64,
    pub p4_table_addr: u64,
    pub memory_map: MemoryMap,
}

impl BootInfo {
    /// A boot record of the current layout version.
    pub fn new(p4_table_addr: u64, memory_map: MemoryMap) -> (b: BootInfo)
        ensures
            b.version == VERSION,
            b.p4_table_addr == p4_table_addr,
            b.memory_map == memory_map,
    {
        BootInfo { version: VERSION, p4_table_addr, memory_map }
    }

    /// Succeeds exactly when the record was written with the layout version
    /// that this library expects.
    pub fn check_version(&self) -> (r: Result<(), ()>)
        ensures
            r is Ok <==> self.version == VERSION,
    {
        if self.version == VERSION {
            Ok(())
        } else {
            Err(())
        }
    }
}

} // verus!
