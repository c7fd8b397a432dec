//! Physical-memory descriptor handed from an early-boot loader to a kernel:
//! a fixed-capacity, sorted map of frame-aligned memory regions, the
//! conversion of firmware (E820) records into such regions, and the
//! versioned boot record that carries the map across the handoff.
mod boot_info;
mod frame;
mod memory_map;
mod region;

pub use boot_info::{BootInfo, VERSION};
pub use frame::{
    align_down_spec, align_up_spec, frame_ceil, frame_ceil_spec, frame_floor, frame_floor_spec,
    FRAME_SIZE,
};
pub use memory_map::{region_le, sorted_by_start, sorted_prefix, MemoryMap, MAP_CAPACITY};
pub use region::{
    convert_spec, e820_frame_range, region_in_use, e820_in_bounds, empty_region, lemma_convert_covers,
    lemma_convert_deterministic, type_of_code, E820MemoryRegion, FrameRange,
    MemoryRegion, MemoryRegionType,
};
