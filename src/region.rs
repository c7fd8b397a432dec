use crate::frame::{frame_ceil, frame_ceil_spec, frame_floor, frame_floor_spec, FRAME_SIZE};
use vstd::prelude::*;

verus! {

/// What a range of physical memory is used for. Exactly one per region.
#[derive(Clone, Copy, Debug, PartialEq, Eq, Structural)]
pub enum MemoryRegionType {
    /// free RAM
    Usable,
    /// used RAM
    InUse,
    /// unusable
    Reserved,
    /// ACPI reclaimable memory
    AcpiReclaimable,
    /// ACPI NVS memory
    AcpiNvs,
    /// area containing bad memory
    BadMemory,
    /// kernel memory
    Kernel,
    /// kernel stack memory
    KernelStack,
    /// memory used by page tables
    PageTable,
    /// memory used by the bootloader
    Bootloader,
    /// the frame at address zero, kept apart because null-pointer mistakes
    /// land there
    FrameZero,
    /// an empty region with size 0, filling an unused slot
    Empty,
    /// memory that holds the boot information itself
    BootInfo,
}

/// Half-open range `[start_frame, end_frame)` of physical byte addresses,
/// both frame boundaries when the range comes from `MemoryRegion::convert`.
/// A range whose start is not below its end holds no frame.
#[derive(Clone, Copy, Debug, PartialEq, Eq, Structural)]
pub struct FrameRange {
    pub start_frame: u64,
    pub end_frame: u64,
}

impl FrameRange {
    /// Both ends of the range are frame boundaries.
    pub open spec fn wf(&self) -> bool {
        &&& self.start_frame % FRAME_SIZE == 0
        &&& self.end_frame % FRAME_SIZE == 0
    }

    pub open spec fn spec_is_empty(&self) -> bool {
        self.start_frame >= self.end_frame
    }

    /// Whether the range holds no frame.
    #[verifier::when_used_as_spec(spec_is_empty)]
    pub fn is_empty(&self) -> (r: bool)
        ensures
            r == self.spec_is_empty(),
    {
        self.start_frame >= self.end_frame
    }
}

/// A classified range of physical memory.
#[derive(Clone, Copy, Debug, PartialEq, Eq, Structural)]
pub struct MemoryRegion {
    pub range: FrameRange,
    pub region_type: MemoryRegionType,
}

/// A memory descriptor as the firmware reports it (BIOS function E820h):
/// a byte range that need not be frame-aligned and a firmware type code.
#[derive(Clone, Copy, Debug, PartialEq, Eq, Structural)]
pub struct E820MemoryRegion {
    pub start_addr: u64,
    pub len: u64,
    pub region_type: u32,
    pub acpi_extended_attributes: u32,
}

/// A region that may stand in a map: a non-empty, frame-aligned range of
/// any type but `Empty`.
pub open spec fn region_in_use(r: MemoryRegion) -> bool {
    &&& !r.range.is_empty()
    &&& r.range.wf()
    &&& r.region_type != MemoryRegionType::Empty
}

/// The sentinel that fills an unused slot of a map.
pub open spec fn empty_region() -> MemoryRegion {
    MemoryRegion { range: FrameRange { start_frame: 0, end_frame: 0 }, region_type: MemoryRegionType::Empty }
}

/// The region type that a firmware type code stands for, if it is known.
pub open spec fn type_of_code(code: u32) -> Option<MemoryRegionType> {
    if code == 1 {
        Some(MemoryRegionType::Usable)
    } else if code == 2 {
        Some(MemoryRegionType::Reserved)
    } else if code == 3 {
        Some(MemoryRegionType::AcpiReclaimable)
    } else if code == 4 {
        Some(MemoryRegionType::AcpiNvs)
    } else if code == 5 {
        Some(MemoryRegionType::BadMemory)
    } else {
        None
    }
}

/// A firmware record whose byte range ends low enough that its end, rounded
/// up to a frame boundary, is still a 64-bit address.
pub open spec fn e820_in_bounds(rec: E820MemoryRegion) -> bool {
    rec.start_addr + rec.len <= u64::MAX - (FRAME_SIZE - 1)
}

/// The frame range of a firmware record: its start rounded down and its end
/// rounded up to frame boundaries.
pub open spec fn e820_frame_range(rec: E820MemoryRegion) -> FrameRange {
    FrameRange {
        start_frame: frame_floor_spec(rec.start_addr as int) as u64,
        end_frame: frame_ceil_spec(rec.start_addr + rec.len) as u64,
    }
}

/// What converting a firmware record of a known type code gives.
pub open spec fn convert_spec(rec: E820MemoryRegion) -> MemoryRegion {
    MemoryRegion { range: e820_frame_range(rec), region_type: type_of_code(rec.region_type)->Some_0 }
}

impl MemoryRegionType {
    /// Looks a firmware type code up: 1 usable, 2 reserved, 3 ACPI
    /// reclaimable, 4 ACPI NVS, 5 bad memory; any other code is unknown.
    pub fn from_e820_code(code: u32) -> (r: Option<MemoryRegionType>)
        ensures
            r == type_of_code(code),
    {
        match code {
            1 => Some(MemoryRegionType::Usable),
            2 => Some(MemoryRegionType::Reserved),
            3 => Some(MemoryRegionType::AcpiReclaimable),
            4 => Some(MemoryRegionType::AcpiNvs),
            5 => Some(MemoryRegionType::BadMemory),
            _ => None,
        }
    }
}

impl MemoryRegion {
    /// The sentinel of an unused slot: an empty range at address zero, of
    /// type `Empty`.
    pub fn empty() -> (r: MemoryRegion)
        ensures
            r == empty_region(),
            r.range.is_empty(),
            r.range.wf(),
    {
        let zero = frame_floor(0);
        MemoryRegion {
            range: FrameRange { start_frame: zero, end_frame: zero },
            region_type: MemoryRegionType::Empty,
        }
    }

    /// Classifies a firmware record and widens its byte range to whole
    /// frames. An unknown type code is a fatal input error, so the caller
    /// must rule it out (see `MemoryRegionType::from_e820_code`); nothing is
    /// guessed.
    pub fn convert(rec: E820MemoryRegion) -> (r: MemoryRegion)
        requires
            e820_in_bounds(rec),
            type_of_code(rec.region_type) is Some,
        ensures
            r == convert_spec(rec),
            Some(r.region_type) == type_of_code(rec.region_type),
            r.range.wf(),
            r.range.start_frame <= rec.start_addr,
            rec.start_addr + rec.len <= r.range.end_frame,
            r.range.start_frame <= r.range.end_frame,
    {
        let region_type = MemoryRegionType::from_e820_code(rec.region_type).unwrap();
        let start_frame = frame_floor(rec.start_addr);
        let end_frame = frame_ceil(rec.start_addr + rec.len);
        MemoryRegion { range: FrameRange { start_frame, end_frame }, region_type }
    }
}

/// Converting a firmware record depends on the record alone: two
/// conversions of the same record give the same region.
pub proof fn lemma_convert_deterministic(a: E820MemoryRegion, b: E820MemoryRegion)
    requires
        a == b,
    ensures
        convert_spec(a) == convert_spec(b),
{
}

/// A converted range covers the whole byte range that the firmware reported:
/// it starts at or below its first byte and ends at or above its end.
pub proof fn lemma_convert_covers(rec: E820MemoryRegion)
    requires
        e820_in_bounds(rec),
        type_of_code(rec.region_type) is Some,
    ensures
        convert_spec(rec).range.start_frame <= rec.start_addr,
        rec.start_addr + rec.len <= convert_spec(rec).range.end_frame,
{
}

} // verus!
