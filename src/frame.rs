use vstd::arithmetic::power2::{lemma2_to64, pow2};
use vstd::prelude::*;

verus! {

/// Size in bytes of one physical frame.
pub const FRAME_SIZE: u64 = 4096;

/// The greatest multiple of `align` that is not above `addr`.
pub open spec fn align_down_spec(addr: int, align: int) -> int {
    addr - addr % align
}

/// The least multiple of `align` that is not below `addr`.
pub open spec fn align_up_spec(addr: int, align: int) -> int {
    if addr % align == 0 {
        addr
    } else {
        addr - addr % align + align
    }
}

/// Start of the frame that holds byte address `addr`.
pub open spec fn frame_floor_spec(addr: int) -> int {
    align_down_spec(addr, FRAME_SIZE as int)
}

/// First frame boundary at or above byte address `addr`.
pub open spec fn frame_ceil_spec(addr: int) -> int {
    align_up_spec(addr, FRAME_SIZE as int)
}

/// Relies on `x86_64::addr::align_down`: for a power-of-two `align` it
/// returns the greatest multiple of `align` that is `<= addr`; it panics
/// only when `align` is not a power of two.
pub assume_specification[ x86_64::addr::align_down ](addr: u64, align: u64) -> (r: u64)
    requires
        exists|k: nat| k < 64 && pow2(k) == align,
    ensures
        r == addr - addr % align,
;

/// Relies on `x86_64::addr::align_up`: for a power-of-two `align` it
/// returns the least multiple of `align` that is `>= addr`; it panics when
/// `align` is not a power of two or when that multiple exceeds `u64::MAX`.
pub assume_specification[ x86_64::addr::align_up ](addr: u64, align: u64) -> (r: u64)
    requires
        exists|k: nat| k < 64 && pow2(k) == align,
        addr % align == 0 || addr - addr % align + align <= u64::MAX,
    ensures
        addr % align == 0 ==> r == addr,
        addr % align != 0 ==> r == addr - addr % align + align,
;

proof fn lemma_frame_size_is_power_of_two()
    ensures
        exists|k: nat| k < 64 && pow2(k) == FRAME_SIZE,
{
    lemma2_to64();
    assert(pow2(12) == FRAME_SIZE);
}

/// Rounds a byte address down to the start of its frame.
pub fn frame_floor(addr: u64) -> (r: u64)
    ensures
        r == frame_floor_spec(addr as int),
        r <= addr,
        r % FRAME_SIZE == 0,
        addr - r < FRAME_SIZE,
{
    proof {
        lemma_frame_size_is_power_of_two();
    }
    x86_64::addr::align_down(addr, FRAME_SIZE)
}

/// Rounds a byte address up to the next frame boundary (itself when it is
/// already aligned).
pub fn frame_ceil(addr: u64) -> (r: u64)
    requires
        addr <= u64::MAX - (FRAME_SIZE - 1),
    ensures
        r == frame_ceil_spec(addr as int),
        addr <= r,
        r % FRAME_SIZE == 0,
        r - addr < FRAME_SIZE,
{
    proof {
        lemma_frame_size_is_power_of_two();
        assert(addr % FRAME_SIZE == 0 || addr - addr % FRAME_SIZE + FRAME_SIZE <= u64::MAX);
    }
    x86_64::addr::align_up(addr, FRAME_SIZE)
}

} // verus!
