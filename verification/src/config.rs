//! Settings that the rest of the app keys its behaviour on: the global offset
//! and per-output trim ranges, the resync quanta, per-output settings and the
//! selected input source.
use vstd::prelude::*;

verus! {

pub const MIN_OFFSET_MS: i32 = -4000;
pub const MAX_OFFSET_MS: i32 = 4000;
pub const DEFAULT_OFFSET_MS: i32 = 200;

pub const MIN_TRIM_MS: i32 = -50;
pub const MAX_TRIM_MS: i32 = 50;

pub const RESYNC_QUANTA_BARS: [u8; 3] = [1, 2, 4];
pub const DEFAULT_RESYNC_QUANTUM_BARS: u8 = 1;

/// `ms` limited to the closed range `[lo, hi]` (for `lo <= hi`).
pub open spec fn clamped(ms: int, lo: int, hi: int) -> int {
    if ms < lo {
        lo
    } else if ms > hi {
        hi
    } else {
        ms
    }
}

/// Limits a global offset to the supported range, −4000 … +4000 ms
/// (positive = earlier).
pub fn clamp_offset_ms(ms: i32) -> (r: i32)
    ensures
        r == clamped(ms as int, MIN_OFFSET_MS as int, MAX_OFFSET_MS as int),
{
    if ms < MIN_OFFSET_MS {
        MIN_OFFSET_MS
    } else if ms > MAX_OFFSET_MS {
        MAX_OFFSET_MS
    } else {
        ms
    }
}

/// Limits a per-output trim to the supported range, −50 … +50 ms.
pub fn clamp_trim_ms(ms: i32) -> (r: i32)
    ensures
        r == clamped(ms as int, MIN_TRIM_MS as int, MAX_TRIM_MS as int),
{
    if ms < MIN_TRIM_MS {
        MIN_TRIM_MS
    } else if ms > MAX_TRIM_MS {
        MAX_TRIM_MS
    } else {
        ms
    }
}

/// Clamping is idempotent, keeps in-range values and always lands in range.
pub proof fn lemma_clamp_offset(ms: int)
    ensures
        MIN_OFFSET_MS <= clamped(ms, MIN_OFFSET_MS as int, MAX_OFFSET_MS as int) <= MAX_OFFSET_MS,
        MIN_OFFSET_MS <= ms <= MAX_OFFSET_MS ==> clamped(ms, MIN_OFFSET_MS as int, MAX_OFFSET_MS as int) == ms,
        clamped(clamped(ms, MIN_OFFSET_MS as int, MAX_OFFSET_MS as int), MIN_OFFSET_MS as int, MAX_OFFSET_MS as int)
            == clamped(ms, MIN_OFFSET_MS as int, MAX_OFFSET_MS as int),
{
}

/// Same three facts for the trim range.
pub proof fn lemma_clamp_trim(ms: int)
    ensures
        MIN_TRIM_MS <= clamped(ms, MIN_TRIM_MS as int, MAX_TRIM_MS as int) <= MAX_TRIM_MS,
        MIN_TRIM_MS <= ms <= MAX_TRIM_MS ==> clamped(ms, MIN_TRIM_MS as int, MAX_TRIM_MS as int) == ms,
        clamped(clamped(ms, MIN_TRIM_MS as int, MAX_TRIM_MS as int), MIN_TRIM_MS as int, MAX_TRIM_MS as int)
            == clamped(ms, MIN_TRIM_MS as int, MAX_TRIM_MS as int),
{
}

/// Which source feeds the engine: the app's own virtual input port, a hardware
/// MIDI input (by name), or the built-in simulator.
#[derive(Debug, Clone, PartialEq, Eq)]
pub enum InputSource {
    VirtualIn,
    Hardware(String),
    Simulator,
}

impl Default for InputSource {
    fn default() -> (r: Self)
        ensures
            r is VirtualIn,
    {
        InputSource::VirtualIn
    }
}

/// Per-output settings, stored by port name.
#[derive(Debug, Clone, PartialEq, Eq, Structural)]
pub struct OutputSettings {
    pub enabled: bool,
    pub trim_ms: i32,
    pub forward_transport: bool,
}

impl Default for OutputSettings {
    /// Disabled, no trim, start/stop forwarded.
    fn default() -> (r: Self)
        ensures
            r == (OutputSettings { enabled: false, trim_ms: 0, forward_transport: true }),
    {
        OutputSettings { enabled: false, trim_ms: 0, forward_transport: true }
    }
}

} // verus!
