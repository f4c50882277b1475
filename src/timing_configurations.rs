use vstd::prelude::*;

verus! {

// Durations of the programming protocol, in nanoseconds.
/// Vdd rising to Vpp rising.
pub const T_PPDP: u32 = 5_000;

/// Vpp rising to the first clock edge.
pub const T_HLD0: u32 = 5_000;

/// Clock high before its falling edge.
pub const T_SET: u32 = 100;

/// Clock low after its falling edge.
pub const T_HLD1: u32 = 100;

/// Between a command and its payload.
pub const T_DLY2: u32 = 1_000;

/// Bulk erase.
pub const T_ERA: u32 = 10_000_000;

/// One program cycle.
pub const T_PROG: u32 = 2_000_000;

/// Discharge after the end of programming.
pub const T_DIS: u32 = 100_000;

/// Reset hold after leaving programming mode.
pub const T_RESET: u32 = 10_000_000;

} // verus!
