use vstd::prelude::*;

verus! {

// Memory map of the PIC10F200 family member that the programmer is built for.
/// Holds the configuration fuses; the program counter's value on entry to
/// programming mode.
pub const CONFIGURATION_WORD_ADDRESS: u16 = 0x1FF;

/// First word of the user ID region.
pub const USER_ID_FIRST_ADDRESS: u16 = 0x100;

/// The factory oscillator calibration, stored as a `MOVLW k` instruction in
/// the last word of program memory.
pub const OSCCAL_ADDRESS: u16 = 0x0FF;

/// The raw backup copy of the oscillator calibration.
pub const BACKUP_OSCCAL_ADDRESS: u16 = 0x104;

/// Number of words that the program counter walks through before it wraps.
pub const ADDRESS_SIZE: u16 = 0x200;

} // verus!
