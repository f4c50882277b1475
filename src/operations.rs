use crate::special_addresses::ADDRESS_SIZE;
use vstd::prelude::*;

verus! {

/// Brings every programming line low.
pub trait InitProgrammer {
    /// The implementor's own invariant, which every method keeps.
    spec fn is_ready(&self) -> bool;

    fn init(&mut self)
        requires
            old(self).is_ready(),
        ensures
            final(self).is_ready(),
    ;
}

/// The programming cycle as the session controller drives it.
pub trait ProgramMemory: InitProgrammer {
    fn start_programming(&mut self)
        requires
            old(self).is_ready(),
        ensures
            final(self).is_ready(),
    ;

    /// Writes `data` at `address`, which lies in the target's address space.
    fn program(&mut self, address: u16, data: u16)
        requires
            old(self).is_ready(),
            address < ADDRESS_SIZE,
        ensures
            final(self).is_ready(),
    ;

    fn stop_programming(&mut self, config: u16, user_id: u16)
        requires
            old(self).is_ready(),
        ensures
            final(self).is_ready(),
    ;
}

/// One word read back from the target and the address it came from.
#[derive(PartialEq, Eq, Structural, Clone, Copy, Debug)]
pub struct MemoryData {
    pub address: u16,
    pub data: u16,
}

/// The read-back cycle: enter, read word after word, leave.
pub trait ReadMemory: InitProgrammer {
    fn start_reading(&mut self)
        requires
            old(self).is_ready(),
        ensures
            final(self).is_ready(),
    ;

    fn read(&mut self) -> (r: MemoryData)
        requires
            old(self).is_ready(),
        ensures
            final(self).is_ready(),
    ;

    fn stop_reading(&mut self)
        requires
            old(self).is_ready(),
        ensures
            final(self).is_ready(),
    ;
}

} // verus!
