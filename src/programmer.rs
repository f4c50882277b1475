use crate::commands::{
    command_events, data_frame, enter_events, exit_events, frame_holds, read_frame,
    BEGIN_PROGRAMMING_COMMAND, BULK_ERASE_COMMAND, END_PROGRAMMING_COMMAND,
    INCREMENT_ADDRESS_COMMAND, LOAD_DATA_COMMAND, READ_DATA_COMMAND,
};
use crate::operations::{InitProgrammer, MemoryData, ProgramMemory, ReadMemory};
use crate::timing_configurations::{T_DIS, T_ERA, T_PROG};
use crate::osccal_bits::{
    restore_osccal_events, restore_osccal_log, save_osccal_events, save_osccal_log, OSCCALBits,
};
use crate::special_addresses::{ADDRESS_SIZE, CONFIGURATION_WORD_ADDRESS, USER_ID_FIRST_ADDRESS};
use vstd::prelude::*;

verus! {

/// The four lines that the programmer drives into the target.
#[derive(PartialEq, Eq, Structural, Clone, Copy, Debug)]
pub enum Line {
    Vpp,
    Vdd,
    Clock,
    Data,
}

/// What the board was asked to do, in order.
#[derive(PartialEq, Eq, Structural, Clone, Copy, Debug)]
pub enum PinEvent {
    /// A line driven to a level.
    Drive(Line, bool),
    /// The data line turned into a pulled-up input.
    DataInput,
    /// The data line turned back into an output, driven low.
    DataOutputLow,
    /// The data line sampled, with the level read.
    Sample(bool),
    /// A wait of at least this many nanoseconds.
    Wait(u32),
}

/// The board: four output lines, a data line that can be turned into a
/// pulled-up input, and a busy wait. Each method adds one event to the
/// board's trace, which the engine's contracts speak of. What is proved of
/// the wire holds for boards verified against these contracts, such as
/// `PinRecorder`; a board written outside Verus keeps the default empty
/// trace, cannot meet them, and is covered by none of those proofs.
pub trait PinDriver {
    /// Every request the board has carried out, in order.
    open spec fn trace(&self) -> Seq<PinEvent> {
        Seq::empty()
    }

    /// Drives a line high or low; the data line must be an output.
    fn set_line(&mut self, line: Line, high: bool)
        ensures
            final(self).trace() == old(self).trace().push(PinEvent::Drive(line, high)),
    ;

    /// Turns the data line into a pulled-up input.
    fn set_data_input(&mut self)
        ensures
            final(self).trace() == old(self).trace().push(PinEvent::DataInput),
    ;

    /// Turns the data line back into an output, driven low.
    fn set_data_output(&mut self)
        ensures
            final(self).trace() == old(self).trace().push(PinEvent::DataOutputLow),
    ;

    /// Samples the data line while it is an input.
    fn read_data_line(&mut self) -> (r: bool)
        ensures
            final(self).trace() == old(self).trace().push(PinEvent::Sample(r)),
    ;

    /// Waits at least the given number of nanoseconds.
    fn delay_ns(&mut self, ns: u32)
        ensures
            final(self).trace() == old(self).trace().push(PinEvent::Wait(ns)),
    ;
}

/// A board with no target attached that keeps every request it is given:
/// a dry run of the protocol. The pulled-up data line reads high.
pub struct PinRecorder {
    pub events: Vec<PinEvent>,
}

impl PinRecorder {
    pub fn new() -> (r: PinRecorder)
        ensures
            r.events@.len() == 0,
    {
        PinRecorder { events: Vec::new() }
    }
}

impl PinDriver for PinRecorder {
    open spec fn trace(&self) -> Seq<PinEvent> {
        self.events@
    }

    fn set_line(&mut self, line: Line, high: bool) {
        self.events.push(PinEvent::Drive(line, high));
    }

    fn set_data_input(&mut self) {
        self.events.push(PinEvent::DataInput);
    }

    fn set_data_output(&mut self) {
        self.events.push(PinEvent::DataOutputLow);
    }

    fn read_data_line(&mut self) -> (r: bool) {
        self.events.push(PinEvent::Sample(true));
        true
    }

    fn delay_ns(&mut self, ns: u32) {
        self.events.push(PinEvent::Wait(ns));
    }
}

/// A protocol step as the target sees it.
pub enum IcspOp {
    Enter,
    Exit,
    LoadData(u16),
    ReadData(u16),
    IncrementAddress,
    BeginProgramming,
    EndProgramming,
    BulkErase,
}

/// A protocol step with the engine's address pointer right after it.
pub struct IcspStep {
    pub op: IcspOp,
    pub address: int,
}

pub open spec fn is_mode_change(op: IcspOp) -> bool {
    op is Enter || op is Exit
}

/// The address pointer after `op`, when it stood at `before`.
pub open spec fn address_after(before: int, op: IcspOp) -> int {
    match op {
        IcspOp::Enter => CONFIGURATION_WORD_ADDRESS as int,
        IcspOp::IncrementAddress => (before + 1) % (ADDRESS_SIZE as int),
        _ => before,
    }
}

/// The address pointer before step `i` of a log that starts at power-on.
pub open spec fn address_before(log: Seq<IcspStep>, i: int) -> int {
    if i == 0 {
        CONFIGURATION_WORD_ADDRESS as int
    } else {
        log[i - 1].address
    }
}

/// Every step records the pointer that its predecessor and its own effect
/// give.
#[verifier::opaque]
pub open spec fn log_tracks_address(log: Seq<IcspStep>) -> bool {
    forall|i: int|
        0 <= i < log.len() ==> #[trigger] log[i].address == address_after(
            address_before(log, i),
            log[i].op,
        )
}

/// Between two consecutive steps of a log that tracks the pointer, where the
/// later step neither enters nor leaves programming mode, the pointer stays
/// where it was or moves one word on, wrapping at the end of the address
/// space.
pub proof fn lemma_address_monotonic(log: Seq<IcspStep>, i: int)
    requires
        log_tracks_address(log),
        0 < i < log.len(),
        !is_mode_change(log[i].op),
    ensures
        log[i].address == log[i - 1].address || log[i].address == (log[i - 1].address + 1) % (
        ADDRESS_SIZE as int),
{
    reveal(log_tracks_address);
    assert(log[i].address == address_after(address_before(log, i), log[i].op));
}

pub open spec fn step(op: IcspOp, address: int) -> IcspStep {
    IcspStep { op, address }
}

/// The distance from `from` forward to `to`, wrapping at the end of the
/// address space.
pub open spec fn distance(from: int, to: int) -> int {
    (to - from) % (ADDRESS_SIZE as int)
}

/// The first `n` increments of a walk that starts at `from`.
pub open spec fn seek_steps(from: int, n: int) -> Seq<IcspStep> {
    Seq::new(
        n as nat,
        |i: int| step(IcspOp::IncrementAddress, (from + i + 1) % (ADDRESS_SIZE as int)),
    )
}

/// The steps of walking the pointer forward from `from` to `to`, one
/// increment at a time.
pub open spec fn seek_log(from: int, to: int) -> Seq<IcspStep> {
    seek_steps(from, distance(from, to))
}

/// Writing one word: walk to it, load it, program it.
pub open spec fn program_log(from: int, address: int, data: u16) -> Seq<IcspStep> {
    seek_log(from, address) + seq![
        step(IcspOp::LoadData(data), address),
        step(IcspOp::BeginProgramming, address),
        step(IcspOp::EndProgramming, address),
    ]
}

/// The programming state of the host side of the link: the board, the address
/// pointer that mirrors the target's program counter, and the saved
/// calibration.
pub struct Programmer<P: PinDriver> {
    pub pins: P,
    pub current_address: u16,
    pub osccal_bits: OSCCALBits,
    /// Every protocol step since power-on.
    pub log: Ghost<Seq<IcspStep>>,
}

/// The four lines driven low, in the order that `init` drives them.
pub open spec fn lines_low() -> Seq<PinEvent> {
    seq![
        PinEvent::Drive(Line::Vpp, false),
        PinEvent::Drive(Line::Vdd, false),
        PinEvent::Drive(Line::Clock, false),
        PinEvent::Drive(Line::Data, false),
    ]
}

/// Whether the trace ends with the events of `tail`.
pub open spec fn ends_with(trace: Seq<PinEvent>, tail: Seq<PinEvent>) -> bool {
    &&& trace.len() >= tail.len()
    &&& trace.subrange(trace.len() - tail.len(), trace.len() as int) == tail
}

impl<P: PinDriver> Programmer<P> {
    /// The pointer stays in the address space and agrees with the log.
    pub open spec fn wf(&self) -> bool {
        &&& self.current_address < ADDRESS_SIZE
        &&& log_tracks_address(self.log@)
        &&& self.current_address == address_before(self.log@, self.log@.len() as int)
    }

    pub fn new(pins: P) -> (r: Programmer<P>)
        ensures
            r.wf(),
            r.pins == pins,
            r.current_address == CONFIGURATION_WORD_ADDRESS,
            r.osccal_bits == (OSCCALBits { bits: 0, backup_bits: 0 }),
            r.log@.len() == 0,
    {
        proof {
            reveal(log_tracks_address);
        }
        Programmer {
            pins,
            current_address: CONFIGURATION_WORD_ADDRESS,
            osccal_bits: OSCCALBits { bits: 0, backup_bits: 0 },
            log: Ghost(Seq::empty()),
        }
    }

    /// Drives all four lines low.
    pub fn init(&mut self)
        requires
            old(self).wf(),
        ensures
            final(self).wf(),
            final(self).pins.trace() == old(self).pins.trace() + lines_low(),
            final(self).log@ == old(self).log@,
            final(self).current_address == old(self).current_address,
            final(self).osccal_bits == old(self).osccal_bits,
    {
        self.pins.set_line(Line::Vpp, false);
        self.pins.set_line(Line::Vdd, false);
        self.pins.set_line(Line::Clock, false);
        self.pins.set_line(Line::Data, false);
        proof {
            assert(self.pins.trace() =~= old(self).pins.trace() + lines_low());
        }
    }
}

/// Writing the configuration word and the first user ID word in a session of
/// their own.
pub open spec fn configuration_log(config: u16, user_id: u16) -> Seq<IcspStep> {
    let cw = CONFIGURATION_WORD_ADDRESS as int;
    let id = USER_ID_FIRST_ADDRESS as int;
    seq![step(IcspOp::Enter, cw)] + program_log(cw, cw, config) + program_log(cw, id, user_id)
        + seq![step(IcspOp::Exit, id)]
}

/// `n` increment commands on the wire.
pub open spec fn increments(n: int) -> Seq<PinEvent>
    decreases n,
{
    if n <= 0 {
        Seq::empty()
    } else {
        increments(n - 1) + command_events(INCREMENT_ADDRESS_COMMAND)
    }
}

/// Loading a word and running one program cycle on it.
pub open spec fn program_events(data: u16) -> Seq<PinEvent> {
    command_events(LOAD_DATA_COMMAND) + data_frame(data) + command_events(
        BEGIN_PROGRAMMING_COMMAND,
    ) + seq![PinEvent::Wait(T_PROG)] + command_events(END_PROGRAMMING_COMMAND) + seq![
        PinEvent::Wait(T_DIS),
    ]
}

/// After entering programming mode (Vdd, then Vpp, high), one increment off
/// the configuration word and a bulk erase.
pub open spec fn erase_events() -> Seq<PinEvent> {
    enter_events() + command_events(INCREMENT_ADDRESS_COMMAND) + command_events(
        BULK_ERASE_COMMAND,
    ) + seq![PinEvent::Wait(T_ERA)]
}

pub proof fn lemma_ends_with(before: Seq<PinEvent>, tail: Seq<PinEvent>)
    ensures
        ends_with(before + tail, tail),
{
    assert((before + tail).subrange(before.len() as int, (before + tail).len() as int) =~= tail);
}

proof fn lemma_seek_progress(from: int, to: int, k: int)
    requires
        0 <= from < ADDRESS_SIZE,
        0 <= to < ADDRESS_SIZE,
        0 <= k <= distance(from, to),
        (from + k) % (ADDRESS_SIZE as int) != to,
    ensures
        k < distance(from, to),
        ((from + k) % (ADDRESS_SIZE as int) + 1) % (ADDRESS_SIZE as int) == (from + k + 1) % (
        ADDRESS_SIZE as int),
{
}

proof fn lemma_seek_done(from: int, to: int, k: int)
    requires
        0 <= from < ADDRESS_SIZE,
        0 <= to < ADDRESS_SIZE,
        0 <= k <= distance(from, to),
        (from + k) % (ADDRESS_SIZE as int) == to,
    ensures
        k == distance(from, to),
{
}

impl<P: PinDriver> Programmer<P> {
    /// Walks the pointer forward to `address`, one increment at a time.
    pub fn goto_to_address(&mut self, address: u16)
        requires
            old(self).wf(),
            address < ADDRESS_SIZE,
        ensures
            final(self).wf(),
            final(self).current_address == address,
            final(self).log@ == old(self).log@ + seek_log(old(self).current_address as int, address as int),
            final(self).osccal_bits == old(self).osccal_bits,
            final(self).pins.trace() == old(self).pins.trace() + increments(
                distance(old(self).current_address as int, address as int),
            ),
    {
        let ghost from = self.current_address as int;
        let ghost dist = distance(from, address as int);
        let ghost mut k: int = 0;
        proof {
            assert(old(self).log@ + seek_steps(from, 0) =~= old(self).log@);
            assert(old(self).pins.trace() + increments(0) =~= old(self).pins.trace());
        }
        while self.current_address != address
            invariant
                self.wf(),
                0 <= k <= dist,
                dist == distance(from, address as int),
                0 <= from < ADDRESS_SIZE,
                address < ADDRESS_SIZE,
                self.current_address as int == (from + k) % (ADDRESS_SIZE as int),
                self.log@ == old(self).log@ + seek_steps(from, k),
                self.osccal_bits == old(self).osccal_bits,
                self.pins.trace() == old(self).pins.trace() + increments(k),
            decreases dist - k,
        {
            self.increment_address();
            proof {
                lemma_seek_progress(from, address as int, k);
                k = k + 1;
                assert(self.log@ =~= old(self).log@ + seek_steps(from, k));
                assert(self.pins.trace() =~= old(self).pins.trace() + increments(k));
            }
        }
        proof {
            lemma_seek_done(from, address as int, k);
        }
    }

    /// Writes one word: walks to it, loads it, programs it.
    pub fn program(&mut self, address: u16, data: u16)
        requires
            old(self).wf(),
            address < ADDRESS_SIZE,
        ensures
            final(self).wf(),
            final(self).current_address == address,
            final(self).log@ == old(self).log@ + program_log(old(self).current_address as int, address as int, data),
            final(self).osccal_bits == old(self).osccal_bits,
            final(self).pins.trace() == old(self).pins.trace() + increments(
                distance(old(self).current_address as int, address as int),
            ) + program_events(data),
    {
        self.goto_to_address(address);
        self.load_data(data);
        self.begin_programming();
        self.end_programming();
        proof {
            assert(self.log@ =~= old(self).log@ + program_log(old(self).current_address as int, address as int, data));
            assert(self.pins.trace() =~= old(self).pins.trace() + increments(
                distance(old(self).current_address as int, address as int),
            ) + program_events(data));
        }
    }

    fn program_configuration(&mut self, config: u16, user_id: u16)
        requires
            old(self).wf(),
        ensures
            final(self).wf(),
            final(self).current_address == USER_ID_FIRST_ADDRESS,
            final(self).log@ == old(self).log@ + configuration_log(config, user_id),
            final(self).osccal_bits == old(self).osccal_bits,
            final(self).pins.trace() == old(self).pins.trace() + configuration_events(
                config,
                user_id,
            ),
    {
        self.enter_programming_mode();
        self.program(CONFIGURATION_WORD_ADDRESS, config);
        self.program(USER_ID_FIRST_ADDRESS, user_id);
        self.exit_programming_mode();
        proof {
            assert(self.pins.trace() =~= old(self).pins.trace() + configuration_events(
                config,
                user_id,
            ));
            assert(self.log@ =~= old(self).log@ + configuration_log(config, user_id));
        }
    }

    /// Enters programming mode for a read-back.
    pub fn start_reading(&mut self)
        requires
            old(self).wf(),
        ensures
            final(self).wf(),
            final(self).one_step(old(self), IcspOp::Enter),
            final(self).current_address == CONFIGURATION_WORD_ADDRESS,
            final(self).pins.trace() == old(self).pins.trace() + enter_events(),
    {
        self.enter_programming_mode();
    }

    /// The word under the pointer, which stays where it is.
    pub fn read(&mut self) -> (r: MemoryData)
        requires
            old(self).wf(),
        ensures
            final(self).wf(),
            final(self).one_step(old(self), IcspOp::ReadData(r.data)),
            r.address == old(self).current_address,
            r.data < 4096,
            exists|samples: Seq<bool>|
                {
                    &&& frame_holds(samples, r.data)
                    &&& final(self).pins.trace() == old(self).pins.trace() + command_events(
                        READ_DATA_COMMAND,
                    ) + read_frame(samples)
                },
    {
        let address = self.current_address;
        let data = self.read_data();
        let r = MemoryData { address, data };
        proof {
            let samples = choose|samples: Seq<bool>|
                {
                    &&& frame_holds(samples, data)
                    &&& self.pins.trace() == old(self).pins.trace() + command_events(
                        READ_DATA_COMMAND,
                    ) + read_frame(samples)
                };
            assert(frame_holds(samples, r.data));
        }
        r
    }

    pub fn stop_reading(&mut self)
        requires
            old(self).wf(),
        ensures
            final(self).wf(),
            final(self).one_step(old(self), IcspOp::Exit),
            final(self).pins.trace() == old(self).pins.trace() + exit_events(),
    {
        self.exit_programming_mode();
    }
}

/// Saving the calibration, then a fresh session stepped once off the
/// configuration word and bulk-erased.
pub open spec fn start_log(bits: u16, backup: u16) -> Seq<IcspStep> {
    let cw = CONFIGURATION_WORD_ADDRESS as int;
    let first = (cw + 1) % (ADDRESS_SIZE as int);
    save_osccal_log(bits, backup) + seq![
        step(IcspOp::Enter, cw),
        step(IcspOp::IncrementAddress, first),
        step(IcspOp::BulkErase, first),
    ]
}

/// Leaving the programming session, restoring the calibration, and writing
/// the configuration word and user ID.
pub open spec fn stop_log(from: int, saved: OSCCALBits, config: u16, user_id: u16) -> Seq<
    IcspStep,
> {
    seq![step(IcspOp::Exit, from)] + restore_osccal_log(saved.bits, saved.backup_bits)
        + configuration_log(config, user_id)
}

/// The wire side of writing the configuration word and user ID.
pub open spec fn configuration_events(config: u16, user_id: u16) -> Seq<PinEvent> {
    let cw = CONFIGURATION_WORD_ADDRESS as int;
    let id = USER_ID_FIRST_ADDRESS as int;
    enter_events() + increments(distance(cw, cw)) + program_events(config) + increments(
        distance(cw, id),
    ) + program_events(user_id) + exit_events()
}

/// The wire side of `stop_programming`: leave, restore the calibration,
/// write the configuration, all lines low.
pub open spec fn stop_events(saved: OSCCALBits, config: u16, user_id: u16) -> Seq<PinEvent> {
    exit_events() + restore_osccal_events(saved.bits, saved.backup_bits) + configuration_events(
        config,
        user_id,
    ) + lines_low()
}

impl<P: PinDriver> Programmer<P> {
    /// Saves the calibration, enters programming mode, steps off the
    /// configuration word and erases program memory.
    pub fn start_programming(&mut self)
        requires
            old(self).wf(),
        ensures
            final(self).wf(),
            final(self).current_address == (CONFIGURATION_WORD_ADDRESS + 1) % (ADDRESS_SIZE as int),
            exists|bits: u16, backup: u16, first: Seq<bool>, second: Seq<bool>|
                {
                    &&& final(self).log@ == old(self).log@ + start_log(bits, backup)
                    &&& frame_holds(first, bits)
                    &&& frame_holds(second, backup)
                    &&& final(self).osccal_bits.bits == bits & 0xFF
                    &&& final(self).osccal_bits.backup_bits == backup & 0xFF
                    &&& final(self).pins.trace() == old(self).pins.trace() + save_osccal_events(
                        first,
                        second,
                    ) + erase_events()
                },
    {
        self.read_and_save_osccal_bits();
        let ghost saved = self.log@;
        let ghost before_enter = self.pins.trace();
        self.enter_programming_mode();
        self.increment_address();
        self.bulk_erase_program_memory();
        proof {
            assert(self.pins.trace() =~= before_enter + erase_events());
            let w = choose|bits: u16, backup: u16, first: Seq<bool>, second: Seq<bool>|
                {
                    &&& saved == old(self).log@ + save_osccal_log(bits, backup)
                    &&& frame_holds(first, bits)
                    &&& frame_holds(second, backup)
                    &&& self.osccal_bits.bits == bits & 0xFF
                    &&& self.osccal_bits.backup_bits == backup & 0xFF
                    &&& before_enter == old(self).pins.trace() + save_osccal_events(first, second)
                };
            assert(self.log@ =~= old(self).log@ + start_log(w.0, w.1));
            assert(self.pins.trace() =~= old(self).pins.trace() + save_osccal_events(w.2, w.3)
                + erase_events());
        }
    }

    /// Leaves programming mode, restores the calibration, writes the
    /// configuration word and user ID, and brings all lines low.
    pub fn stop_programming(&mut self, config: u16, user_id: u16)
        requires
            old(self).wf(),
        ensures
            final(self).wf(),
            final(self).current_address == USER_ID_FIRST_ADDRESS,
            final(self).log@ == old(self).log@ + stop_log(
                old(self).current_address as int,
                old(self).osccal_bits,
                config,
                user_id,
            ),
            final(self).osccal_bits == old(self).osccal_bits,
            final(self).pins.trace() == old(self).pins.trace() + stop_events(
                old(self).osccal_bits,
                config,
                user_id,
            ),
    {
        self.exit_programming_mode();
        self.restore_osccal_bits();
        self.program_configuration(config, user_id);
        self.init();
        proof {
            assert(self.log@ =~= old(self).log@ + stop_log(
                old(self).current_address as int,
                old(self).osccal_bits,
                config,
                user_id,
            ));
            assert(self.pins.trace() =~= old(self).pins.trace() + stop_events(
                old(self).osccal_bits,
                config,
                user_id,
            ));
        }
    }
}

impl<P: PinDriver> InitProgrammer for Programmer<P> {
    open spec fn is_ready(&self) -> bool {
        self.wf()
    }

    fn init(&mut self) {
        Programmer::init(self);
    }
}

impl<P: PinDriver> ProgramMemory for Programmer<P> {
    fn start_programming(&mut self) {
        Programmer::start_programming(self);
    }

    fn program(&mut self, address: u16, data: u16) {
        Programmer::program(self, address, data);
    }

    fn stop_programming(&mut self, config: u16, user_id: u16) {
        Programmer::stop_programming(self, config, user_id);
    }
}

impl<P: PinDriver> ReadMemory for Programmer<P> {
    fn start_reading(&mut self) {
        Programmer::start_reading(self);
    }

    fn read(&mut self) -> MemoryData {
        Programmer::read(self)
    }

    fn stop_reading(&mut self) {
        Programmer::stop_reading(self);
    }
}

} // verus!
