use crate::hex_instruction::{
    checksum_of, empty_record, hex4, hex_digit, next_ascii, HexInstruction, DATA_RECORD,
};
use crate::operations::MemoryData;
use crate::osccal_bits::OSCCALBits;
use crate::commands::{
    command_events, enter_events, exit_events, frame_holds, lemma_frame_fixes_word, read_frame,
    INCREMENT_ADDRESS_COMMAND, READ_DATA_COMMAND,
};
use crate::osccal_bits::save_osccal_events;
use crate::programmer::{
    distance, erase_events, increments, program_events, program_log, start_log, step, stop_events,
    stop_log, IcspOp, IcspStep, PinDriver, Programmer,
};
use crate::target::{
    last_address, lemma_osccal_preserved, lemma_program_idempotent, records_log,
    repeated_program_log, run, target_wf, Target,
};
use crate::special_addresses::{
    ADDRESS_SIZE, BACKUP_OSCCAL_ADDRESS, CONFIGURATION_WORD_ADDRESS, OSCCAL_ADDRESS,
    USER_ID_FIRST_ADDRESS,
};
use vstd::prelude::*;

verus! {

/// The byte from the host that starts a programming session.
pub const PROGRAM_INSTRUCTION: u8 = 0x50;

/// The byte from the host that starts a read-back.
pub const READ_STORED_PROGRAM_INSTRUCTION: u8 = 0x44;

/// The configuration word written when no record sets one.
pub const DEFAULT_CONFIGURATION: u16 = 0xFF;

/// The user ID written when no record sets one.
pub const DEFAULT_USER_ID: u16 = 0xAA;

/// Where the session stands.
#[derive(PartialEq, Eq, Structural, Clone, Copy, Debug)]
pub enum States {
    WaitingToStart,
    Program,
    ReadContents,
    Finished,
}

/// What the device answers the host.
#[derive(PartialEq, Eq, Structural, Clone, Copy, Debug)]
pub enum Reply {
    /// Nothing to send.
    Nothing,
    /// A session has begun.
    Started,
    /// The record was accepted (`Y`).
    Accepted,
    /// The record's checksum is wrong; the host sends it again (`R`).
    Resend,
    /// The end-of-file record was accepted and programming is over.
    Done,
}

/// The top-level state machine: the programmer, the record being assembled,
/// and the configuration word and user ID that the records have set so far.
pub struct Session<P: PinDriver> {
    pub programmer: Programmer<P>,
    pub state: States,
    pub config: u16,
    pub user_id: u16,
    pub record: HexInstruction,
    /// Whether the read-back has passed its first word.
    pub has_printed_configuration_address: bool,
    /// The programmer's log before the programming session began.
    pub base_log: Ghost<Seq<IcspStep>>,
    /// The calibration word and its backup as the target gave them.
    pub read_words: Ghost<(u16, u16)>,
    /// The (address, word) records written so far in the programming session.
    pub written: Ghost<Seq<(u16, u16)>>,
}

/// Where the pointer stands once a programming session has started.
pub open spec fn first_address() -> int {
    (CONFIGURATION_WORD_ADDRESS + 1) % (ADDRESS_SIZE as int)
}

/// Whether a record passes its checksum.
pub open spec fn record_is_valid(r: HexInstruction) -> bool {
    r.checksum == checksum_of(r)
}

/// Whether a valid record writes a word: a data record inside the address
/// space.
pub open spec fn record_writes(r: HexInstruction) -> bool {
    r.record_type == DATA_RECORD && r.address < ADDRESS_SIZE
}

impl<P: PinDriver> Session<P> {
    /// The programmer keeps its invariant, and during a programming session
    /// its log is the session's start followed by one write per record
    /// written.
    pub open spec fn wf(&self) -> bool {
        &&& self.programmer.wf()
        &&& self.state == States::Program ==> self.programming_log_ok()
    }

    pub open spec fn programming_log_ok(&self) -> bool {
        let first = first_address();
        let (bits, backup) = self.read_words@;
        &&& self.programmer.log@ == self.base_log@ + start_log(bits, backup) + records_log(
            first,
            self.written@,
        )
        &&& self.programmer.current_address == last_address(first, self.written@)
        &&& self.programmer.osccal_bits == (OSCCALBits {
            bits: (bits & 0xFF) as u8,
            backup_bits: (backup & 0xFF) as u8,
        })
        &&& forall|i: int|
            0 <= i < self.written@.len() ==> (#[trigger] self.written@[i]).0 < ADDRESS_SIZE
    }

    /// How a complete record moves the session, from `self` to `after`, with
    /// the reply to the host: a bad checksum asks for the record again and
    /// touches nothing; a valid end-of-file record finishes programming with
    /// the configuration word and user ID gathered so far; any other valid
    /// record is accepted, and a data record inside the address space is
    /// written, its low byte kept as the configuration word or user ID when it
    /// sits at theirs.
    pub open spec fn record_handled(&self, after: &Self, record: HexInstruction, reply: Reply) -> bool {
        &&& after.wf()
        &&& after.record == self.record
        &&& after.has_printed_configuration_address == self.has_printed_configuration_address
        &&& after.base_log == self.base_log
        &&& after.read_words == self.read_words
        &&& after.written@ == if record_is_valid(record) && record.record_type != 1
            && record_writes(record) {
            self.written@.push((record.address, record.data))
        } else {
            self.written@
        }
        &&& (!record_is_valid(record) ==> {
                &&& reply == Reply::Resend
                &&& after.programmer == self.programmer
                &&& after.state == self.state
                &&& after.config == self.config
                &&& after.user_id == self.user_id
            })
        &&& (record_is_valid(record) && record.record_type == 1 ==> {
                &&& reply == Reply::Done
                &&& after.state == States::Finished
                &&& after.config == self.config
                &&& after.user_id == self.user_id
                &&& after.programmer.log@ == self.programmer.log@ + stop_log(
                    self.programmer.current_address as int,
                    self.programmer.osccal_bits,
                    self.config,
                    self.user_id,
                )
                &&& after.programmer.pins.trace() == self.programmer.pins.trace() + stop_events(
                    self.programmer.osccal_bits,
                    self.config,
                    self.user_id,
                )
            })
        &&& (record_is_valid(record) && record.record_type != 1 ==> {
                &&& reply == Reply::Accepted
                &&& after.state == States::Program
                &&& after.programmer.osccal_bits == self.programmer.osccal_bits
                &&& after.config == if record_writes(record) && record.address
                    == CONFIGURATION_WORD_ADDRESS {
                    record.data & 0xFF
                } else {
                    self.config
                }
                &&& after.user_id == if record_writes(record) && record.address
                    == USER_ID_FIRST_ADDRESS {
                    record.data & 0xFF
                } else {
                    self.user_id
                }
                &&& after.programmer.log@ == if record_writes(record) {
                    self.programmer.log@ + program_log(
                        self.programmer.current_address as int,
                        record.address as int,
                        record.data,
                    )
                } else {
                    self.programmer.log@
                }
                &&& after.programmer.pins.trace() == if record_writes(record) {
                    self.programmer.pins.trace() + increments(
                        distance(self.programmer.current_address as int, record.address as int),
                    ) + program_events(record.data)
                } else {
                    self.programmer.pins.trace()
                }
                &&& after.programmer.current_address == if record_writes(record) {
                    record.address
                } else {
                    self.programmer.current_address
                }
            })
    }

    pub fn new(programmer: Programmer<P>) -> (r: Session<P>)
        requires
            programmer.wf(),
        ensures
            r.wf(),
            r.programmer == programmer,
            r.state == States::WaitingToStart,
            r.config == DEFAULT_CONFIGURATION,
            r.user_id == DEFAULT_USER_ID,
            r.record == empty_record(),
            !r.has_printed_configuration_address,
    {
        Session {
            programmer,
            state: States::WaitingToStart,
            config: DEFAULT_CONFIGURATION,
            user_id: DEFAULT_USER_ID,
            record: HexInstruction::new(),
            has_printed_configuration_address: false,
            base_log: Ghost(Seq::empty()),
            read_words: Ghost((0, 0)),
            written: Ghost(Seq::empty()),
        }
    }

    /// Acts on one complete record of a programming session.
    pub fn handle_record(&mut self, record: &HexInstruction) -> (reply: Reply)
        requires
            old(self).wf(),
            old(self).state == States::Program,
        ensures
            old(self).record_handled(&*final(self), *record, reply),
    {
        let checksum = record.calculate_checksum();
        if checksum != record.checksum {
            return Reply::Resend;
        }
        if record.check_end_of_file() {
            self.programmer.stop_programming(self.config, self.user_id);
            self.state = States::Finished;
            return Reply::Done;
        }
        if record.record_type == DATA_RECORD && record.address < ADDRESS_SIZE {
            if record.address == USER_ID_FIRST_ADDRESS {
                self.user_id = record.data & 0xFF;
            } else if record.address == CONFIGURATION_WORD_ADDRESS {
                self.config = record.data & 0xFF;
            }
            self.programmer.program(record.address, record.data);
            let ghost written = self.written@;
            self.written = Ghost(written.push((record.address, record.data)));
            proof {
                assert(self.written@.drop_last() =~= written);
                assert(self.programmer.log@ =~= self.base_log@ + start_log(
                    self.read_words@.0,
                    self.read_words@.1,
                ) + records_log(first_address(), self.written@));
                assert forall|i: int| 0 <= i < self.written@.len() implies (
                #[trigger] self.written@[i]).0 < ADDRESS_SIZE by {
                    if i < written.len() {
                        assert(self.written@[i] == written[i]);
                    }
                }
            }
        }
        Reply::Accepted
    }
}

impl<P: PinDriver> Session<P> {
    /// Acts on one byte from the host. Once the session has finished, or while
    /// it reads back, bytes from the host change nothing.
    pub fn on_byte(&mut self, byte: u8) -> (reply: Reply)
        requires
            old(self).wf(),
        ensures
            final(self).wf(),
            (old(self).state == States::Finished || old(self).state == States::ReadContents) ==> {
                &&& *final(self) == *old(self)
                &&& reply == Reply::Nothing
            },
            old(self).state == States::WaitingToStart && byte == PROGRAM_INSTRUCTION ==> {
                &&& reply == Reply::Started
                &&& final(self).state == States::Program
                &&& final(self).base_log@ == old(self).programmer.log@
                &&& final(self).written@.len() == 0
                &&& final(self).config == old(self).config
                &&& final(self).user_id == old(self).user_id
                &&& final(self).record == old(self).record
                &&& exists|bits: u16, backup: u16, first: Seq<bool>, second: Seq<bool>|
                    {
                        &&& final(self).programmer.log@ == old(self).programmer.log@ + start_log(
                            bits,
                            backup,
                        )
                        &&& frame_holds(first, bits)
                        &&& frame_holds(second, backup)
                        &&& final(self).programmer.osccal_bits == (OSCCALBits {
                            bits: (bits & 0xFF) as u8,
                            backup_bits: (backup & 0xFF) as u8,
                        })
                        &&& final(self).programmer.pins.trace() == old(
                            self,
                        ).programmer.pins.trace() + save_osccal_events(first, second)
                            + erase_events()
                    }
            },
            old(self).state == States::WaitingToStart && byte == READ_STORED_PROGRAM_INSTRUCTION
                ==> {
                &&& reply == Reply::Started
                &&& final(self).state == States::ReadContents
                &&& !final(self).has_printed_configuration_address
                &&& final(self).programmer.current_address == CONFIGURATION_WORD_ADDRESS
                &&& final(self).programmer.log@ == old(self).programmer.log@.push(
                    step(IcspOp::Enter, CONFIGURATION_WORD_ADDRESS as int),
                )
                &&& final(self).programmer.pins.trace() == old(self).programmer.pins.trace()
                    + enter_events()
            },
            old(self).state == States::WaitingToStart && byte != PROGRAM_INSTRUCTION && byte
                != READ_STORED_PROGRAM_INSTRUCTION ==> {
                &&& *final(self) == *old(self)
                &&& reply == Reply::Nothing
            },
            old(self).state == States::Program && next_ascii(old(self).record, byte).state
                != crate::hex_instruction::HexInstructionReadState::Done ==> {
                &&& reply == Reply::Nothing
                &&& final(self).record == next_ascii(old(self).record, byte)
                &&& final(self).programmer == old(self).programmer
                &&& final(self).state == old(self).state
                &&& final(self).config == old(self).config
                &&& final(self).user_id == old(self).user_id
            },
            old(self).state == States::Program && next_ascii(old(self).record, byte).state
                == crate::hex_instruction::HexInstructionReadState::Done ==> {
                &&& final(self).record == empty_record()
                &&& (Session { record: empty_record(), ..*old(self) }).record_handled(
                    &*final(self),
                    next_ascii(old(self).record, byte),
                    reply,
                )
            },
    {
        match self.state {
            States::WaitingToStart => {
                if byte == PROGRAM_INSTRUCTION {
                    self.base_log = Ghost(self.programmer.log@);
                    self.programmer.start_programming();
                    self.state = States::Program;
                    let ghost w = choose|
                        bits: u16,
                        backup: u16,
                        first: Seq<bool>,
                        second: Seq<bool>,
                    |
                        {
                            &&& self.programmer.log@ == old(self).programmer.log@ + start_log(
                                bits,
                                backup,
                            )
                            &&& frame_holds(first, bits)
                            &&& frame_holds(second, backup)
                            &&& self.programmer.osccal_bits.bits == bits & 0xFF
                            &&& self.programmer.osccal_bits.backup_bits == backup & 0xFF
                            &&& self.programmer.pins.trace() == old(self).programmer.pins.trace()
                                + save_osccal_events(first, second) + erase_events()
                        };
                    self.read_words = Ghost((w.0, w.1));
                    self.written = Ghost(Seq::empty());
                    proof {
                        assert(self.programmer.osccal_bits == OSCCALBits {
                            bits: (w.0 & 0xFF) as u8,
                            backup_bits: (w.1 & 0xFF) as u8,
                        });
                        assert(self.programmer.log@ =~= self.base_log@ + start_log(w.0, w.1)
                            + records_log(first_address(), self.written@));
                    }
                    Reply::Started
                } else if byte == READ_STORED_PROGRAM_INSTRUCTION {
                    self.programmer.start_reading();
                    self.has_printed_configuration_address = false;
                    self.state = States::ReadContents;
                    Reply::Started
                } else {
                    Reply::Nothing
                }
            },
            States::Program => {
                self.record.push_ascii(byte);
                if self.record.check_done() {
                    let record = self.record;
                    self.record = HexInstruction::new();
                    self.handle_record(&record)
                } else {
                    Reply::Nothing
                }
            },
            _ => Reply::Nothing,
        }
    }

    /// The next word of a read-back, with the pointer moved on past it; once
    /// the pointer has come round to the configuration word again, the
    /// read-back leaves programming mode, finishes, and gives `None`.
    pub fn read_step(&mut self) -> (r: Option<MemoryData>)
        requires
            old(self).wf(),
        ensures
            final(self).wf(),
            old(self).state != States::ReadContents ==> {
                &&& *final(self) == *old(self)
                &&& r is None
            },
            old(self).state == States::ReadContents && old(self).has_printed_configuration_address
                && old(self).programmer.current_address == CONFIGURATION_WORD_ADDRESS ==> {
                &&& r is None
                &&& final(self).state == States::Finished
                &&& final(self).programmer.log@ == old(self).programmer.log@.push(
                    step(IcspOp::Exit, CONFIGURATION_WORD_ADDRESS as int),
                )
                &&& final(self).programmer.pins.trace() == old(self).programmer.pins.trace()
                    + exit_events()
            },
            old(self).state == States::ReadContents && !(old(self).has_printed_configuration_address
                && old(self).programmer.current_address == CONFIGURATION_WORD_ADDRESS) ==> {
                &&& r is Some
                &&& r->Some_0.address == old(self).programmer.current_address
                &&& final(self).state == States::ReadContents
                &&& final(self).has_printed_configuration_address
                &&& final(self).programmer.current_address == (
                old(self).programmer.current_address + 1) % (ADDRESS_SIZE as int)
                &&& final(self).programmer.log@ == old(self).programmer.log@ + seq![
                    step(
                        IcspOp::ReadData(r->Some_0.data),
                        old(self).programmer.current_address as int,
                    ),
                    step(
                        IcspOp::IncrementAddress,
                        final(self).programmer.current_address as int,
                    ),
                ]
                &&& exists|samples: Seq<bool>|
                    {
                        &&& frame_holds(samples, r->Some_0.data)
                        &&& final(self).programmer.pins.trace() == old(
                            self,
                        ).programmer.pins.trace() + command_events(READ_DATA_COMMAND)
                            + read_frame(samples) + command_events(INCREMENT_ADDRESS_COMMAND)
                    }
            },
    {
        if self.state != States::ReadContents {
            return None;
        }
        if self.has_printed_configuration_address && self.programmer.current_address
            == CONFIGURATION_WORD_ADDRESS {
            self.programmer.stop_reading();
            self.state = States::Finished;
            return None;
        }
        let ghost t0 = self.programmer.pins.trace();
        let data = self.programmer.read();
        let ghost samples = choose|samples: Seq<bool>|
            {
                &&& frame_holds(samples, data.data)
                &&& self.programmer.pins.trace() == t0 + command_events(READ_DATA_COMMAND)
                    + read_frame(samples)
            };
        self.programmer.increment_address();
        self.has_printed_configuration_address = true;
        proof {
            assert(self.programmer.log@ =~= old(self).programmer.log@ + seq![
                step(IcspOp::ReadData(data.data), old(self).programmer.current_address as int),
                step(IcspOp::IncrementAddress, self.programmer.current_address as int),
            ]);
        }
        Some(data)
    }
}

/// When the controller brings a programming session to its normal end, the
/// steps it issued since the session began take a target that answered the
/// calibration reads with its own words to one whose calibration word is the
/// `MOVLW` of the original low byte and whose backup word is the original
/// backup's low byte, whatever records were written.
pub proof fn lemma_session_preserves_osccal<P: PinDriver>(
    before: Session<P>,
    after: Session<P>,
    record: HexInstruction,
    reply: Reply,
    t: Target,
)
    requires
        before.wf(),
        before.state == States::Program,
        before.record_handled(&after, record, reply),
        after.state == States::Finished,
        target_wf(t),
        t.memory[OSCCAL_ADDRESS as int] == before.read_words@.0,
        t.memory[BACKUP_OSCCAL_ADDRESS as int] == before.read_words@.1,
    ensures
        run(t, after.programmer.log@.skip(before.base_log@.len() as int)).memory[OSCCAL_ADDRESS as int]
            == (0x0C00 | (before.read_words@.0 & 0xFF)) as int,
        run(t, after.programmer.log@.skip(before.base_log@.len() as int)).memory[BACKUP_OSCCAL_ADDRESS as int]
            == (before.read_words@.1 & 0xFF) as int,
{
    let (bits, backup) = before.read_words@;
    let first = first_address();
    lemma_osccal_preserved(t, before.written@, before.config, before.user_id);
    assert(after.programmer.log@.skip(before.base_log@.len() as int) =~= start_log(bits, backup)
        + records_log(first, before.written@) + stop_log(
        last_address(first, before.written@),
        before.programmer.osccal_bits,
        before.config,
        before.user_id,
    ));
}

/// A record that the host sends again right after the controller accepted
/// it leaves the target, as the steps issued since the first copy take it,
/// and the session's configuration word and user ID as the first copy left
/// them; so sending a record any number of times is sending it once.
pub proof fn lemma_resent_record_changes_nothing<P: PinDriver>(
    before: Session<P>,
    mid: Session<P>,
    after: Session<P>,
    record: HexInstruction,
    first_reply: Reply,
    second_reply: Reply,
    t: Target,
)
    requires
        before.wf(),
        before.state == States::Program,
        before.record_handled(&mid, record, first_reply),
        mid.state == States::Program,
        mid.record_handled(&after, record, second_reply),
        target_wf(t),
        t.pc == before.programmer.current_address,
    ensures
        second_reply == first_reply,
        after.state == mid.state,
        after.config == mid.config,
        after.user_id == mid.user_id,
        run(t, after.programmer.log@.skip(before.programmer.log@.len() as int)) == run(
            t,
            mid.programmer.log@.skip(before.programmer.log@.len() as int),
        ),
{
    let k = before.programmer.log@.len() as int;
    if record_is_valid(record) && record.record_type != 1 && record_writes(record) {
        let a = record.address as int;
        let once = program_log(t.pc, a, record.data);
        assert(mid.programmer.log@.skip(k) =~= once);
        assert(repeated_program_log(a, record.data, 0) =~= Seq::<IcspStep>::empty());
        assert(repeated_program_log(a, record.data, 1) == repeated_program_log(a, record.data, 0)
            + program_log(a, a, record.data));
        assert(repeated_program_log(a, record.data, 1) =~= program_log(a, a, record.data));
        assert(after.programmer.log@.skip(k) =~= once + repeated_program_log(a, record.data, 1));
        lemma_program_idempotent(t, a, record.data, 1);
    } else {
        assert(after.programmer.log@.skip(k) =~= mid.programmer.log@.skip(k));
    }
}

/// After a programming session that ended normally, a read of the
/// calibration word, from a target that drives its stored word onto the
/// line, gives the `MOVLW` of the original calibration byte: the word that
/// the read-back line for that address shows.
pub proof fn lemma_read_back_shows_calibration<P: PinDriver>(
    before: Session<P>,
    after: Session<P>,
    record: HexInstruction,
    reply: Reply,
    t: Target,
    samples: Seq<bool>,
    r: u16,
)
    requires
        before.wf(),
        before.state == States::Program,
        before.record_handled(&after, record, reply),
        after.state == States::Finished,
        target_wf(t),
        t.memory[OSCCAL_ADDRESS as int] == before.read_words@.0,
        t.memory[BACKUP_OSCCAL_ADDRESS as int] == before.read_words@.1,
        frame_holds(samples, r),
        r < 4096,
        frame_holds(
            samples,
            run(t, after.programmer.log@.skip(before.base_log@.len() as int)).memory[OSCCAL_ADDRESS as int] as u16,
        ),
    ensures
        r == 0x0C00 | (before.read_words@.0 & 0xFF),
{
    lemma_session_preserves_osccal(before, after, record, reply, t);
    let b: u16 = before.read_words@.0;
    let w: u16 = 0x0C00 | (b & 0xFF);
    assert(w < 4096) by (bit_vector)
        requires
            w == 0x0C00 | (b & 0xFF),
    ;
    lemma_frame_fixes_word(samples, r, w);
}

/// Where the read-back's pointer stands after `k` steps.
pub open spec fn walk_address(k: int) -> int {
    (CONFIGURATION_WORD_ADDRESS + k) % (ADDRESS_SIZE as int)
}

/// The step of the read-back at which the pointer stands at `a`.
pub open spec fn walk_step_of(a: int) -> int {
    (a - CONFIGURATION_WORD_ADDRESS) % (ADDRESS_SIZE as int)
}

/// The read-back walks the whole address space once: starting at the
/// configuration word and moving one word on per step, the pointer first
/// comes back to the configuration word after `ADDRESS_SIZE` steps, and on
/// the way it passes every address exactly once.
pub proof fn lemma_read_back_walk()
    ensures
        walk_address(0) == CONFIGURATION_WORD_ADDRESS,
        forall|k: int| 0 < k < ADDRESS_SIZE ==> #[trigger] walk_address(k) != CONFIGURATION_WORD_ADDRESS,
        walk_address(ADDRESS_SIZE as int) == CONFIGURATION_WORD_ADDRESS,
        forall|k: int| 0 <= k ==> #[trigger] walk_address(k + 1) == (walk_address(k) + 1) % (ADDRESS_SIZE as int),
        forall|a: int|
            0 <= a < ADDRESS_SIZE ==> 0 <= #[trigger] walk_step_of(a) < ADDRESS_SIZE && walk_address(
                walk_step_of(a),
            ) == a,
        forall|j: int, k: int|
            0 <= j < k < ADDRESS_SIZE ==> #[trigger] walk_address(j) != #[trigger] walk_address(k),
{
}

/// The text that answers the host for each reply.
pub open spec fn reply_text(reply: Reply) -> Seq<u8> {
    match reply {
        Reply::Nothing => Seq::empty(),
        Reply::Started => seq![0x73u8, 0x74, 0x61, 0x72, 0x74, 0x0A],
        Reply::Accepted => seq![0x59u8, 0x0A],
        Reply::Resend => seq![0x52u8, 0x0A],
        Reply::Done => seq![0x59u8, 0x0A] + done_text(),
    }
}

/// `done` and a line feed, sent when a session ends.
pub open spec fn done_text() -> Seq<u8> {
    seq![0x64u8, 0x6F, 0x6E, 0x65, 0x0A]
}

/// One line of a read-back: `A:` and the address, ` | D:` and the word, in
/// four upper-case hex digits each, and a line feed.
pub open spec fn dump_line_text(d: MemoryData) -> Seq<u8> {
    seq![0x41u8, 0x3A] + hex4(d.address as int) + seq![0x20u8, 0x7C, 0x20, 0x44, 0x3A] + hex4(
        d.data as int,
    ) + seq![0x0Au8]
}

impl Reply {
    /// The bytes that carry the reply to the host: the first `n` of the
    /// buffer.
    pub fn to_bytes(&self) -> (r: ([u8; 7], usize))
        ensures
            r.1 <= 7,
            r.0@.subrange(0, r.1 as int) == reply_text(*self),
    {
        let mut out: [u8; 7] = [0u8; 7];
        let n: usize = match self {
            Reply::Nothing => 0,
            Reply::Started => {
                out[0] = 0x73;
                out[1] = 0x74;
                out[2] = 0x61;
                out[3] = 0x72;
                out[4] = 0x74;
                out[5] = 0x0A;
                6
            },
            Reply::Accepted => {
                out[0] = 0x59;
                out[1] = 0x0A;
                2
            },
            Reply::Resend => {
                out[0] = 0x52;
                out[1] = 0x0A;
                2
            },
            Reply::Done => {
                out[0] = 0x59;
                out[1] = 0x0A;
                out[2] = 0x64;
                out[3] = 0x6F;
                out[4] = 0x6E;
                out[5] = 0x65;
                out[6] = 0x0A;
                7
            },
        };
        proof {
            assert(out@.subrange(0, n as int) =~= reply_text(*self));
        }
        (out, n)
    }
}

/// The line that closes a read-back.
pub fn done_line() -> (r: [u8; 5])
    ensures
        r@ == done_text(),
{
    let mut out: [u8; 5] = [0u8; 5];
    out[0] = 0x64;
    out[1] = 0x6F;
    out[2] = 0x6E;
    out[3] = 0x65;
    out[4] = 0x0A;
    proof {
        assert(out@ =~= done_text());
    }
    out
}

/// The upper-case ASCII digit of a value below 16.
pub fn hex_digit_of(n: u8) -> (r: u8)
    requires
        n < 16,
    ensures
        r == hex_digit(n as int),
{
    if n < 10 {
        0x30 + n
    } else {
        0x41 + (n - 10)
    }
}

/// The four upper-case hex digits of a word, most significant first.
fn hex4_digits(v: u16) -> (r: (u8, u8, u8, u8))
    ensures
        seq![r.0, r.1, r.2, r.3] == hex4(v as int),
{
    proof {
        assert((v / 256 % 256) / 16 % 16 == v / 4096) by (bit_vector);
        assert((v / 256 % 256) % 16 == v / 256 % 16) by (bit_vector);
        assert((v % 256) / 16 % 16 == v / 16 % 16) by (bit_vector);
        assert((v % 256) % 16 == v % 16) by (bit_vector);
    }
    let r = (
        hex_digit_of((v / 4096) as u8),
        hex_digit_of((v / 256 % 16) as u8),
        hex_digit_of((v / 16 % 16) as u8),
        hex_digit_of((v % 16) as u8),
    );
    proof {
        assert(seq![r.0, r.1, r.2, r.3] =~= hex4(v as int));
    }
    r
}

/// Renders one word of a read-back as `A:XXXX | D:XXXX` and a line feed,
/// in a buffer of its own size.
pub fn format_dump_line(d: &MemoryData) -> (r: [u8; 16])
    ensures
        r@ == dump_line_text(*d),
{
    let a = hex4_digits(d.address);
    let w = hex4_digits(d.data);
    let mut out: [u8; 16] = [0u8; 16];
    out[0] = 0x41;
    out[1] = 0x3A;
    out[2] = a.0;
    out[3] = a.1;
    out[4] = a.2;
    out[5] = a.3;
    out[6] = 0x20;
    out[7] = 0x7C;
    out[8] = 0x20;
    out[9] = 0x44;
    out[10] = 0x3A;
    out[11] = w.0;
    out[12] = w.1;
    out[13] = w.2;
    out[14] = w.3;
    out[15] = 0x0A;
    proof {
        let ha = hex4(d.address as int);
        let hw = hex4(d.data as int);
        assert(ha =~= seq![a.0, a.1, a.2, a.3]);
        assert(hw =~= seq![w.0, w.1, w.2, w.3]);
        assert(out@ =~= dump_line_text(*d));
    }
    out
}

} // verus!
