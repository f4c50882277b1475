use crate::programmer::{
    address_after, lines_low, step, IcspOp, Line, PinDriver, PinEvent, Programmer,
};
use crate::special_addresses::{ADDRESS_SIZE, CONFIGURATION_WORD_ADDRESS};
use crate::timing_configurations::{
    T_DIS, T_DLY2, T_ERA, T_HLD0, T_HLD1, T_PPDP, T_PROG, T_RESET, T_SET,
};
use vstd::prelude::*;

verus! {

pub const LOAD_DATA_COMMAND: u8 = 0b00_0010;

pub const READ_DATA_COMMAND: u8 = 0b00_0100;

pub const INCREMENT_ADDRESS_COMMAND: u8 = 0b00_0110;

pub const BEGIN_PROGRAMMING_COMMAND: u8 = 0b00_1000;

pub const END_PROGRAMMING_COMMAND: u8 = 0b00_1110;

pub const BULK_ERASE_COMMAND: u8 = 0b00_1001;

const START_BIT: u8 = 0;

const DATA_DONT_CARE_BIT: u8 = 0;

const STOP_BIT: u8 = 0;

/// Bit `i` of a word, counting from the least significant.
pub open spec fn bit_of(v: u16, i: int) -> bool {
    (v >> (i as u16)) & 1 == 1
}

/// One bit into the target: data set, then a clock pulse, high for T_SET,
/// then low for T_HLD1.
pub open spec fn bit_out(b: bool) -> Seq<PinEvent> {
    seq![
        PinEvent::Drive(Line::Data, b),
        PinEvent::Drive(Line::Clock, true),
        PinEvent::Wait(T_SET),
        PinEvent::Drive(Line::Clock, false),
        PinEvent::Wait(T_HLD1),
    ]
}

/// One bit out of the target: a clock pulse, high for T_SET, the data line
/// sampled after the falling edge, then T_HLD1.
pub open spec fn bit_in(v: bool) -> Seq<PinEvent> {
    seq![
        PinEvent::Drive(Line::Clock, true),
        PinEvent::Wait(T_SET),
        PinEvent::Drive(Line::Clock, false),
        PinEvent::Sample(v),
        PinEvent::Wait(T_HLD1),
    ]
}

/// Bits clocked into the target, in order.
pub open spec fn bits_out(s: Seq<bool>) -> Seq<PinEvent>
    decreases s.len(),
{
    if s.len() == 0 {
        Seq::empty()
    } else {
        bits_out(s.drop_last()) + bit_out(s.last())
    }
}

/// Bits clocked out of the target, with the levels sampled, in order.
pub open spec fn bits_in(s: Seq<bool>) -> Seq<PinEvent>
    decreases s.len(),
{
    if s.len() == 0 {
        Seq::empty()
    } else {
        bits_in(s.drop_last()) + bit_in(s.last())
    }
}

/// The six bits of a command, least significant first.
pub open spec fn command_bits(command: u8) -> Seq<bool> {
    Seq::new(6, |i: int| bit_of(command as u16, i))
}

/// A command on the wire, then the gap before any payload.
pub open spec fn command_events(command: u8) -> Seq<PinEvent> {
    bits_out(command_bits(command)) + seq![PinEvent::Wait(T_DLY2)]
}

/// The bits of a data frame to the target: a zero start bit, twelve data
/// bits least significant first, two zero filler bits and a zero stop bit.
pub open spec fn data_bits(data: u16) -> Seq<bool> {
    Seq::new(16, |i: int| 1 <= i <= 12 && bit_of(data, i - 1))
}

pub open spec fn data_frame(data: u16) -> Seq<PinEvent> {
    bits_out(data_bits(data))
}

/// A read frame: the data line an input for sixteen sampled clocks, then an
/// output driven low again.
pub open spec fn read_frame(samples: Seq<bool>) -> Seq<PinEvent> {
    seq![PinEvent::DataInput] + bits_in(samples) + seq![PinEvent::DataOutputLow]
}

/// Sixteen samples whose twelve after the start bit are the bits of
/// `value`, least significant first.
pub open spec fn frame_holds(samples: Seq<bool>, value: u16) -> bool {
    &&& samples.len() == 16
    &&& forall|j: int| 0 <= j < 12 ==> samples[j + 1] == bit_of(value, j)
}

/// A read frame fixes the word: when the target drives the bits of its word
/// `w` onto the line, the word that `read_data` returns from those samples is
/// `w`.
pub proof fn lemma_frame_fixes_word(samples: Seq<bool>, r: u16, w: u16)
    requires
        frame_holds(samples, r),
        frame_holds(samples, w),
        r < 4096,
        w < 4096,
    ensures
        r == w,
{
    assert forall|j: u16| j < 12 implies #[trigger] ((r >> j) & 1) == (w >> j) & 1 by {
        assert(samples[j + 1] == bit_of(r, j as int));
        assert(samples[j + 1] == bit_of(w, j as int));
        assert((r >> j) & 1 <= 1) by (bit_vector);
        assert((w >> j) & 1 <= 1) by (bit_vector);
    }
    assert(r == w) by (bit_vector)
        requires
            r < 4096,
            w < 4096,
            (r >> 0u16) & 1 == (w >> 0u16) & 1,
            (r >> 1u16) & 1 == (w >> 1u16) & 1,
            (r >> 2u16) & 1 == (w >> 2u16) & 1,
            (r >> 3u16) & 1 == (w >> 3u16) & 1,
            (r >> 4u16) & 1 == (w >> 4u16) & 1,
            (r >> 5u16) & 1 == (w >> 5u16) & 1,
            (r >> 6u16) & 1 == (w >> 6u16) & 1,
            (r >> 7u16) & 1 == (w >> 7u16) & 1,
            (r >> 8u16) & 1 == (w >> 8u16) & 1,
            (r >> 9u16) & 1 == (w >> 9u16) & 1,
            (r >> 10u16) & 1 == (w >> 10u16) & 1,
            (r >> 11u16) & 1 == (w >> 11u16) & 1,
    ;
}

/// Entering programming mode: all lines low, then Vdd, then Vpp.
pub open spec fn enter_events() -> Seq<PinEvent> {
    lines_low() + seq![
        PinEvent::Drive(Line::Vdd, true),
        PinEvent::Wait(T_PPDP),
        PinEvent::Drive(Line::Vpp, true),
        PinEvent::Wait(T_HLD0),
    ]
}

/// Leaving programming mode: all lines low, then the reset hold.
pub open spec fn exit_events() -> Seq<PinEvent> {
    lines_low() + seq![PinEvent::Wait(T_RESET)]
}

pub proof fn lemma_bits_out_push(s: Seq<bool>, b: bool)
    ensures
        bits_out(s.push(b)) == bits_out(s) + bit_out(b),
{
    assert(s.push(b).drop_last() =~= s);
}

pub proof fn lemma_bits_in_push(s: Seq<bool>, b: bool)
    ensures
        bits_in(s.push(b)) == bits_in(s) + bit_in(b),
{
    assert(s.push(b).drop_last() =~= s);
}

impl<P: PinDriver> Programmer<P> {
    /// Everything but the board is as in `other`.
    pub open spec fn same_engine(&self, other: &Self) -> bool {
        &&& self.current_address == other.current_address
        &&& self.osccal_bits == other.osccal_bits
        &&& self.log@ == other.log@
    }

    /// The log of `other` with one more step, the pointer moved as that step
    /// moves it, the rest of the engine kept.
    pub open spec fn one_step(&self, other: &Self, op: IcspOp) -> bool {
        &&& self.current_address == address_after(other.current_address as int, op)
        &&& self.log@ == other.log@.push(step(op, self.current_address as int))
        &&& self.osccal_bits == other.osccal_bits
    }

    proof fn lemma_push_step(&self, op: IcspOp, address: int)
        requires
            self.wf(),
            address == address_after(self.current_address as int, op),
        ensures
            crate::programmer::log_tracks_address(self.log@.push(step(op, address))),
            crate::programmer::address_before(
                self.log@.push(step(op, address)),
                (self.log@.len() + 1) as int,
            ) == address,
    {
        reveal(crate::programmer::log_tracks_address);
        let log = self.log@.push(step(op, address));
        assert forall|i: int| 0 <= i < log.len() implies #[trigger] log[i].address
            == address_after(crate::programmer::address_before(log, i), log[i].op) by {
            if i < self.log@.len() {
                assert(log[i] == self.log@[i]);
                if i > 0 {
                    assert(log[i - 1] == self.log@[i - 1]);
                }
            } else if i > 0 {
                assert(log[i - 1] == self.log@[i - 1]);
            }
        }
    }

    /// Puts the lowest bit of `data` on the data line and clocks it in.
    fn send_serial_lsb_data(&mut self, data: u8)
        ensures
            final(self).same_engine(old(self)),
            final(self).pins.trace() == old(self).pins.trace() + bit_out(data & 1 == 1),
    {
        self.pins.set_line(Line::Data, data & 1 == 1);
        self.pins.set_line(Line::Clock, true);
        self.pins.delay_ns(T_SET);
        self.pins.set_line(Line::Clock, false);
        self.pins.delay_ns(T_HLD1);
        proof {
            assert(self.pins.trace() =~= old(self).pins.trace() + bit_out(data & 1 == 1));
        }
    }

    /// Clocks one bit out of the target and samples it.
    fn read_serial_lsb_data(&mut self) -> (r: bool)
        ensures
            final(self).same_engine(old(self)),
            final(self).pins.trace() == old(self).pins.trace() + bit_in(r),
    {
        self.pins.set_line(Line::Clock, true);
        self.pins.delay_ns(T_SET);
        self.pins.set_line(Line::Clock, false);
        let value = self.pins.read_data_line();
        self.pins.delay_ns(T_HLD1);
        proof {
            assert(self.pins.trace() =~= old(self).pins.trace() + bit_in(value));
        }
        value
    }

    fn send_command(&mut self, command: u8)
        ensures
            final(self).same_engine(old(self)),
            final(self).pins.trace() == old(self).pins.trace() + command_events(command),
    {
        let mut command_to_send: u8 = command;
        let mut i: u8 = 0;
        proof {
            assert(command >> 0u8 == command) by (bit_vector);
            assert(Seq::new(0, |j: int| bit_of(command as u16, j)) =~= Seq::<bool>::empty());
            assert(old(self).pins.trace() + bits_out(Seq::<bool>::empty()) =~= old(
                self,
            ).pins.trace());
        }
        while i < 6
            invariant
                i <= 6,
                command_to_send == command >> i,
                self.same_engine(old(self)),
                self.pins.trace() == old(self).pins.trace() + bits_out(
                    Seq::new(i as nat, |j: int| bit_of(command as u16, j)),
                ),
            decreases 6 - i,
        {
            proof {
                assert(((command >> i) & 1 == 1) == (((command as u16) >> (i as u16)) & 1 == 1))
                    by (bit_vector)
                    requires
                        i < 6,
                ;
                assert((command >> i) >> 1u8 == command >> ((i + 1) as u8)) by (bit_vector)
                    requires
                        i < 6,
                ;
            }
            self.send_serial_lsb_data(command_to_send);
            command_to_send = command_to_send >> 1u8;
            proof {
                let f = |j: int| bit_of(command as u16, j);
                assert(Seq::new((i + 1) as nat, f) =~= Seq::new(i as nat, f).push(f(i as int)));
                lemma_bits_out_push(Seq::new(i as nat, f), f(i as int));
            }
            i = i + 1;
        }
        self.pins.delay_ns(T_DLY2);
        proof {
            assert(Seq::new(6, |j: int| bit_of(command as u16, j)) =~= command_bits(command));
            assert(self.pins.trace() =~= old(self).pins.trace() + command_events(command));
        }
    }
}

impl<P: PinDriver> Programmer<P> {
    /// Enters programming mode: all lines low, Vdd up, Vpp up. The target's
    /// program counter then stands at the configuration word.
    pub fn enter_programming_mode(&mut self)
        requires
            old(self).wf(),
        ensures
            final(self).wf(),
            final(self).one_step(old(self), IcspOp::Enter),
            final(self).current_address == CONFIGURATION_WORD_ADDRESS,
            final(self).pins.trace() == old(self).pins.trace() + enter_events(),
    {
        self.init();
        self.pins.set_line(Line::Vdd, true);
        self.pins.delay_ns(T_PPDP);
        self.pins.set_line(Line::Vpp, true);
        self.pins.delay_ns(T_HLD0);
        proof {
            self.lemma_push_step(IcspOp::Enter, CONFIGURATION_WORD_ADDRESS as int);
            assert(self.pins.trace() =~= old(self).pins.trace() + enter_events());
        }
        self.current_address = CONFIGURATION_WORD_ADDRESS;
        self.log = Ghost(self.log@.push(step(IcspOp::Enter, CONFIGURATION_WORD_ADDRESS as int)));
    }

    /// Leaves programming mode: all lines low, then the reset hold.
    pub fn exit_programming_mode(&mut self)
        requires
            old(self).wf(),
        ensures
            final(self).wf(),
            final(self).one_step(old(self), IcspOp::Exit),
            final(self).pins.trace() == old(self).pins.trace() + exit_events(),
    {
        self.init();
        self.pins.delay_ns(T_RESET);
        proof {
            self.lemma_push_step(IcspOp::Exit, self.current_address as int);
            assert(self.pins.trace() =~= old(self).pins.trace() + exit_events());
        }
        self.log = Ghost(self.log@.push(step(IcspOp::Exit, self.current_address as int)));
    }

    /// Latches a word for the cell under the pointer.
    pub fn load_data(&mut self, data: u16)
        requires
            old(self).wf(),
        ensures
            final(self).wf(),
            final(self).one_step(old(self), IcspOp::LoadData(data)),
            final(self).pins.trace() == old(self).pins.trace() + command_events(LOAD_DATA_COMMAND)
                + data_frame(data),
    {
        self.send_command(LOAD_DATA_COMMAND);
        let ghost base = self.pins.trace();
        let ghost f = |j: int| 1 <= j <= 12 && bit_of(data, j - 1);
        let mut data_to_send: u16 = data;
        proof {
            assert(data >> 0u16 == data) by (bit_vector);
            assert(0u8 & 1u8 == 0u8) by (bit_vector);
            assert(Seq::new(0, f) =~= Seq::<bool>::empty());
            assert(Seq::new(1, f) =~= Seq::new(0, f).push(false));
            lemma_bits_out_push(Seq::new(0, f), false);
            assert(base + bits_out(Seq::<bool>::empty()) =~= base);
        }
        self.send_serial_lsb_data(START_BIT);
        let mut i: u16 = 0;
        while i < 12
            invariant
                i <= 12,
                data_to_send == data >> i,
                self.same_engine(old(self)),
                f == (|j: int| 1 <= j <= 12 && bit_of(data, j - 1)),
                self.pins.trace() == base + bits_out(Seq::new((i + 1) as nat, f)),
            decreases 12 - i,
        {
            proof {
                assert((((data >> i) as u8) & 1 == 1) == ((data >> i) & 1 == 1)) by (bit_vector);
                assert((data >> i) >> 1u16 == data >> ((i + 1) as u16)) by (bit_vector)
                    requires
                        i < 12,
                ;
            }
            self.send_serial_lsb_data(#[verifier::truncate] (data_to_send as u8));
            data_to_send = data_to_send >> 1u16;
            proof {
                assert(Seq::new((i + 2) as nat, f) =~= Seq::new((i + 1) as nat, f).push(
                    f(i + 1),
                ));
                lemma_bits_out_push(Seq::new((i + 1) as nat, f), f(i + 1));
            }
            i = i + 1;
        }
        self.send_serial_lsb_data(DATA_DONT_CARE_BIT);
        proof {
            assert(Seq::new(14, f) =~= Seq::new(13, f).push(false));
            lemma_bits_out_push(Seq::new(13, f), false);
        }
        self.send_serial_lsb_data(DATA_DONT_CARE_BIT);
        proof {
            assert(Seq::new(15, f) =~= Seq::new(14, f).push(false));
            lemma_bits_out_push(Seq::new(14, f), false);
        }
        self.send_serial_lsb_data(STOP_BIT);
        proof {
            assert(Seq::new(16, f) =~= Seq::new(15, f).push(false));
            lemma_bits_out_push(Seq::new(15, f), false);
            assert(Seq::new(16, f) =~= data_bits(data));
            self.lemma_push_step(IcspOp::LoadData(data), self.current_address as int);
        }
        self.log = Ghost(self.log@.push(step(IcspOp::LoadData(data), self.current_address as int)));
    }

    /// Sends a command without payload that leaves the pointer where it is,
    /// waits, and logs it.
    fn plain_command(&mut self, command: u8, wait: u32, op: Ghost<IcspOp>)
        requires
            old(self).wf(),
            op@ is BeginProgramming || op@ is EndProgramming || op@ is BulkErase,
        ensures
            final(self).wf(),
            final(self).one_step(old(self), op@),
            final(self).pins.trace() == old(self).pins.trace() + command_events(command) + seq![
                PinEvent::Wait(wait),
            ],
    {
        self.send_command(command);
        self.pins.delay_ns(wait);
        proof {
            assert(self.pins.trace() =~= old(self).pins.trace() + command_events(command) + seq![
                PinEvent::Wait(wait),
            ]);
            self.lemma_push_step(op@, self.current_address as int);
        }
        self.log = Ghost(self.log@.push(step(op@, self.current_address as int)));
    }

    /// Moves the target's program counter, and the pointer with it, one word
    /// on, wrapping at the end of the address space.
    pub fn increment_address(&mut self)
        requires
            old(self).wf(),
        ensures
            final(self).wf(),
            final(self).one_step(old(self), IcspOp::IncrementAddress),
            final(self).current_address == (old(self).current_address + 1) % (
            ADDRESS_SIZE as int),
            final(self).pins.trace() == old(self).pins.trace() + command_events(
                INCREMENT_ADDRESS_COMMAND,
            ),
    {
        self.send_command(INCREMENT_ADDRESS_COMMAND);
        let next: u16 = (self.current_address + 1) % ADDRESS_SIZE;
        proof {
            self.lemma_push_step(IcspOp::IncrementAddress, next as int);
        }
        self.current_address = next;
        self.log = Ghost(self.log@.push(step(IcspOp::IncrementAddress, next as int)));
    }

    /// Programs the latched word into the cell under the pointer.
    pub fn begin_programming(&mut self)
        requires
            old(self).wf(),
        ensures
            final(self).wf(),
            final(self).one_step(old(self), IcspOp::BeginProgramming),
            final(self).pins.trace() == old(self).pins.trace() + command_events(
                BEGIN_PROGRAMMING_COMMAND,
            ) + seq![PinEvent::Wait(T_PROG)],
    {
        self.plain_command(BEGIN_PROGRAMMING_COMMAND, T_PROG, Ghost(IcspOp::BeginProgramming));
    }

    pub fn end_programming(&mut self)
        requires
            old(self).wf(),
        ensures
            final(self).wf(),
            final(self).one_step(old(self), IcspOp::EndProgramming),
            final(self).pins.trace() == old(self).pins.trace() + command_events(
                END_PROGRAMMING_COMMAND,
            ) + seq![PinEvent::Wait(T_DIS)],
    {
        self.plain_command(END_PROGRAMMING_COMMAND, T_DIS, Ghost(IcspOp::EndProgramming));
    }

    pub fn bulk_erase_program_memory(&mut self)
        requires
            old(self).wf(),
        ensures
            final(self).wf(),
            final(self).one_step(old(self), IcspOp::BulkErase),
            final(self).pins.trace() == old(self).pins.trace() + command_events(
                BULK_ERASE_COMMAND,
            ) + seq![PinEvent::Wait(T_ERA)],
    {
        self.plain_command(BULK_ERASE_COMMAND, T_ERA, Ghost(IcspOp::BulkErase));
    }
}

impl<P: PinDriver> Programmer<P> {
    /// Reads the word under the pointer. The data line is an input for the
    /// sixteen clocks of the frame and an output, driven low, afterwards; the
    /// word is made of the twelve levels sampled after the start bit.
    #[verifier::rlimit(60)]
    pub fn read_data(&mut self) -> (r: u16)
        requires
            old(self).wf(),
        ensures
            final(self).wf(),
            final(self).one_step(old(self), IcspOp::ReadData(r)),
            r < 4096,
            exists|samples: Seq<bool>|
                {
                    &&& frame_holds(samples, r)
                    &&& final(self).pins.trace() == old(self).pins.trace() + command_events(
                        READ_DATA_COMMAND,
                    ) + read_frame(samples)
                },
    {
        self.send_command(READ_DATA_COMMAND);
        let ghost base = self.pins.trace();
        self.pins.set_data_input();
        let start = self.read_serial_lsb_data();
        let ghost mut samples: Seq<bool> = seq![start];
        proof {
            assert(Seq::<bool>::empty().push(start) =~= samples);
            lemma_bits_in_push(Seq::<bool>::empty(), start);
            assert(self.pins.trace() =~= base + seq![PinEvent::DataInput] + bits_in(samples));
        }
        let mut received_data: u16 = 0;
        let mut index: u16 = 0;
        proof {
            assert(0u16 >> 0u16 == 0u16) by (bit_vector);
        }
        while index < 12
            invariant
                index <= 12,
                received_data >> index == 0,
                self.same_engine(old(self)),
                samples.len() == index + 1,
                self.pins.trace() == base + seq![PinEvent::DataInput] + bits_in(samples),
                forall|j: int| 0 <= j < index ==> samples[j + 1] == bit_of(received_data, j),
            decreases 12 - index,
        {
            let bit = self.read_serial_lsb_data();
            let b: u16 = if bit {
                1
            } else {
                0
            };
            let r = received_data;
            let next = r | (b << index);
            proof {
                assert(next >> (index + 1) as u16 == 0) by (bit_vector)
                    requires
                        r >> index == 0,
                        b <= 1,
                        index < 12,
                        next == r | (b << index),
                ;
                assert((next >> index) & 1 == b) by (bit_vector)
                    requires
                        r >> index == 0,
                        b <= 1,
                        index < 12,
                        next == r | (b << index),
                ;
                assert forall|j: int| 0 <= j < index implies bit_of(next, j) == bit_of(r, j) by {
                    let jj = j as u16;
                    assert((next >> jj) & 1 == (r >> jj) & 1) by (bit_vector)
                        requires
                            jj < index,
                            index < 12,
                            next == r | (b << index),
                    ;
                }
                lemma_bits_in_push(samples, bit);
                samples = samples.push(bit);
            }
            received_data = next;
            index = index + 1;
        }
        let s13 = self.read_serial_lsb_data();
        proof {
            lemma_bits_in_push(samples, s13);
            samples = samples.push(s13);
        }
        let s14 = self.read_serial_lsb_data();
        proof {
            lemma_bits_in_push(samples, s14);
            samples = samples.push(s14);
        }
        let s15 = self.read_serial_lsb_data();
        proof {
            lemma_bits_in_push(samples, s15);
            samples = samples.push(s15);
        }
        self.pins.set_data_output();
        proof {
            assert(self.pins.trace() =~= base + read_frame(samples));
            assert(received_data < 4096) by (bit_vector)
                requires
                    received_data >> 12u16 == 0,
            ;
            assert(frame_holds(samples, received_data));
            self.lemma_push_step(IcspOp::ReadData(received_data), self.current_address as int);
        }
        self.log = Ghost(
            self.log@.push(step(IcspOp::ReadData(received_data), self.current_address as int)),
        );
        received_data
    }
}

} // verus!
