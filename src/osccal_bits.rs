use crate::commands::{
    command_events, enter_events, exit_events, frame_holds, read_frame, READ_DATA_COMMAND,
};
use crate::programmer::{
    distance, ends_with, increments, lemma_ends_with, program_events, program_log, seek_log, step,
    IcspOp, IcspStep, PinDriver, PinEvent, Programmer,
};
use crate::special_addresses::{
    BACKUP_OSCCAL_ADDRESS, CONFIGURATION_WORD_ADDRESS, OSCCAL_ADDRESS,
};
use vstd::prelude::*;

verus! {

/// The low bytes of the factory calibration word and of its backup.
#[derive(PartialEq, Eq, Structural, Clone, Copy, Debug)]
pub struct OSCCALBits {
    pub bits: u8,
    pub backup_bits: u8,
}

/// The calibration as the operand of a `MOVLW k` instruction (`1100 kkkk kkkk`),
/// which leaves it in W when the target runs the word at power-on.
pub open spec fn osccal_word(bits: u8) -> u16 {
    (0x0C00 | (bits as u16)) as u16
}

/// Reading the calibration word and its backup in a session of their own.
pub open spec fn save_osccal_log(bits: u16, backup: u16) -> Seq<IcspStep> {
    let cw = CONFIGURATION_WORD_ADDRESS as int;
    let osc = OSCCAL_ADDRESS as int;
    let spare = BACKUP_OSCCAL_ADDRESS as int;
    seq![step(IcspOp::Enter, cw)] + seek_log(cw, osc) + seq![step(IcspOp::ReadData(bits), osc)]
        + seek_log(osc, spare) + seq![
        step(IcspOp::ReadData(backup), spare),
        step(IcspOp::Exit, spare),
    ]
}

/// Writing the calibration back as an instruction and the raw backup at its
/// own address, in a session of their own.
pub open spec fn restore_osccal_log(bits: u8, backup: u8) -> Seq<IcspStep> {
    let cw = CONFIGURATION_WORD_ADDRESS as int;
    let osc = OSCCAL_ADDRESS as int;
    let spare = BACKUP_OSCCAL_ADDRESS as int;
    seq![step(IcspOp::Enter, cw)] + program_log(cw, osc, osccal_word(bits)) + program_log(
        osc,
        spare,
        backup as u16,
    ) + seq![step(IcspOp::Exit, spare)]
}

/// The wire side of the restore.
pub open spec fn restore_osccal_events(bits: u8, backup: u8) -> Seq<PinEvent> {
    let cw = CONFIGURATION_WORD_ADDRESS as int;
    let osc = OSCCAL_ADDRESS as int;
    let spare = BACKUP_OSCCAL_ADDRESS as int;
    enter_events() + increments(distance(cw, osc)) + program_events(osccal_word(bits))
        + increments(distance(osc, spare)) + program_events(backup as u16) + exit_events()
}

/// The wire side of saving the calibration: enter, walk to the calibration
/// word, read it, walk to the backup, read it, leave.
pub open spec fn save_osccal_events(first: Seq<bool>, second: Seq<bool>) -> Seq<PinEvent> {
    let cw = CONFIGURATION_WORD_ADDRESS as int;
    let osc = OSCCAL_ADDRESS as int;
    let spare = BACKUP_OSCCAL_ADDRESS as int;
    enter_events() + increments(distance(cw, osc)) + command_events(READ_DATA_COMMAND) + read_frame(
        first,
    ) + increments(distance(osc, spare)) + command_events(READ_DATA_COMMAND) + read_frame(second)
        + exit_events()
}

impl<P: PinDriver> Programmer<P> {
    /// Reads the calibration word and its backup and keeps their low bytes.
    pub fn read_and_save_osccal_bits(&mut self)
        requires
            old(self).wf(),
        ensures
            final(self).wf(),
            final(self).current_address == BACKUP_OSCCAL_ADDRESS,
            exists|bits: u16, backup: u16, first: Seq<bool>, second: Seq<bool>|
                {
                    &&& final(self).log@ == old(self).log@ + save_osccal_log(bits, backup)
                    &&& frame_holds(first, bits)
                    &&& frame_holds(second, backup)
                    &&& final(self).osccal_bits.bits == bits & 0xFF
                    &&& final(self).osccal_bits.backup_bits == backup & 0xFF
                    &&& final(self).pins.trace() == old(self).pins.trace() + save_osccal_events(
                        first,
                        second,
                    )
                },
            ends_with(final(self).pins.trace(), exit_events()),
    {
        self.enter_programming_mode();
        let ghost t1 = self.pins.trace();
        self.goto_to_address(OSCCAL_ADDRESS);
        let ghost t2 = self.pins.trace();
        let bits = self.read_data();
        let ghost first = choose|samples: Seq<bool>|
            {
                &&& frame_holds(samples, bits)
                &&& self.pins.trace() == t2 + command_events(READ_DATA_COMMAND) + read_frame(
                    samples,
                )
            };
        let ghost t3 = self.pins.trace();
        self.goto_to_address(BACKUP_OSCCAL_ADDRESS);
        let ghost t4 = self.pins.trace();
        let backup_bits = self.read_data();
        let ghost second = choose|samples: Seq<bool>|
            {
                &&& frame_holds(samples, backup_bits)
                &&& self.pins.trace() == t4 + command_events(READ_DATA_COMMAND) + read_frame(
                    samples,
                )
            };
        let ghost before_exit = self.pins.trace();
        self.exit_programming_mode();
        proof {
            assert(bits & 0xFF < 256) by (bit_vector);
            assert(backup_bits & 0xFF < 256) by (bit_vector);
        }
        self.osccal_bits = OSCCALBits {
            bits: (bits & 0xFF) as u8,
            backup_bits: (backup_bits & 0xFF) as u8,
        };
        proof {
            assert(self.log@ =~= old(self).log@ + save_osccal_log(bits, backup_bits));
            lemma_ends_with(before_exit, exit_events());
            assert(self.osccal_bits.bits == bits & 0xFF);
            assert(self.osccal_bits.backup_bits == backup_bits & 0xFF);
            assert(self.pins.trace() =~= old(self).pins.trace() + save_osccal_events(
                first,
                second,
            ));
        }
    }

    /// Writes the saved calibration back as an instruction at its address and
    /// the raw backup at the backup address.
    pub fn restore_osccal_bits(&mut self)
        requires
            old(self).wf(),
        ensures
            final(self).wf(),
            final(self).current_address == BACKUP_OSCCAL_ADDRESS,
            final(self).log@ == old(self).log@ + restore_osccal_log(
                old(self).osccal_bits.bits,
                old(self).osccal_bits.backup_bits,
            ),
            final(self).osccal_bits == old(self).osccal_bits,
            final(self).pins.trace() == old(self).pins.trace() + restore_osccal_events(
                old(self).osccal_bits.bits,
                old(self).osccal_bits.backup_bits,
            ),
    {
        self.enter_programming_mode();
        let data: u16 = 0x0C00 | (self.osccal_bits.bits as u16);
        self.program(OSCCAL_ADDRESS, data);
        self.program(BACKUP_OSCCAL_ADDRESS, self.osccal_bits.backup_bits as u16);
        self.exit_programming_mode();
        proof {
            assert(self.pins.trace() =~= old(self).pins.trace() + restore_osccal_events(
                old(self).osccal_bits.bits,
                old(self).osccal_bits.backup_bits,
            ));
            assert(self.log@ =~= old(self).log@ + restore_osccal_log(
                old(self).osccal_bits.bits,
                old(self).osccal_bits.backup_bits,
            ));
        }
    }
}

} // verus!
