use pic_programmer::operations::MemoryData;
use pic_programmer::programmer::{Line, PinDriver, PinEvent, PinRecorder, Programmer};
use pic_programmer::session::{done_line, format_dump_line, Reply, Session, States};
use pic_programmer::special_addresses::{
    ADDRESS_SIZE, BACKUP_OSCCAL_ADDRESS, CONFIGURATION_WORD_ADDRESS, OSCCAL_ADDRESS,
    USER_ID_FIRST_ADDRESS,
};

const ORIGINAL_OSCCAL: u16 = 0x0C34;
const ORIGINAL_BACKUP: u16 = 0x0C34;

#[derive(Clone, Copy, PartialEq, Debug)]
enum Phase {
    Command,
    LoadPayload,
    ReadPayload,
}

/// A PIC10F200 as it answers the programming protocol, bit by bit.
struct SimulatedTarget {
    memory: Vec<u16>,
    pc: usize,
    latch: u16,
    vdd: bool,
    vpp: bool,
    clock: bool,
    data: bool,
    data_is_input: bool,
    in_mode: bool,
    phase: Phase,
    bits: u32,
    count: u32,
    out_bit: bool,
    programmed: Vec<(usize, u16)>,
    pc_trace: Vec<(u8, usize)>,
    waited_ns: u64,
}

impl SimulatedTarget {
    fn new() -> Self {
        let mut memory = vec![0x0FFFu16; ADDRESS_SIZE as usize];
        memory[OSCCAL_ADDRESS as usize] = ORIGINAL_OSCCAL;
        memory[BACKUP_OSCCAL_ADDRESS as usize] = ORIGINAL_BACKUP;
        memory[0x20] = 0x0123;
        SimulatedTarget {
            memory,
            pc: 0,
            latch: 0,
            vdd: false,
            vpp: false,
            clock: false,
            data: false,
            data_is_input: false,
            in_mode: false,
            phase: Phase::Command,
            bits: 0,
            count: 0,
            out_bit: false,
            programmed: Vec::new(),
            pc_trace: Vec::new(),
            waited_ns: 0,
        }
    }

    fn execute(&mut self, command: u8) {
        match command {
            0x02 => self.phase = Phase::LoadPayload,
            0x04 => self.phase = Phase::ReadPayload,
            0x06 => self.pc = (self.pc + 1) % ADDRESS_SIZE as usize,
            0x08 => {
                self.memory[self.pc] = self.latch;
                self.programmed.push((self.pc, self.latch));
            }
            0x0E => {}
            0x09 => {
                for a in 0..ADDRESS_SIZE as usize {
                    self.memory[a] = 0x0FFF;
                }
            }
            other => panic!("unknown command {other:#x}"),
        }
        self.pc_trace.push((command, self.pc));
    }

    fn falling_edge(&mut self) {
        if !self.in_mode {
            return;
        }
        match self.phase {
            Phase::Command => {
                self.bits |= (self.data as u32) << self.count;
                self.count += 1;
                if self.count == 6 {
                    let command = self.bits as u8;
                    self.bits = 0;
                    self.count = 0;
                    self.execute(command);
                }
            }
            Phase::LoadPayload => {
                self.bits |= (self.data as u32) << self.count;
                self.count += 1;
                if self.count == 16 {
                    self.latch = ((self.bits >> 1) & 0x0FFF) as u16;
                    self.bits = 0;
                    self.count = 0;
                    self.phase = Phase::Command;
                }
            }
            Phase::ReadPayload => {
                self.count += 1;
                if self.count == 16 {
                    self.count = 0;
                    self.phase = Phase::Command;
                }
            }
        }
    }
}

impl PinDriver for SimulatedTarget {
    fn set_line(&mut self, line: Line, high: bool) {
        match line {
            Line::Vdd => {
                self.vdd = high;
                if !high {
                    self.in_mode = false;
                }
            }
            Line::Vpp => {
                if high && !self.vpp && self.vdd {
                    self.in_mode = true;
                    self.pc = CONFIGURATION_WORD_ADDRESS as usize;
                    self.phase = Phase::Command;
                    self.bits = 0;
                    self.count = 0;
                }
                if !high {
                    self.in_mode = false;
                }
                self.vpp = high;
            }
            Line::Clock => {
                let was = self.clock;
                self.clock = high;
                if !was && high && self.phase == Phase::ReadPayload {
                    let frame = ((self.memory[self.pc] & 0x0FFF) as u32) << 1;
                    self.out_bit = (frame >> self.count) & 1 == 1;
                }
                if was && !high {
                    self.falling_edge();
                }
            }
            Line::Data => {
                assert!(!self.data_is_input, "data line driven while it is an input");
                self.data = high;
            }
        }
    }

    fn set_data_input(&mut self) {
        self.data_is_input = true;
    }

    fn set_data_output(&mut self) {
        self.data_is_input = false;
        self.data = false;
    }

    fn read_data_line(&mut self) -> bool {
        assert!(self.data_is_input);
        self.out_bit
    }

    fn delay_ns(&mut self, ns: u32) {
        self.waited_ns += ns as u64;
    }
}

fn session() -> Session<SimulatedTarget> {
    Session::new(Programmer::new(SimulatedTarget::new()))
}

fn send(s: &mut Session<SimulatedTarget>, text: &str) -> String {
    let mut out = Vec::new();
    for &b in text.as_bytes() {
        let (buf, n) = s.on_byte(b).to_bytes();
        out.extend_from_slice(&buf[..n]);
    }
    String::from_utf8(out).unwrap()
}

fn dump(s: &mut Session<SimulatedTarget>) -> Vec<String> {
    let mut lines = Vec::new();
    while let Some(word) = s.read_step() {
        lines.push(String::from_utf8(format_dump_line(&word).to_vec()).unwrap());
    }
    lines.push(String::from_utf8(done_line().to_vec()).unwrap());
    lines
}

#[test]
fn s1_extended_address_record_is_acknowledged_and_ignored() {
    let mut s = session();
    assert_eq!(send(&mut s, "P\n"), "start\n");
    assert_eq!(s.state, States::Program);
    assert_eq!(send(&mut s, ":020000040000FA\n"), "Y\n");
    assert_eq!(send(&mut s, ":00000001FF\n"), "Y\ndone\n");
    assert_eq!(s.state, States::Finished);
    let t = &s.programmer.pins;
    assert_eq!(t.memory[OSCCAL_ADDRESS as usize], 0x0C34);
    assert_eq!(t.memory[BACKUP_OSCCAL_ADDRESS as usize], ORIGINAL_BACKUP & 0xFF);
    assert_eq!(t.memory[0], 0x0FFF);
    assert_eq!(t.memory[CONFIGURATION_WORD_ADDRESS as usize], 0x00FF);
    assert_eq!(t.memory[USER_ID_FIRST_ADDRESS as usize], 0x00AA);
    assert!(!t.vdd && !t.vpp && !t.clock && !t.data);
}

#[test]
fn s2_data_record_is_written() {
    let mut s = session();
    send(&mut s, "P\n");
    assert_eq!(send(&mut s, ":020000000C1AD8\n"), "Y\n");
    assert_eq!(send(&mut s, ":00000001FF\n"), "Y\ndone\n");
    let t = &s.programmer.pins;
    assert_eq!(t.memory[0x0000], 0x0C1A);
    assert_eq!(t.memory[OSCCAL_ADDRESS as usize], 0x0C00 | (ORIGINAL_OSCCAL & 0xFF));
    assert_eq!(s.programmer.osccal_bits.bits, 0x34);
    assert_eq!(s.programmer.osccal_bits.backup_bits, 0x34);
}

#[test]
fn s3_bad_checksum_asks_for_the_record_again() {
    let mut s = session();
    send(&mut s, "P\n");
    let before = s.programmer.pins.programmed.len();
    assert_eq!(send(&mut s, ":020000000C1AD9\n"), "R\n");
    assert_eq!(s.programmer.pins.programmed.len(), before);
    assert_eq!(s.programmer.pins.memory[0], 0x0FFF);
    assert_eq!(s.state, States::Program);
    assert_eq!(send(&mut s, ":020000000C1AD8\n"), "Y\n");
    assert_eq!(s.programmer.pins.memory[0], 0x0C1A);
}

#[test]
fn s4_read_back_covers_one_full_wrap() {
    let mut s = session();
    assert_eq!(send(&mut s, "D\n"), "start\n");
    assert_eq!(s.state, States::ReadContents);
    let lines = dump(&mut s);
    assert_eq!(lines.len(), ADDRESS_SIZE as usize + 1);
    assert_eq!(lines[0], "A:01FF | D:0FFF\n");
    assert_eq!(lines[1], "A:0000 | D:0FFF\n");
    assert_eq!(lines[0x21], "A:0020 | D:0123\n");
    assert_eq!(lines[OSCCAL_ADDRESS as usize + 1], "A:00FF | D:0C34\n");
    assert_eq!(lines[ADDRESS_SIZE as usize - 1], "A:01FE | D:0FFF\n");
    assert_eq!(lines[ADDRESS_SIZE as usize], "done\n");
    assert_eq!(s.state, States::Finished);
    assert!(s.programmer.pins.programmed.is_empty());
    assert!(s.read_step().is_none());
}

#[test]
fn s5_configuration_and_user_id_records() {
    let mut s = session();
    send(&mut s, "P\n");
    assert_eq!(send(&mut s, ":02010000005AA3\n"), "Y\n");
    assert_eq!(s.user_id, 0x5A);
    assert_eq!(send(&mut s, ":0201FF00003FBF\n"), "Y\n");
    assert_eq!(s.config, 0x3F);
    assert_eq!(send(&mut s, ":00000001FF\n"), "Y\ndone\n");
    let t = &s.programmer.pins;
    assert_eq!(t.memory[CONFIGURATION_WORD_ADDRESS as usize], 0x3F);
    assert_eq!(t.memory[USER_ID_FIRST_ADDRESS as usize], 0x5A);
}

#[test]
fn s6_fragments_across_polls() {
    let mut one = session();
    send(&mut one, "P\n");
    assert_eq!(send(&mut one, ":020000000C1AD8\n"), "Y\n");
    let mut two = session();
    send(&mut two, "P\n");
    assert_eq!(send(&mut two, ":020000"), "");
    assert_eq!(send(&mut two, "000C1AD8\r\n"), "Y\n");
    assert_eq!(one.programmer.pins.memory, two.programmer.pins.memory);
    assert_eq!(one.programmer.current_address, two.programmer.current_address);
}

#[test]
fn mode_entry_points_at_configuration_word() {
    let mut p = Programmer::new(SimulatedTarget::new());
    p.enter_programming_mode();
    assert_eq!(p.current_address, CONFIGURATION_WORD_ADDRESS);
    assert_eq!(p.pins.pc, CONFIGURATION_WORD_ADDRESS as usize);
    assert!(p.pins.vdd && p.pins.vpp);
    p.increment_address();
    assert_eq!(p.current_address, 0);
    assert_eq!(p.pins.pc, 0);
}

#[test]
fn address_moves_by_at_most_one_between_commands() {
    let mut s = session();
    send(&mut s, "P\n:020010000123CA\n:020005000321D5\n:00000001FF\n");
    let trace = &s.programmer.pins.pc_trace;
    assert!(trace.len() > 2);
    for pair in trace.windows(2) {
        let (_, before) = pair[0];
        let (command, after) = pair[1];
        if command == 0x06 {
            let first = (CONFIGURATION_WORD_ADDRESS as usize + 1) % ADDRESS_SIZE as usize;
            assert!(after == (before + 1) % ADDRESS_SIZE as usize || after == first);
        } else {
            assert!(after == before || after == CONFIGURATION_WORD_ADDRESS as usize);
        }
    }
    assert_eq!(s.programmer.pins.memory[0x10], 0x0123);
    assert_eq!(s.programmer.pins.memory[0x05], 0x0321);
}

#[test]
fn engine_pointer_tracks_target_pc() {
    let mut p = Programmer::new(SimulatedTarget::new());
    p.enter_programming_mode();
    p.program(0x42, 0x0ABC);
    assert_eq!(p.current_address, 0x42);
    assert_eq!(p.pins.pc, 0x42);
    assert_eq!(p.pins.memory[0x42], 0x0ABC);
    let word = p.read();
    assert_eq!(word, MemoryData { address: 0x42, data: 0x0ABC });
    assert_eq!(p.read_data(), 0x0ABC);
    p.goto_to_address(0x41);
    assert_eq!(p.current_address, 0x41);
    assert_eq!(p.pins.pc, 0x41);
    p.exit_programming_mode();
    assert!(!p.pins.in_mode);
}

#[test]
fn osccal_survives_records_at_its_address() {
    let mut s = session();
    send(&mut s, "P\n");
    assert_eq!(send(&mut s, ":0200FF000000FF\n"), "Y\n");
    assert_eq!(s.programmer.pins.memory[OSCCAL_ADDRESS as usize], 0x0000);
    assert_eq!(send(&mut s, ":00000001FF\n"), "Y\ndone\n");
    assert_eq!(s.programmer.pins.memory[OSCCAL_ADDRESS as usize], 0x0C34);
    assert_eq!(s.programmer.pins.memory[BACKUP_OSCCAL_ADDRESS as usize], ORIGINAL_BACKUP & 0xFF);
}

#[test]
fn same_record_many_times_equals_once() {
    let mut once = session();
    send(&mut once, "P\n");
    send(&mut once, ":020000000C1AD8\n");
    let mut thrice = session();
    send(&mut thrice, "P\n");
    for _ in 0..3 {
        assert_eq!(send(&mut thrice, ":020000000C1AD8\n"), "Y\n");
    }
    assert_eq!(once.programmer.pins.memory, thrice.programmer.pins.memory);
    assert_eq!(once.programmer.current_address, thrice.programmer.current_address);
    send(&mut once, ":00000001FF\n");
    send(&mut thrice, ":00000001FF\n");
    assert_eq!(once.programmer.pins.memory, thrice.programmer.pins.memory);
}

#[test]
fn nothing_is_programmed_after_end_of_file() {
    let mut s = session();
    send(&mut s, "P\n:00000001FF\n");
    assert_eq!(s.state, States::Finished);
    let memory = s.programmer.pins.memory.clone();
    let writes = s.programmer.pins.programmed.len();
    assert_eq!(send(&mut s, ":020000000C1AD8\nP\nD\n"), "");
    assert_eq!(s.state, States::Finished);
    assert_eq!(s.programmer.pins.memory, memory);
    assert_eq!(s.programmer.pins.programmed.len(), writes);
    assert!(s.read_step().is_none());
}

#[test]
fn unknown_trigger_bytes_are_ignored() {
    let mut s = session();
    assert_eq!(send(&mut s, "x\n:Q"), "");
    assert_eq!(s.state, States::WaitingToStart);
    assert!(s.programmer.pins.programmed.is_empty());
}

#[test]
fn out_of_range_data_record_is_not_written() {
    let mut s = session();
    send(&mut s, "P\n");
    let writes = s.programmer.pins.programmed.len();
    assert_eq!(send(&mut s, ":02200000123498\n"), "Y\n");
    assert_eq!(s.programmer.pins.programmed.len(), writes);
}

fn reply_text(r: Reply) -> Vec<u8> {
    let (buf, n) = r.to_bytes();
    buf[..n].to_vec()
}

#[test]
fn replies_render() {
    assert_eq!(reply_text(Reply::Nothing), b"".to_vec());
    assert_eq!(reply_text(Reply::Started), b"start\n".to_vec());
    assert_eq!(reply_text(Reply::Accepted), b"Y\n".to_vec());
    assert_eq!(reply_text(Reply::Resend), b"R\n".to_vec());
    assert_eq!(reply_text(Reply::Done), b"Y\ndone\n".to_vec());
    assert_eq!(done_line(), *b"done\n");
    let line = format_dump_line(&MemoryData { address: 0xABCD, data: 0x0C1A });
    assert_eq!(line, *b"A:ABCD | D:0C1A\n");
}

#[test]
fn recorder_keeps_the_wire_events_of_a_command() {
    let mut p = Programmer::new(PinRecorder::new());
    p.increment_address();
    let events = &p.pins.events;
    // Six bits of 0b000110, least significant first, five events each, then the gap.
    assert_eq!(events.len(), 31);
    let bits: Vec<bool> = (0..6).map(|i| events[5 * i] == PinEvent::Drive(Line::Data, true)).collect();
    assert_eq!(bits, vec![false, true, true, false, false, false]);
    assert_eq!(events[1], PinEvent::Drive(Line::Clock, true));
    assert_eq!(events[2], PinEvent::Wait(100));
    assert_eq!(events[3], PinEvent::Drive(Line::Clock, false));
    assert_eq!(events[4], PinEvent::Wait(100));
    assert_eq!(events[30], PinEvent::Wait(1_000));
}

#[test]
fn recorder_read_frame_releases_and_reclaims_the_data_line() {
    let mut p = Programmer::new(PinRecorder::new());
    let word = p.read_data();
    assert_eq!(word, 0x0FFF);
    let events = &p.pins.events;
    assert_eq!(events[31], PinEvent::DataInput);
    assert_eq!(events.iter().filter(|e| matches!(e, PinEvent::Sample(_))).count(), 16);
    assert_eq!(*events.last().unwrap(), PinEvent::DataOutputLow);
    assert_eq!(events.len(), 31 + 1 + 16 * 5 + 1);
}
