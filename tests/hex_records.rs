use pic_programmer::hex_instruction::{
    convert_byte_to_hexadecimal_if_possible, HexInstruction, HexInstructionReadState,
};

fn parse(line: &str) -> HexInstruction {
    let mut record = HexInstruction::new();
    for &b in line.as_bytes() {
        record.push_ascii(b);
    }
    record
}

fn serialize(r: &HexInstruction) -> String {
    let mut s = format!(":{:02X}{:04X}{:02X}", r.byte_count, r.address, r.record_type);
    if r.byte_count != 0 {
        s.push_str(&format!("{:04X}", r.data));
    }
    s.push_str(&format!("{:02X}", r.checksum));
    s
}

#[test]
fn digits_map_to_their_values() {
    assert_eq!(convert_byte_to_hexadecimal_if_possible(b'0'), 0);
    assert_eq!(convert_byte_to_hexadecimal_if_possible(b'9'), 9);
    assert_eq!(convert_byte_to_hexadecimal_if_possible(b'a'), 10);
    assert_eq!(convert_byte_to_hexadecimal_if_possible(b'f'), 15);
    assert_eq!(convert_byte_to_hexadecimal_if_possible(b'A'), 10);
    assert_eq!(convert_byte_to_hexadecimal_if_possible(b'F'), 15);
    assert_eq!(convert_byte_to_hexadecimal_if_possible(b'G'), b'G');
    assert_eq!(convert_byte_to_hexadecimal_if_possible(b':'), b':');
}

#[test]
fn new_record_is_empty_and_waiting() {
    let r = HexInstruction::new();
    assert_eq!(r.byte_count, 0);
    assert_eq!(r.address, 0);
    assert_eq!(r.record_type, 0);
    assert_eq!(r.data, 0);
    assert_eq!(r.checksum, 0);
    assert_eq!(r.state, HexInstructionReadState::Start);
    assert!(!r.check_done());
    assert_eq!(r.state_letter(), 's');
}

#[test]
fn data_record_fields() {
    let r = parse(":020000000C1AD8\n");
    assert!(r.check_done());
    assert_eq!(r.byte_count, 2);
    assert_eq!(r.address, 0x0000);
    assert_eq!(r.record_type, 0);
    assert_eq!(r.data, 0x0C1A);
    assert_eq!(r.checksum, 0xD8);
    assert_eq!(r.calculate_checksum(), 0xD8);
    assert!(!r.check_end_of_file());
    assert_eq!(r.state_letter(), 'f');
}

#[test]
fn end_of_file_record() {
    let r = parse(":00000001FF\r\n");
    assert!(r.check_done());
    assert_eq!(r.byte_count, 0);
    assert_eq!(r.record_type, 1);
    assert!(r.check_end_of_file());
    assert_eq!(r.calculate_checksum(), 0xFF);
    assert_eq!(r.checksum, 0xFF);
}

#[test]
fn bytes_before_start_code_are_dropped() {
    let r = parse("xyz12\n:020000040000FA");
    assert!(r.check_done());
    assert_eq!(r.record_type, 4);
    assert_eq!(r.calculate_checksum(), 0xFA);
}

#[test]
fn lower_case_digits_parse() {
    let r = parse(":020000000c1ad8");
    assert_eq!(r.data, 0x0C1A);
    assert_eq!(r.checksum, 0xD8);
}

#[test]
fn flipped_checksum_is_caught() {
    let r = parse(":020000000C1AD9");
    assert!(r.check_done());
    assert_eq!(r.checksum, 0xD9);
    assert_ne!(r.calculate_checksum(), r.checksum);
}

#[test]
fn checksum_when_field_sum_is_a_multiple_of_256() {
    let r = parse(":0200FF0000FF00");
    assert_eq!(r.calculate_checksum(), 0x00);
}

#[test]
fn checksum_law_on_examples() {
    for line in [":020000000C1AD8", ":00000001FF", ":0201FF00003FBF", ":02010000005AA3"] {
        let r = parse(line);
        let sum = r.byte_count as u32
            + (r.address >> 8) as u32
            + (r.address & 0xFF) as u32
            + r.record_type as u32
            + (r.data >> 8) as u32
            + (r.data & 0xFF) as u32;
        assert_eq!(r.calculate_checksum(), r.checksum);
        assert_eq!((sum + r.checksum as u32) & 0xFF, 0);
    }
}

#[test]
fn round_trip_of_valid_lines() {
    for line in [":020000000C1AD8", ":00000001FF", ":020000040000FA", ":0201FF00003FBF"] {
        let r = parse(line);
        assert!(r.check_done());
        assert_eq!(serialize(&r), line);
    }
}

#[test]
fn fragments_reassemble() {
    let whole = parse(":020000000C1AD8\n");
    let mut r = HexInstruction::new();
    for &b in b":0200000" {
        r.push_ascii(b);
    }
    assert!(!r.check_done());
    assert_eq!(r.state_letter(), 'r');
    for &b in b"00C1AD8\n" {
        r.push_ascii(b);
    }
    assert!(r.check_done());
    assert_eq!(r.byte_count, whole.byte_count);
    assert_eq!(r.address, whole.address);
    assert_eq!(r.record_type, whole.record_type);
    assert_eq!(r.data, whole.data);
    assert_eq!(r.checksum, whole.checksum);
}

#[test]
fn done_record_takes_no_more_bytes() {
    let mut r = parse(":00000001FF");
    r.add_byte_in_state(3);
    r.add_byte_in_state(b':');
    assert!(r.check_done());
    assert_eq!(r.checksum, 0xFF);
}

#[test]
fn field_states_in_order() {
    let mut r = HexInstruction::new();
    r.add_byte_in_state(b':');
    assert_eq!(r.state, HexInstructionReadState::ByteCount(2));
    r.add_byte_in_state(0);
    r.add_byte_in_state(2);
    assert_eq!(r.state, HexInstructionReadState::Address(4));
    for _ in 0..4 {
        r.add_byte_in_state(0);
    }
    assert_eq!(r.state, HexInstructionReadState::RecordType(2));
    r.add_byte_in_state(0);
    r.add_byte_in_state(0);
    assert_eq!(r.state, HexInstructionReadState::Data(4));
    for _ in 0..4 {
        r.add_byte_in_state(1);
    }
    assert_eq!(r.state, HexInstructionReadState::Checksum(2));
    assert_eq!(r.data, 0x1111);
}

#[test]
fn round_trip_of_lower_case_line_is_upper_case() {
    let r = parse(":020000000c1ad8");
    assert!(r.check_done());
    assert_eq!(serialize(&r), ":020000000C1AD8");
    let r = parse(":0201ff00003fbf");
    assert_eq!(serialize(&r), ":0201FF00003FBF");
}
