use vstd::prelude::*;

verus! {

/// Where the parser stands in the record it is assembling; the counter of each
/// field state is the number of hex digits still to come in that field.
#[derive(PartialEq, Eq, Structural, Clone, Copy, Debug)]
pub enum HexInstructionReadState {
    Start,
    ByteCount(u8),
    Address(u8),
    RecordType(u8),
    Data(u16),
    Checksum(u8),
    Done,
}

/// One Intel HEX record, assembled one nibble at a time.
#[derive(Clone, Copy, Debug)]
pub struct HexInstruction {
    pub byte_count: u8,
    pub address: u16,
    pub record_type: u8,
    pub data: u16,
    pub checksum: u8,
    pub state: HexInstructionReadState,
}

pub open spec fn is_hex_digit(c: u8) -> bool {
    (0x30 <= c <= 0x39) || (0x61 <= c <= 0x66) || (0x41 <= c <= 0x46)
}

/// The value of an ASCII hex digit; any other byte is left as it is.
pub open spec fn nibble_of(c: u8) -> u8 {
    if 0x30 <= c <= 0x39 {
        (c - 0x30) as u8
    } else if 0x61 <= c <= 0x66 {
        (c - 0x61 + 10) as u8
    } else if 0x41 <= c <= 0x46 {
        (c - 0x41 + 10) as u8
    } else {
        c
    }
}

pub open spec fn shift_in_u8(acc: u8, b: u8) -> u8 {
    ((acc << 4u8) | b) as u8
}

pub open spec fn shift_in_u16(acc: u16, b: u8) -> u16 {
    ((acc << 4u16) | (b as u16)) as u16
}

/// Maps an ASCII hex digit to its value and passes any other byte through.
pub fn convert_byte_to_hexadecimal_if_possible(byte: u8) -> (r: u8)
    ensures
        r == nibble_of(byte),
        is_hex_digit(byte) ==> r < 16,
{
    if 0x30 <= byte && byte <= 0x39 {
        byte - 0x30
    } else if 0x61 <= byte && byte <= 0x66 {
        10 + (byte - 0x61)
    } else if 0x41 <= byte && byte <= 0x46 {
        10 + (byte - 0x41)
    } else {
        byte
    }
}


/// The byte that opens every record.
pub const START_CODE: u8 = 0x3A;

pub const CARRIAGE_RETURN: u8 = 0x0D;

pub const LINE_FEED: u8 = 0x0A;

/// The record type that marks the end of the file.
pub const END_OF_FILE_RECORD: u8 = 0x01;

/// The record type that carries program data.
pub const DATA_RECORD: u8 = 0x00;

/// A record with every field zero, waiting for its start code.
pub open spec fn empty_record() -> HexInstruction {
    HexInstruction {
        byte_count: 0,
        address: 0,
        record_type: 0,
        data: 0,
        checksum: 0,
        state: HexInstructionReadState::Start,
    }
}

/// The record after one more nibble (or, before the start code, any byte).
pub open spec fn next(h: HexInstruction, b: u8) -> HexInstruction {
    match h.state {
        HexInstructionReadState::Start => {
            if b == START_CODE {
                HexInstruction { state: HexInstructionReadState::ByteCount(2), ..empty_record() }
            } else {
                h
            }
        },
        HexInstructionReadState::ByteCount(k) => HexInstruction {
            byte_count: shift_in_u8(h.byte_count, b),
            state: if k > 1 {
                HexInstructionReadState::ByteCount((k - 1) as u8)
            } else {
                HexInstructionReadState::Address(4)
            },
            ..h
        },
        HexInstructionReadState::Address(k) => HexInstruction {
            address: shift_in_u16(h.address, b),
            state: if k > 1 {
                HexInstructionReadState::Address((k - 1) as u8)
            } else {
                HexInstructionReadState::RecordType(2)
            },
            ..h
        },
        HexInstructionReadState::RecordType(k) => HexInstruction {
            record_type: shift_in_u8(h.record_type, b),
            state: if k > 1 {
                HexInstructionReadState::RecordType((k - 1) as u8)
            } else if h.byte_count == 0 {
                HexInstructionReadState::Checksum(2)
            } else {
                HexInstructionReadState::Data((h.byte_count * 2) as u16)
            },
            ..h
        },
        HexInstructionReadState::Data(k) => HexInstruction {
            data: shift_in_u16(h.data, b),
            state: if k > 1 {
                HexInstructionReadState::Data((k - 1) as u16)
            } else {
                HexInstructionReadState::Checksum(2)
            },
            ..h
        },
        HexInstructionReadState::Checksum(k) => HexInstruction {
            checksum: shift_in_u8(h.checksum, b),
            state: if k > 1 {
                HexInstructionReadState::Checksum((k - 1) as u8)
            } else {
                HexInstructionReadState::Done
            },
            ..h
        },
        HexInstructionReadState::Done => h,
    }
}

/// The record after one byte as it arrives on the link: line ends are skipped,
/// anything else goes through the digit mapping into the state machine.
pub open spec fn next_ascii(h: HexInstruction, c: u8) -> HexInstruction {
    if c == CARRIAGE_RETURN || c == LINE_FEED {
        h
    } else {
        next(h, nibble_of(c))
    }
}

/// The record after a whole stretch of link bytes, fed in order.
pub open spec fn feed(h: HexInstruction, s: Seq<u8>) -> HexInstruction
    decreases s.len(),
{
    if s.len() == 0 {
        h
    } else {
        next_ascii(feed(h, s.drop_last()), s.last())
    }
}

/// The sum of the record's bytes as the checksum covers them.
pub open spec fn sum_of_fields(h: HexInstruction) -> int {
    h.byte_count + h.address / 256 + h.address % 256 + h.record_type + h.data / 256 + h.data
        % 256
}

/// The two's complement of the low byte of the field sum.
pub open spec fn checksum_of(h: HexInstruction) -> u8 {
    ((256 - sum_of_fields(h) % 256) % 256) as u8
}

impl HexInstruction {
    pub fn new() -> (r: HexInstruction)
        ensures
            r == empty_record(),
    {
        HexInstruction {
            byte_count: 0,
            address: 0,
            record_type: 0,
            data: 0,
            checksum: 0,
            state: HexInstructionReadState::Start,
        }
    }

    /// Whether the record is complete, checksum included.
    pub fn check_done(&self) -> (r: bool)
        ensures
            r == (self.state == HexInstructionReadState::Done),
    {
        self.state == HexInstructionReadState::Done
    }

    fn reset_state(&mut self)
        ensures
            *final(self) == empty_record(),
    {
        self.byte_count = 0;
        self.address = 0;
        self.record_type = 0;
        self.data = 0;
        self.checksum = 0;
        self.state = HexInstructionReadState::Start;
    }

    /// Feeds one nibble (or, before the start code, one raw byte).
    pub fn add_byte_in_state(&mut self, byte: u8)
        ensures
            *final(self) == next(*old(self), byte),
    {
        match self.state {
            HexInstructionReadState::Start => {
                if byte == START_CODE {
                    self.reset_state();
                    self.state = HexInstructionReadState::ByteCount(2);
                }
            },
            HexInstructionReadState::ByteCount(k) => {
                if k > 1 {
                    self.state = HexInstructionReadState::ByteCount(k - 1);
                } else {
                    self.state = HexInstructionReadState::Address(4);
                }
                self.byte_count = (self.byte_count << 4u8) | byte;
            },
            HexInstructionReadState::Address(k) => {
                if k > 1 {
                    self.state = HexInstructionReadState::Address(k - 1);
                } else {
                    self.state = HexInstructionReadState::RecordType(2);
                }
                self.address = (self.address << 4u16) | (byte as u16);
            },
            HexInstructionReadState::RecordType(k) => {
                if k > 1 {
                    self.state = HexInstructionReadState::RecordType(k - 1);
                } else if self.byte_count == 0 {
                    self.state = HexInstructionReadState::Checksum(2);
                } else {
                    self.state = HexInstructionReadState::Data((self.byte_count as u16) * 2);
                }
                self.record_type = (self.record_type << 4u8) | byte;
            },
            HexInstructionReadState::Data(k) => {
                if k > 1 {
                    self.state = HexInstructionReadState::Data(k - 1);
                } else {
                    self.state = HexInstructionReadState::Checksum(2);
                }
                self.data = (self.data << 4u16) | (byte as u16);
            },
            HexInstructionReadState::Checksum(k) => {
                if k > 1 {
                    self.state = HexInstructionReadState::Checksum(k - 1);
                } else {
                    self.state = HexInstructionReadState::Done;
                }
                self.checksum = (self.checksum << 4u8) | byte;
            },
            HexInstructionReadState::Done => {},
        }
    }

    /// Feeds one byte as it came from the host link.
    pub fn push_ascii(&mut self, ascii: u8)
        ensures
            *final(self) == next_ascii(*old(self), ascii),
    {
        if ascii != CARRIAGE_RETURN && ascii != LINE_FEED {
            let nibble = convert_byte_to_hexadecimal_if_possible(ascii);
            self.add_byte_in_state(nibble);
        }
    }

    /// The checksum that the record's fields call for.
    pub fn calculate_checksum(&self) -> (r: u8)
        ensures
            r == checksum_of(*self),
    {
        let address = self.address;
        let data = self.data;
        proof {
            assert((address >> 8u16) & 0xFF == address / 256) by (bit_vector);
            assert(address & 0xFF == address % 256) by (bit_vector);
            assert((data >> 8u16) & 0xFF == data / 256) by (bit_vector);
            assert(data & 0xFF == data % 256) by (bit_vector);
        }
        let mut sum: u16 = self.byte_count as u16;
        sum = sum + ((address >> 8u16) & 0xFF);
        sum = sum + (address & 0xFF);
        sum = sum + self.record_type as u16;
        sum = sum + ((data >> 8u16) & 0xFF);
        sum = sum + (data & 0xFF);
        let lsb: u16 = sum % 256;
        ((256 - lsb) % 256) as u8
    }

    /// One letter for the parser's state, for diagnostics.
    pub fn state_letter(&self) -> (r: char)
        ensures
            r == match self.state {
                HexInstructionReadState::Start => 's',
                HexInstructionReadState::ByteCount(_) => 'b',
                HexInstructionReadState::Address(_) => 'a',
                HexInstructionReadState::RecordType(_) => 'r',
                HexInstructionReadState::Data(_) => 'd',
                HexInstructionReadState::Checksum(_) => 'c',
                HexInstructionReadState::Done => 'f',
            },
    {
        match self.state {
            HexInstructionReadState::Start => 's',
            HexInstructionReadState::ByteCount(_) => 'b',
            HexInstructionReadState::Address(_) => 'a',
            HexInstructionReadState::RecordType(_) => 'r',
            HexInstructionReadState::Data(_) => 'd',
            HexInstructionReadState::Checksum(_) => 'c',
            HexInstructionReadState::Done => 'f',
        }
    }

    pub fn check_end_of_file(&self) -> (r: bool)
        ensures
            r == (self.record_type == END_OF_FILE_RECORD),
    {
        self.record_type == END_OF_FILE_RECORD
    }
}

/// For every record whose checksum field is the one its fields call for, the
/// field sum plus the checksum is a multiple of 256.
pub proof fn lemma_checksum_law(h: HexInstruction)
    requires
        h.checksum == checksum_of(h),
    ensures
        (sum_of_fields(h) + h.checksum) % 256 == 0,
{
}

/// The upper-case ASCII digit of a value below 16.
pub open spec fn hex_digit(n: int) -> u8 {
    if n < 10 {
        (0x30 + n) as u8
    } else {
        (0x41 + n - 10) as u8
    }
}

/// Two upper-case hex digits of a byte, most significant first.
pub open spec fn hex2(v: int) -> Seq<u8> {
    seq![hex_digit(v / 16 % 16), hex_digit(v % 16)]
}

/// Four upper-case hex digits of a word, most significant first.
pub open spec fn hex4(v: int) -> Seq<u8> {
    hex2(v / 256 % 256) + hex2(v % 256)
}

/// The line that writes a record out again, its data field only when the
/// byte count is not zero.
pub open spec fn serialize(h: HexInstruction) -> Seq<u8> {
    seq![START_CODE] + hex2(h.byte_count as int) + hex4(h.address as int) + hex2(
        h.record_type as int,
    ) + (if h.byte_count == 0 {
        Seq::<u8>::empty()
    } else {
        hex4(h.data as int)
    }) + hex2(h.checksum as int)
}

/// A lower-case hex digit in upper case; any other byte as it is.
pub open spec fn upper_char(c: u8) -> u8 {
    if 0x61 <= c <= 0x66 {
        (c - 0x20) as u8
    } else {
        c
    }
}

/// A line with its hex digits in upper case.
pub open spec fn upper_line(l: Seq<u8>) -> Seq<u8> {
    Seq::new(l.len(), |i: int| upper_char(l[i]))
}

/// A well-formed line, its digits in either case, with no data (byte count
/// 0) or one program word (byte count 2).
pub open spec fn is_valid_line(l: Seq<u8>) -> bool {
    &&& l.len() >= 3
    &&& l[0] == START_CODE
    &&& forall|i: int| 1 <= i < l.len() ==> is_hex_digit(#[trigger] l[i])
    &&& l[1] == 0x30
    &&& ((l[2] == 0x30 && l.len() == 11) || (l[2] == 0x32 && l.len() == 15))
}

proof fn lemma_shift_u8(a: u8, b: u8)
    requires
        a < 16,
        b < 16,
    ensures
        shift_in_u8(a, b) == a * 16 + b,
{
    assert(((a << 4u8) | b) as u8 == a * 16 + b) by (bit_vector)
        requires
            a < 16,
            b < 16,
    ;
}

proof fn lemma_shift_u16(a: u16, b: u8)
    requires
        a < 4096,
        b < 16,
    ensures
        shift_in_u16(a, b) == a * 16 + b,
{
    assert(((a << 4u16) | (b as u16)) as u16 == a * 16 + b) by (bit_vector)
        requires
            a < 4096,
            b < 16,
    ;
}

proof fn lemma_feed_take(h: HexInstruction, s: Seq<u8>, i: int)
    requires
        0 <= i < s.len(),
    ensures
        feed(h, s.take(i + 1)) == next_ascii(feed(h, s.take(i)), s[i]),
{
    assert(s.take(i + 1).drop_last() =~= s.take(i));
}

proof fn lemma_digit(c: u8)
    requires
        is_hex_digit(c),
    ensures
        nibble_of(c) < 16,
        hex_digit(nibble_of(c) as int) == upper_char(c),
        c != CARRIAGE_RETURN && c != LINE_FEED,
{
}

proof fn lemma_hex2(a: u8, b: u8)
    requires
        a < 16,
        b < 16,
    ensures
        hex2(a * 16 + b) == seq![hex_digit(a as int), hex_digit(b as int)],
{
}

proof fn lemma_word_digits(w: int, a: int, b: int, c: int, d: int)
    requires
        0 <= a < 16,
        0 <= b < 16,
        0 <= c < 16,
        0 <= d < 16,
        w == ((a * 16 + b) * 16 + c) * 16 + d,
    ensures
        hex4(w) == seq![hex_digit(a), hex_digit(b), hex_digit(c), hex_digit(d)],
{
    let hi = a * 16 + b;
    let lo = c * 16 + d;
    assert(w == hi * 256 + lo);
    vstd::arithmetic::div_mod::lemma_fundamental_div_mod_converse(w, 256, hi, lo);
    vstd::arithmetic::div_mod::lemma_fundamental_div_mod_converse(hi, 16, a, b);
    vstd::arithmetic::div_mod::lemma_fundamental_div_mod_converse(lo, 16, c, d);
    assert(hi % 256 == hi);
    assert(hex4(w) =~= seq![hex_digit(a), hex_digit(b), hex_digit(c), hex_digit(d)]);
}

proof fn lemma_line_digits(l: Seq<u8>)
    requires
        is_valid_line(l),
    ensures
        forall|i: int|
            1 <= i < l.len() ==> nibble_of(#[trigger] l[i]) < 16 && hex_digit(
                nibble_of(l[i]) as int,
            ) == upper_char(l[i]) && l[i] != CARRIAGE_RETURN && l[i] != LINE_FEED,
{
    assert forall|i: int| 1 <= i < l.len() implies nibble_of(#[trigger] l[i]) < 16 && hex_digit(
        nibble_of(l[i]) as int,
    ) == upper_char(l[i]) && l[i] != CARRIAGE_RETURN && l[i] != LINE_FEED by {
        lemma_digit(l[i]);
    }
}

pub open spec fn byte_from(l: Seq<u8>, i: int) -> int {
    nibble_of(l[i]) * 16 + nibble_of(l[i + 1])
}

pub open spec fn word_from(l: Seq<u8>, i: int) -> int {
    byte_from(l, i) * 256 + byte_from(l, i + 2)
}

proof fn lemma_feed_header(l: Seq<u8>)
    requires
        is_valid_line(l),
    ensures
        feed(empty_record(), l.take(9)) == (HexInstruction {
            byte_count: byte_from(l, 1) as u8,
            address: word_from(l, 3) as u16,
            record_type: byte_from(l, 7) as u8,
            data: 0,
            checksum: 0,
            state: if l.len() == 11 {
                HexInstructionReadState::Checksum(2)
            } else {
                HexInstructionReadState::Data(4)
            },
        }),
        l.len() == 11 ==> byte_from(l, 1) == 0,
        l.len() == 15 ==> byte_from(l, 1) == 2,
{
    let e = empty_record();
    lemma_line_digits(l);
    assert(l.take(0) =~= Seq::<u8>::empty());
    let n1 = nibble_of(l[1]);
    let n2 = nibble_of(l[2]);
    let n3 = nibble_of(l[3]);
    let n4 = nibble_of(l[4]);
    let n5 = nibble_of(l[5]);
    let n6 = nibble_of(l[6]);
    let n7 = nibble_of(l[7]);
    let n8 = nibble_of(l[8]);
    lemma_feed_take(e, l, 0);
    lemma_feed_take(e, l, 1);
    lemma_feed_take(e, l, 2);
    lemma_shift_u8(0, n1);
    lemma_shift_u8(n1, n2);
    let bc = (n1 * 16 + n2) as u8;
    assert(feed(e, l.take(3)) == HexInstruction {
        byte_count: bc,
        state: HexInstructionReadState::Address(4),
        ..e
    });
    lemma_feed_take(e, l, 3);
    lemma_feed_take(e, l, 4);
    lemma_feed_take(e, l, 5);
    lemma_feed_take(e, l, 6);
    lemma_shift_u16(0, n3);
    lemma_shift_u16(n3 as u16, n4);
    lemma_shift_u16((n3 * 16 + n4) as u16, n5);
    lemma_shift_u16(((n3 * 16 + n4) * 16 + n5) as u16, n6);
    let addr = (((n3 * 16 + n4) * 16 + n5) * 16 + n6) as u16;
    assert(addr == word_from(l, 3));
    assert(feed(e, l.take(7)) == HexInstruction {
        byte_count: bc,
        address: addr,
        state: HexInstructionReadState::RecordType(2),
        ..e
    });
    lemma_feed_take(e, l, 7);
    lemma_feed_take(e, l, 8);
    lemma_shift_u8(0, n7);
    lemma_shift_u8(n7, n8);
}

proof fn lemma_feed_tail_checksum(l: Seq<u8>, h: HexInstruction, at: int)
    requires
        is_valid_line(l),
        at == l.len() - 2,
        at >= 9,
        feed(empty_record(), l.take(at)) == h,
        h.state == HexInstructionReadState::Checksum(2),
        h.checksum == 0,
    ensures
        feed(empty_record(), l) == (HexInstruction {
            checksum: byte_from(l, at) as u8,
            state: HexInstructionReadState::Done,
            ..h
        }),
{
    let e = empty_record();
    lemma_line_digits(l);
    assert(l.take(l.len() as int) =~= l);
    lemma_feed_take(e, l, at);
    lemma_feed_take(e, l, at + 1);
    lemma_shift_u8(0, nibble_of(l[at]));
    lemma_shift_u8(nibble_of(l[at]), nibble_of(l[at + 1]));
}

proof fn lemma_feed_data(l: Seq<u8>, h: HexInstruction)
    requires
        is_valid_line(l),
        l.len() == 15,
        feed(empty_record(), l.take(9)) == h,
        h.state == HexInstructionReadState::Data(4),
        h.data == 0,
    ensures
        feed(empty_record(), l.take(13)) == (HexInstruction {
            data: word_from(l, 9) as u16,
            state: HexInstructionReadState::Checksum(2),
            ..h
        }),
{
    let e = empty_record();
    lemma_line_digits(l);
    let n9 = nibble_of(l[9]);
    let n10 = nibble_of(l[10]);
    let n11 = nibble_of(l[11]);
    let n12 = nibble_of(l[12]);
    lemma_feed_take(e, l, 9);
    lemma_feed_take(e, l, 10);
    lemma_feed_take(e, l, 11);
    lemma_feed_take(e, l, 12);
    lemma_shift_u16(0, n9);
    lemma_shift_u16(n9 as u16, n10);
    lemma_shift_u16((n9 * 16 + n10) as u16, n11);
    lemma_shift_u16(((n9 * 16 + n10) * 16 + n11) as u16, n12);
}

/// Feeding the bytes of a well-formed line into a fresh record, one by one,
/// completes the record, and the record writes out as that same line, its
/// digits in upper case.
#[verifier::rlimit(60)]
pub proof fn lemma_parser_round_trip(l: Seq<u8>)
    requires
        is_valid_line(l),
    ensures
        feed(empty_record(), l).state == HexInstructionReadState::Done,
        serialize(feed(empty_record(), l)) == upper_line(l),
{
    lemma_line_digits(l);
    lemma_feed_header(l);
    let h9 = feed(empty_record(), l.take(9));
    lemma_hex2(nibble_of(l[1]), nibble_of(l[2]));
    lemma_hex2(nibble_of(l[7]), nibble_of(l[8]));
    lemma_word_digits(
        word_from(l, 3),
        nibble_of(l[3]) as int,
        nibble_of(l[4]) as int,
        nibble_of(l[5]) as int,
        nibble_of(l[6]) as int,
    );
    let at = l.len() - 2;
    lemma_hex2(nibble_of(l[at]), nibble_of(l[at + 1]));
    if l.len() == 11 {
        lemma_feed_tail_checksum(l, h9, 9);
        assert(serialize(feed(empty_record(), l)) =~= upper_line(l));
    } else {
        lemma_feed_data(l, h9);
        let h13 = feed(empty_record(), l.take(13));
        lemma_word_digits(
            word_from(l, 9),
            nibble_of(l[9]) as int,
            nibble_of(l[10]) as int,
            nibble_of(l[11]) as int,
            nibble_of(l[12]) as int,
        );
        lemma_feed_tail_checksum(l, h13, 13);
        assert(serialize(feed(empty_record(), l)) =~= upper_line(l));
    }
}

/// A record fed in two stretches, however the bytes are split between them,
/// is the record fed all at once.
pub proof fn lemma_feed_fragments(h: HexInstruction, a: Seq<u8>, b: Seq<u8>)
    ensures
        feed(feed(h, a), b) == feed(h, a + b),
    decreases b.len(),
{
    if b.len() == 0 {
        assert(a + b =~= a);
    } else {
        assert((a + b).drop_last() =~= a + b.drop_last());
        assert((a + b).last() == b.last());
        lemma_feed_fragments(h, a, b.drop_last());
    }
}

} // verus!
