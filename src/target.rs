use crate::osccal_bits::{osccal_word, OSCCALBits};
use crate::programmer::{
    distance, program_log, seek_log, seek_steps, start_log, step, stop_log,
    IcspOp, IcspStep,
};
use crate::special_addresses::{
    ADDRESS_SIZE, BACKUP_OSCCAL_ADDRESS, CONFIGURATION_WORD_ADDRESS, OSCCAL_ADDRESS,
    USER_ID_FIRST_ADDRESS,
};
use vstd::prelude::*;

verus! {

/// A model of the target chip as the protocol sees it: its words, its
/// program counter, and the word latched for the next program cycle.
pub struct Target {
    pub memory: Seq<int>,
    pub pc: int,
    pub latch: int,
}

/// The value of an erased twelve-bit word.
pub open spec fn erased_word() -> int {
    0xFFF
}

pub open spec fn target_wf(t: Target) -> bool {
    &&& t.memory.len() == ADDRESS_SIZE
    &&& 0 <= t.pc < ADDRESS_SIZE
    &&& forall|a: int| 0 <= a < ADDRESS_SIZE ==> 0 <= #[trigger] t.memory[a] < 4096
    &&& 0 <= t.latch < 4096
}

/// The target after one protocol step. A load latches the twelve bits that
/// go on the wire; a program cycle writes the latch into the cell under the
/// program counter; a bulk erase clears every word, the calibration word and
/// its backup included.
pub open spec fn apply(t: Target, op: IcspOp) -> Target {
    match op {
        IcspOp::Enter => Target { pc: CONFIGURATION_WORD_ADDRESS as int, ..t },
        IcspOp::LoadData(d) => Target { latch: (d as int) % 4096, ..t },
        IcspOp::IncrementAddress => Target { pc: (t.pc + 1) % (ADDRESS_SIZE as int), ..t },
        IcspOp::BeginProgramming => Target { memory: t.memory.update(t.pc, t.latch), ..t },
        IcspOp::BulkErase => Target {
            memory: Seq::new(ADDRESS_SIZE as nat, |a: int| erased_word()),
            ..t
        },
        _ => t,
    }
}

/// The target after a whole log of steps.
pub open spec fn run(t: Target, log: Seq<IcspStep>) -> Target
    decreases log.len(),
{
    if log.len() == 0 {
        t
    } else {
        apply(run(t, log.drop_last()), log.last().op)
    }
}

/// Where the pointer stands after a list of records is written from `from`.
pub open spec fn last_address(from: int, records: Seq<(u16, u16)>) -> int {
    if records.len() == 0 {
        from
    } else {
        records.last().0 as int
    }
}

/// Writing a list of (address, word) records in order, starting from `from`.
pub open spec fn records_log(from: int, records: Seq<(u16, u16)>) -> Seq<IcspStep>
    decreases records.len(),
{
    if records.len() == 0 {
        Seq::empty()
    } else {
        records_log(from, records.drop_last()) + program_log(
            last_address(from, records.drop_last()),
            records.last().0 as int,
            records.last().1,
        )
    }
}

/// `n` more writes of one word at the address where the pointer already is.
pub open spec fn repeated_program_log(address: int, data: u16, n: nat) -> Seq<IcspStep>
    decreases n,
{
    if n == 0 {
        Seq::empty()
    } else {
        repeated_program_log(address, data, (n - 1) as nat) + program_log(address, address, data)
    }
}

pub proof fn lemma_run_append(t: Target, a: Seq<IcspStep>, b: Seq<IcspStep>)
    ensures
        run(t, a + b) == run(run(t, a), b),
    decreases b.len(),
{
    if b.len() == 0 {
        assert(a + b =~= a);
    } else {
        assert((a + b).drop_last() =~= a + b.drop_last());
        lemma_run_append(t, a, b.drop_last());
    }
}

proof fn lemma_run_seek_steps(t: Target, n: int)
    requires
        target_wf(t),
        n >= 0,
    ensures
        run(t, seek_steps(t.pc, n)) == (Target { pc: (t.pc + n) % (ADDRESS_SIZE as int), ..t }),
    decreases n,
{
    if n == 0 {
        assert(seek_steps(t.pc, n) =~= Seq::<IcspStep>::empty());
        assert(t == Target { pc: t.pc % (ADDRESS_SIZE as int), ..t });
    } else {
        assert(seek_steps(t.pc, n).drop_last() =~= seek_steps(t.pc, n - 1));
        lemma_run_seek_steps(t, n - 1);
    }
}

proof fn lemma_run_seek(t: Target, to: int)
    requires
        target_wf(t),
        0 <= to < ADDRESS_SIZE,
    ensures
        run(t, seek_log(t.pc, to)) == (Target { pc: to, ..t }),
{
    lemma_run_seek_steps(t, distance(t.pc, to));
}

proof fn lemma_run_tail3(t: Target, s: Seq<IcspStep>, a: IcspStep, b: IcspStep, c: IcspStep)
    ensures
        run(t, s + seq![a, b, c]) == apply(apply(apply(run(t, s), a.op), b.op), c.op),
{
    let l = s + seq![a, b, c];
    let l2 = s + seq![a, b];
    let l1 = s + seq![a];
    assert(l.drop_last() =~= l2);
    assert(l2.drop_last() =~= l1);
    assert(l1.drop_last() =~= s);
    assert(l.last() == c);
    assert(l2.last() == b);
    assert(l1.last() == a);
    assert(run(t, l1) == apply(run(t, s), a.op));
    assert(run(t, l2) == apply(run(t, l1), b.op));
    assert(run(t, l) == apply(run(t, l2), c.op));
}

/// One written word: the cell takes the twelve bits that went on the wire.
pub proof fn lemma_run_program(t: Target, address: int, data: u16)
    requires
        target_wf(t),
        0 <= address < ADDRESS_SIZE,
    ensures
        run(t, program_log(t.pc, address, data)) == (Target {
            memory: t.memory.update(address, (data as int) % 4096),
            pc: address,
            latch: (data as int) % 4096,
        }),
        target_wf(run(t, program_log(t.pc, address, data))),
{
    lemma_run_seek(t, address);
    lemma_run_tail3(
        t,
        seek_log(t.pc, address),
        step(IcspOp::LoadData(data), address),
        step(IcspOp::BeginProgramming, address),
        step(IcspOp::EndProgramming, address),
    );
}

/// Writing a word again where it was just written, any number of times,
/// leaves the target as the first write left it.
pub proof fn lemma_program_idempotent(t: Target, address: int, data: u16, n: nat)
    requires
        target_wf(t),
        0 <= address < ADDRESS_SIZE,
    ensures
        run(t, program_log(t.pc, address, data) + repeated_program_log(address, data, n)) == run(
            t,
            program_log(t.pc, address, data),
        ),
    decreases n,
{
    let once = program_log(t.pc, address, data);
    lemma_run_program(t, address, data);
    let t1 = run(t, once);
    if n == 0 {
        assert(once + repeated_program_log(address, data, n) =~= once);
    } else {
        let prev = repeated_program_log(address, data, (n - 1) as nat);
        let again = program_log(address, address, data);
        assert(once + repeated_program_log(address, data, n) =~= (once + prev) + again);
        lemma_run_append(t, once + prev, again);
        lemma_program_idempotent(t, address, data, (n - 1) as nat);
        lemma_run_program(t1, address, data);
        assert(t1.memory.update(address, (data as int) % 4096) =~= t1.memory);
    }
}

proof fn lemma_run_one(t: Target, x: IcspStep)
    ensures
        run(t, seq![x]) == apply(t, x.op),
{
    let l = seq![x];
    assert(l.drop_last() =~= Seq::<IcspStep>::empty());
    assert(l.last() == x);
    assert(run(t, l.drop_last()) == t);
}

proof fn lemma_run_two(t: Target, x: IcspStep, y: IcspStep)
    ensures
        run(t, seq![x, y]) == apply(apply(t, x.op), y.op),
{
    assert(seq![x, y].drop_last() =~= seq![x]);
    lemma_run_one(t, x);
}

proof fn lemma_run_three(t: Target, x: IcspStep, y: IcspStep, z: IcspStep)
    ensures
        run(t, seq![x, y, z]) == apply(apply(apply(t, x.op), y.op), z.op),
{
    assert(Seq::<IcspStep>::empty() + seq![x, y, z] =~= seq![x, y, z]);
    lemma_run_tail3(t, Seq::<IcspStep>::empty(), x, y, z);
}

proof fn lemma_run_start(t: Target, bits: u16, backup: u16)
    requires
        target_wf(t),
    ensures
        target_wf(run(t, start_log(bits, backup))),
        run(t, start_log(bits, backup)).pc == (CONFIGURATION_WORD_ADDRESS + 1) % (
        ADDRESS_SIZE as int),
{
    let cw = CONFIGURATION_WORD_ADDRESS as int;
    let osc = OSCCAL_ADDRESS as int;
    let spare = BACKUP_OSCCAL_ADDRESS as int;
    let first = (cw + 1) % (ADDRESS_SIZE as int);
    let a = seq![step(IcspOp::Enter, cw)];
    let b = seek_log(cw, osc);
    let c = seq![step(IcspOp::ReadData(bits), osc)];
    let d = seek_log(osc, spare);
    let e = seq![step(IcspOp::ReadData(backup), spare), step(IcspOp::Exit, spare)];
    let f = seq![
        step(IcspOp::Enter, cw),
        step(IcspOp::IncrementAddress, first),
        step(IcspOp::BulkErase, first),
    ];
    assert(start_log(bits, backup) =~= a + b + c + d + e + f);
    lemma_run_one(t, a[0]);
    let t1 = run(t, a);
    lemma_run_seek(t1, osc);
    lemma_run_append(t, a, b);
    let t2 = run(t, a + b);
    lemma_run_one(t2, c[0]);
    lemma_run_append(t, a + b, c);
    let t3 = run(t, a + b + c);
    lemma_run_seek(t3, spare);
    lemma_run_append(t, a + b + c, d);
    let t4 = run(t, a + b + c + d);
    lemma_run_two(t4, e[0], e[1]);
    lemma_run_append(t, a + b + c + d, e);
    let t5 = run(t, a + b + c + d + e);
    lemma_run_three(t5, f[0], f[1], f[2]);
    lemma_run_append(t, a + b + c + d + e, f);
    assert(t5 == t4);
}

proof fn lemma_run_records(t: Target, from: int, records: Seq<(u16, u16)>)
    requires
        target_wf(t),
        t.pc == from,
        forall|i: int| 0 <= i < records.len() ==> (#[trigger] records[i]).0 < ADDRESS_SIZE,
    ensures
        target_wf(run(t, records_log(from, records))),
        run(t, records_log(from, records)).pc == last_address(from, records),
    decreases records.len(),
{
    if records.len() == 0 {
        assert(records_log(from, records) =~= Seq::<IcspStep>::empty());
    } else {
        let prev = records.drop_last();
        let last = records.last();
        assert(last == records[records.len() - 1]);
        lemma_run_records(t, from, prev);
        let t1 = run(t, records_log(from, prev));
        lemma_run_append(
            t,
            records_log(from, prev),
            program_log(last_address(from, prev), last.0 as int, last.1),
        );
        lemma_run_program(t1, last.0 as int, last.1);
    }
}

proof fn lemma_run_stop(t: Target, saved: OSCCALBits, config: u16, user_id: u16)
    requires
        target_wf(t),
    ensures
        run(t, stop_log(t.pc, saved, config, user_id)).memory[OSCCAL_ADDRESS as int] == (osccal_word(
            saved.bits,
        ) as int) % 4096,
        run(t, stop_log(t.pc, saved, config, user_id)).memory[BACKUP_OSCCAL_ADDRESS as int]
            == saved.backup_bits as int,
{
    let cw = CONFIGURATION_WORD_ADDRESS as int;
    let osc = OSCCAL_ADDRESS as int;
    let spare = BACKUP_OSCCAL_ADDRESS as int;
    let id = USER_ID_FIRST_ADDRESS as int;
    let a = seq![step(IcspOp::Exit, t.pc), step(IcspOp::Enter, cw)];
    let b = program_log(cw, osc, osccal_word(saved.bits));
    let c = program_log(osc, spare, saved.backup_bits as u16);
    let d = seq![step(IcspOp::Exit, spare), step(IcspOp::Enter, cw)];
    let e = program_log(cw, cw, config);
    let f = program_log(cw, id, user_id);
    let g = seq![step(IcspOp::Exit, id)];
    assert(stop_log(t.pc, saved, config, user_id) =~= a + b + c + d + e + f + g);
    lemma_run_two(t, a[0], a[1]);
    let t1 = run(t, a);
    lemma_run_program(t1, osc, osccal_word(saved.bits));
    lemma_run_append(t, a, b);
    let t2 = run(t, a + b);
    lemma_run_program(t2, spare, saved.backup_bits as u16);
    lemma_run_append(t, a + b, c);
    let t3 = run(t, a + b + c);
    lemma_run_two(t3, d[0], d[1]);
    lemma_run_append(t, a + b + c, d);
    let t4 = run(t, a + b + c + d);
    lemma_run_program(t4, cw, config);
    lemma_run_append(t, a + b + c + d, e);
    let t5 = run(t, a + b + c + d + e);
    lemma_run_program(t5, id, user_id);
    lemma_run_append(t, a + b + c + d + e, f);
    let t6 = run(t, a + b + c + d + e + f);
    lemma_run_one(t6, g[0]);
    lemma_run_append(t, a + b + c + d + e + f, g);
}

/// A programming session that completes normally, against a target that
/// answers the two calibration reads with its own words, leaves the
/// calibration word as the `MOVLW` of its original low byte and the backup
/// word as its original low byte, whatever records were written.
pub proof fn lemma_osccal_preserved(
    t: Target,
    records: Seq<(u16, u16)>,
    config: u16,
    user_id: u16,
)
    requires
        target_wf(t),
        forall|i: int| 0 <= i < records.len() ==> (#[trigger] records[i]).0 < ADDRESS_SIZE,
    ensures
        ({
            let bits = t.memory[OSCCAL_ADDRESS as int] as u16;
            let backup = t.memory[BACKUP_OSCCAL_ADDRESS as int] as u16;
            let saved = OSCCALBits {
                bits: (bits & 0xFF) as u8,
                backup_bits: (backup & 0xFF) as u8,
            };
            let first = (CONFIGURATION_WORD_ADDRESS + 1) % (ADDRESS_SIZE as int);
            let session = start_log(bits, backup) + records_log(first, records) + stop_log(
                last_address(first, records),
                saved,
                config,
                user_id,
            );
            &&& run(t, session).memory[OSCCAL_ADDRESS as int] == (0x0C00 | (bits & 0xFF)) as int
            &&& run(t, session).memory[BACKUP_OSCCAL_ADDRESS as int] == (backup & 0xFF) as int
        }),
{
    let bits = t.memory[OSCCAL_ADDRESS as int] as u16;
    let backup = t.memory[BACKUP_OSCCAL_ADDRESS as int] as u16;
    let saved = OSCCALBits { bits: (bits & 0xFF) as u8, backup_bits: (backup & 0xFF) as u8 };
    let first = (CONFIGURATION_WORD_ADDRESS + 1) % (ADDRESS_SIZE as int);
    let s1 = start_log(bits, backup);
    let s2 = records_log(first, records);
    lemma_run_start(t, bits, backup);
    let t1 = run(t, s1);
    lemma_run_records(t1, first, records);
    lemma_run_append(t, s1, s2);
    let t2 = run(t, s1 + s2);
    lemma_run_stop(t2, saved, config, user_id);
    lemma_run_append(t, s1 + s2, stop_log(last_address(first, records), saved, config, user_id));
    assert(bits & 0xFF < 256) by (bit_vector);
    let low = (bits & 0xFF) as u8;
    assert((0x0C00 | (low as u16)) as u16 == 0x0C00 | (bits & 0xFF)) by (bit_vector)
        requires
            low == bits & 0xFF,
    ;
    assert((0x0C00 | (bits & 0xFF)) < 4096) by (bit_vector);
    assert(backup & 0xFF < 256) by (bit_vector);
}

} // verus!
