//! I²C master over two open-drain lines, SCL and SDA, clocked by a periodic
//! tick at twice the bit rate.
//!
//! A transaction is a script of bit slots (START, a data bit, an acknowledge
//! window, STOP, ...), each a fixed sequence of line operations. The engine
//! hands the operations out one at a time; the caller performs each one and
//! replies with what came of it.
use vstd::prelude::*;
use crate::bits::{bit_of, shift_in, received, test_bit, push_bit};
use crate::line::{Reply, reads_high, is_high};

verus! {

/// I2C error
#[derive(Debug, PartialEq, Eq)]
pub enum Error<E> {
    /// GPIO error
    Bus(E),
    /// No ack received
    NoAck,
    /// Invalid input
    InvalidData,
    /// The timer failed while a tick was awaited
    Timer,
}

/// One operation on the bus lines.
#[derive(Debug, Clone, Copy, PartialEq, Eq, Structural)]
pub enum I2cOp {
    /// Release SCL high (`true`) or pull it low.
    Scl(bool),
    /// Release SDA high (`true`) or pull it low.
    Sda(bool),
    /// Wait for the next tick.
    Wait,
    /// Sample SDA in the window where the receiver acknowledges a byte sent.
    ReadAck,
    /// Sample SDA for a data bit sent by the slave.
    ReadBit,
}

/// A unit of the bus protocol, one clock pulse or less.
#[derive(Debug, Clone, Copy, PartialEq, Eq, Structural)]
pub enum Slot {
    Start,
    Stop,
    /// A data bit driven by the master.
    BitOut(bool),
    /// The slave's acknowledge window after a byte sent.
    AckIn,
    /// SDA released before the slave sends a byte.
    Release,
    /// A data bit driven by the slave.
    BitIn,
    /// The master's acknowledge window after a byte received: `true` pulls
    /// SDA low (more bytes wanted), `false` leaves it high (the last byte).
    AckOut(bool),
}

/// What comes of a transaction when no line operation failed.
#[derive(Debug, Clone, Copy, PartialEq, Eq, Structural)]
pub enum Verdict {
    Completed,
    Nacked,
    Rejected,
}

/// An instruction to the caller.
#[derive(Debug, PartialEq, Eq)]
pub enum I2cAction<E> {
    /// Perform this operation and reply.
    Op(I2cOp),
    /// The transaction is over, with this result.
    Finish(Result<(), Error<E>>),
}

pub open spec fn verdict_result<E>(v: Verdict) -> Result<(), Error<E>> {
    match v {
        Verdict::Completed => Ok(()),
        Verdict::Nacked => Err(Error::NoAck),
        Verdict::Rejected => Err(Error::InvalidData),
    }
}

/// The line operations of a slot.
pub open spec fn slot_ops(s: Slot) -> Seq<I2cOp> {
    match s {
        Slot::Start => seq![I2cOp::Scl(true), I2cOp::Sda(true), I2cOp::Wait, I2cOp::Sda(false),
            I2cOp::Wait, I2cOp::Scl(false), I2cOp::Wait],
        Slot::Stop => seq![I2cOp::Scl(true), I2cOp::Wait, I2cOp::Sda(true), I2cOp::Wait],
        Slot::BitOut(v) => seq![I2cOp::Sda(v), I2cOp::Scl(true), I2cOp::Wait, I2cOp::Scl(false),
            I2cOp::Sda(false), I2cOp::Wait],
        Slot::AckIn => seq![I2cOp::Sda(true), I2cOp::Scl(true), I2cOp::Wait, I2cOp::ReadAck,
            I2cOp::Scl(false), I2cOp::Sda(false), I2cOp::Wait],
        Slot::Release => seq![I2cOp::Sda(true)],
        Slot::BitIn => seq![I2cOp::Scl(true), I2cOp::Wait, I2cOp::ReadBit, I2cOp::Scl(false),
            I2cOp::Wait],
        Slot::AckOut(ack) => seq![I2cOp::Sda(!ack), I2cOp::Scl(true), I2cOp::Wait,
            I2cOp::Scl(false), I2cOp::Sda(false), I2cOp::Wait],
    }
}

/// The line operations of a sequence of slots, one slot after another.
pub open spec fn ops_of(slots: Seq<Slot>) -> Seq<I2cOp>
    decreases slots.len(),
{
    if slots.len() == 0 {
        seq![]
    } else {
        slot_ops(slots[0]) + ops_of(slots.drop_first())
    }
}

/// A byte sent: its eight bits, most significant first, then the slave's
/// acknowledge window.
pub open spec fn send_slots(b: u8) -> Seq<Slot> {
    Seq::new(8, |k: int| Slot::BitOut(bit_of(b, (7 - k) as u8))).push(Slot::AckIn)
}

/// A byte received: SDA released, eight bits, then the master's acknowledge
/// window.
pub open spec fn recv_slots(ack: bool) -> Seq<Slot> {
    seq![Slot::Release] + Seq::new(8, |k: int| Slot::BitIn) + seq![Slot::AckOut(ack)]
}

/// The bytes of `out` sent one after another.
pub open spec fn send_frames(out: Seq<u8>) -> Seq<Slot>
    decreases out.len(),
{
    if out.len() == 0 {
        seq![]
    } else {
        send_slots(out[0]) + send_frames(out.drop_first())
    }
}

/// `n` bytes received, each acknowledged but the last.
pub open spec fn recv_frames(n: nat) -> Seq<Slot>
    decreases n,
{
    if n == 0 {
        seq![]
    } else if n == 1 {
        recv_slots(false)
    } else {
        recv_slots(true) + recv_frames((n - 1) as nat)
    }
}

/// The address byte that opens a write to `addr`.
pub open spec fn write_address(addr: u8) -> u8 {
    addr << 1u8
}

/// The address byte that opens a read from `addr`.
pub open spec fn read_address(addr: u8) -> u8 {
    (addr << 1u8) | 1u8
}

/// START, the write address, then the bytes of `out`.
pub open spec fn write_phase(addr: u8, out: Seq<u8>) -> Seq<Slot> {
    seq![Slot::Start] + send_slots(write_address(addr)) + send_frames(out)
}

/// START, the read address, then `n` bytes received.
pub open spec fn read_phase(addr: u8, n: nat) -> Seq<Slot> {
    seq![Slot::Start] + send_slots(read_address(addr)) + recv_frames(n)
}

/// The slots of a write of `out` to `addr`; nothing when `out` is empty.
pub open spec fn write_script(addr: u8, out: Seq<u8>) -> Seq<Slot> {
    if out.len() == 0 {
        seq![]
    } else {
        write_phase(addr, out).push(Slot::Stop)
    }
}

/// The slots of a read of `n` bytes from `addr`; nothing when `n` is zero.
pub open spec fn read_script(addr: u8, n: nat) -> Seq<Slot> {
    if n == 0 {
        seq![]
    } else {
        read_phase(addr, n).push(Slot::Stop)
    }
}

/// The slots of a write of `out` followed, after a repeated START, by a read
/// of `n` bytes; nothing when either is empty.
pub open spec fn write_read_script(addr: u8, out: Seq<u8>, n: nat) -> Seq<Slot> {
    if out.len() == 0 || n == 0 {
        seq![]
    } else {
        (write_phase(addr, out) + read_phase(addr, n)).push(Slot::Stop)
    }
}

#[derive(Clone, Copy, PartialEq, Eq, Structural)]
enum Kind {
    Write,
    Read,
    WriteRead,
}

#[derive(Clone, Copy, PartialEq, Eq, Structural)]
enum Stage {
    Opening,
    Addressing,
    Sending,
    Receiving,
    Closing,
    Finishing,
}

/// The I²C master engine: the position reached in the current transaction.
pub struct I2cEngine {
    active: bool,
    kind: Kind,
    addr: u8,
    n_out: usize,
    n_in: usize,
    /// Whether the address being (or last) sent is the read address.
    reading: bool,
    stage: Stage,
    /// The byte being sent or received.
    byte: usize,
    /// The slot within the address or data byte.
    slot: usize,
    /// The operation within the slot.
    op: usize,
    /// The operation handed out last, whose reply is due.
    awaiting: Option<I2cOp>,
    verdict: Verdict,
    /// The bits received so far of the current byte.
    acc: u8,
    /// Every data bit sampled so far in the transaction.
    samples: Ghost<Seq<bool>>,
}


/// Each byte sent takes nine slots.
proof fn lemma_send_frames_len(out: Seq<u8>)
    ensures
        send_frames(out).len() == 9 * out.len(),
    decreases out.len(),
{
    if out.len() > 0 {
        lemma_send_frames_len(out.drop_first());
    }
}

proof fn lemma_send_frames_index(out: Seq<u8>, i: int, j: int)
    requires
        0 <= i < out.len(),
        0 <= j < 9,
    ensures
        send_frames(out)[9 * i + j] == send_slots(out[i])[j],
    decreases out.len(),
{
    lemma_send_frames_len(out.drop_first());
    if i > 0 {
        lemma_send_frames_index(out.drop_first(), i - 1, j);
    }
}

proof fn lemma_recv_frames_len(n: nat)
    ensures
        recv_frames(n).len() == 10 * n,
    decreases n,
{
    if n > 1 {
        lemma_recv_frames_len((n - 1) as nat);
    }
}

proof fn lemma_recv_frames_index(n: nat, i: int, j: int)
    requires
        0 <= i < n,
        0 <= j < 10,
    ensures
        recv_frames(n)[10 * i + j] == recv_slots(i + 1 < n)[j],
    decreases n,
{
    if n > 1 {
        lemma_recv_frames_len((n - 1) as nat);
        if i > 0 {
            lemma_recv_frames_index((n - 1) as nat, i - 1, j);
        }
    }
}

/// The operations from slot `p` on are those of slot `p` and then the rest.
proof fn lemma_ops_of_skip(ss: Seq<Slot>, p: int)
    requires
        0 <= p < ss.len(),
    ensures
        ops_of(ss.skip(p)) == slot_ops(ss[p]) + ops_of(ss.skip(p + 1)),
{
    assert(ss.skip(p).drop_first() =~= ss.skip(p + 1));
}

proof fn lemma_ops_of_end(ss: Seq<Slot>)
    ensures
        ops_of(ss.skip(ss.len() as int)) == Seq::<I2cOp>::empty(),
{
    assert(ss.skip(ss.len() as int).len() == 0);
}

/// The operation at index `i` of slot `s`.
fn slot_op(s: Slot, i: usize) -> (r: I2cOp)
    requires
        i < slot_ops(s).len(),
    ensures
        r == slot_ops(s)[i as int],
{
    match s {
        Slot::Start => match i {
            0 => I2cOp::Scl(true),
            1 => I2cOp::Sda(true),
            3 => I2cOp::Sda(false),
            5 => I2cOp::Scl(false),
            _ => I2cOp::Wait,
        },
        Slot::Stop => match i {
            0 => I2cOp::Scl(true),
            2 => I2cOp::Sda(true),
            _ => I2cOp::Wait,
        },
        Slot::BitOut(v) => match i {
            0 => I2cOp::Sda(v),
            1 => I2cOp::Scl(true),
            3 => I2cOp::Scl(false),
            4 => I2cOp::Sda(false),
            _ => I2cOp::Wait,
        },
        Slot::AckIn => match i {
            0 => I2cOp::Sda(true),
            1 => I2cOp::Scl(true),
            3 => I2cOp::ReadAck,
            4 => I2cOp::Scl(false),
            5 => I2cOp::Sda(false),
            _ => I2cOp::Wait,
        },
        Slot::Release => I2cOp::Sda(true),
        Slot::BitIn => match i {
            0 => I2cOp::Scl(true),
            2 => I2cOp::ReadBit,
            3 => I2cOp::Scl(false),
            _ => I2cOp::Wait,
        },
        Slot::AckOut(ack) => match i {
            0 => I2cOp::Sda(!ack),
            1 => I2cOp::Scl(true),
            3 => I2cOp::Scl(false),
            4 => I2cOp::Sda(false),
            _ => I2cOp::Wait,
        },
    }
}

/// The number of operations of slot `s`.
fn slot_len(s: Slot) -> (r: usize)
    ensures
        r == slot_ops(s).len(),
{
    match s {
        Slot::Start => 7,
        Slot::Stop => 4,
        Slot::BitOut(_) => 6,
        Slot::AckIn => 7,
        Slot::Release => 1,
        Slot::BitIn => 5,
        Slot::AckOut(_) => 6,
    }
}

fn verdict_to_result<E>(v: Verdict) -> (r: Result<(), Error<E>>)
    ensures
        r == verdict_result::<E>(v),
{
    match v {
        Verdict::Completed => Ok(()),
        Verdict::Nacked => Err(Error::NoAck),
        Verdict::Rejected => Err(Error::InvalidData),
    }
}

/// The bus lines as the master drives them, whether SCL's present high
/// phase began with a rising edge (a clock pulse under way), and the ticks
/// awaited and the samples taken while SCL has been high.
pub struct Lines {
    pub scl: bool,
    pub sda: bool,
    pub rose: bool,
    pub ticks: nat,
    pub reads: nat,
}

/// A complete clock pulse: the SDA level while SCL was high, and the ticks
/// awaited and the samples taken meanwhile.
pub struct Pulse {
    pub sda: bool,
    pub ticks: nat,
    pub reads: nat,
}

/// Both lines released, as the bus is at rest.
pub open spec fn idle_lines() -> Lines {
    Lines { scl: true, sda: true, rose: false, ticks: 0, reads: 0 }
}

/// SCL held low between pulses, with SDA at `sda`.
pub open spec fn settled(sda: bool) -> Lines {
    Lines { scl: false, sda, rose: false, ticks: 0, reads: 0 }
}

/// The lines after `op`.
pub open spec fn apply(l: Lines, op: I2cOp) -> Lines {
    match op {
        I2cOp::Scl(v) => Lines {
            scl: v,
            sda: l.sda,
            rose: v && (l.rose || !l.scl),
            ticks: if v && l.scl {
                l.ticks
            } else {
                0
            },
            reads: if v && l.scl {
                l.reads
            } else {
                0
            },
        },
        I2cOp::Sda(v) => Lines { scl: l.scl, sda: v, rose: l.rose, ticks: l.ticks, reads: l.reads },
        I2cOp::Wait => Lines {
            scl: l.scl,
            sda: l.sda,
            rose: l.rose,
            ticks: if l.scl {
                l.ticks + 1
            } else {
                l.ticks
            },
            reads: l.reads,
        },
        _ => Lines {
            scl: l.scl,
            sda: l.sda,
            rose: l.rose,
            ticks: l.ticks,
            reads: if l.scl {
                l.reads + 1
            } else {
                l.reads
            },
        },
    }
}

/// The clock pulse that `op` completes, if it completes one.
pub open spec fn edge(l: Lines, op: I2cOp) -> Seq<Pulse> {
    if op == I2cOp::Scl(false) && l.scl && l.rose {
        seq![Pulse { sda: l.sda, ticks: l.ticks, reads: l.reads }]
    } else {
        seq![]
    }
}

/// The lines after `ops`, from `l`.
pub open spec fn lines_after(ops: Seq<I2cOp>, l: Lines) -> Lines
    decreases ops.len(),
{
    if ops.len() == 0 {
        l
    } else {
        apply(lines_after(ops.drop_last(), l), ops.last())
    }
}

/// The clock pulses that `ops` completes from `l`, in order.
pub open spec fn pulses(ops: Seq<I2cOp>, l: Lines) -> Seq<Pulse>
    decreases ops.len(),
{
    if ops.len() == 0 {
        seq![]
    } else {
        pulses(ops.drop_last(), l) + edge(lines_after(ops.drop_last(), l), ops.last())
    }
}

broadcast proof fn lemma_wire_push(ops: Seq<I2cOp>, op: I2cOp, l: Lines)
    ensures
        #[trigger] lines_after(ops.push(op), l) == apply(lines_after(ops, l), op),
        #[trigger] pulses(ops.push(op), l) == pulses(ops, l) + edge(lines_after(ops, l), op),
{
    assert(ops.push(op).drop_last() =~= ops);
}

proof fn lemma_wire_concat(a: Seq<I2cOp>, b: Seq<I2cOp>, l: Lines)
    ensures
        lines_after(a + b, l) == lines_after(b, lines_after(a, l)),
        pulses(a + b, l) == pulses(a, l) + pulses(b, lines_after(a, l)),
    decreases b.len(),
{
    if b.len() == 0 {
        assert(a + b =~= a);
        assert(pulses(a, l) + seq![] =~= pulses(a, l));
    } else {
        assert((a + b).drop_last() =~= a + b.drop_last());
        lemma_wire_concat(a, b.drop_last(), l);
        assert(pulses(a, l) + pulses(b.drop_last(), lines_after(a, l)) + edge(
            lines_after(b.drop_last(), lines_after(a, l)),
            b.last(),
        ) =~= pulses(a, l) + pulses(b, lines_after(a, l)));
    }
}

/// The pulses of a slot entered with SCL low and SDA at `sda`.
pub open spec fn slot_pulses(s: Slot, sda: bool) -> Seq<Pulse> {
    match s {
        Slot::BitOut(v) => seq![Pulse { sda: v, ticks: 1, reads: 0 }],
        Slot::AckIn => seq![Pulse { sda: true, ticks: 1, reads: 1 }],
        Slot::BitIn => seq![Pulse { sda, ticks: 1, reads: 1 }],
        Slot::AckOut(ack) => seq![Pulse { sda: !ack, ticks: 1, reads: 0 }],
        _ => seq![],
    }
}

/// The SDA level a slot leaves, entered with SCL low and SDA at `sda`.
pub open spec fn slot_exit(s: Slot, sda: bool) -> bool {
    match s {
        Slot::Release => true,
        Slot::BitIn => sda,
        _ => false,
    }
}

/// A slot within a byte: neither START nor STOP.
pub open spec fn inner(s: Slot) -> bool {
    s != Slot::Start && s != Slot::Stop
}

proof fn lemma_slot_wire(s: Slot, sda: bool)
    requires
        inner(s),
    ensures
        pulses(slot_ops(s), settled(sda)) == slot_pulses(s, sda),
        lines_after(slot_ops(s), settled(sda)) == settled(slot_exit(s, sda)),
{
    let e = Seq::<I2cOp>::empty();
    let l = settled(sda);
    assert(pulses(e, l) == Seq::<Pulse>::empty());
    assert(lines_after(e, l) == l);
    match s {
        Slot::BitOut(v) => {
            let o1 = e.push(I2cOp::Sda(v));
            lemma_wire_push(e, I2cOp::Sda(v), l);
            let o2 = o1.push(I2cOp::Scl(true));
            lemma_wire_push(o1, I2cOp::Scl(true), l);
            let o3 = o2.push(I2cOp::Wait);
            lemma_wire_push(o2, I2cOp::Wait, l);
            let o4 = o3.push(I2cOp::Scl(false));
            lemma_wire_push(o3, I2cOp::Scl(false), l);
            let o5 = o4.push(I2cOp::Sda(false));
            lemma_wire_push(o4, I2cOp::Sda(false), l);
            let o6 = o5.push(I2cOp::Wait);
            lemma_wire_push(o5, I2cOp::Wait, l);
            assert(slot_ops(s) =~= o6);
            assert(pulses(o6, l) =~= seq![Pulse { sda: v, ticks: 1, reads: 0 }]);
        },
        Slot::AckIn => {
            let o1 = e.push(I2cOp::Sda(true));
            lemma_wire_push(e, I2cOp::Sda(true), l);
            let o2 = o1.push(I2cOp::Scl(true));
            lemma_wire_push(o1, I2cOp::Scl(true), l);
            let o3 = o2.push(I2cOp::Wait);
            lemma_wire_push(o2, I2cOp::Wait, l);
            let o4 = o3.push(I2cOp::ReadAck);
            lemma_wire_push(o3, I2cOp::ReadAck, l);
            let o5 = o4.push(I2cOp::Scl(false));
            lemma_wire_push(o4, I2cOp::Scl(false), l);
            let o6 = o5.push(I2cOp::Sda(false));
            lemma_wire_push(o5, I2cOp::Sda(false), l);
            let o7 = o6.push(I2cOp::Wait);
            lemma_wire_push(o6, I2cOp::Wait, l);
            assert(slot_ops(s) =~= o7);
            assert(pulses(o7, l) =~= seq![Pulse { sda: true, ticks: 1, reads: 1 }]);
        },
        Slot::Release => {
            let o1 = e.push(I2cOp::Sda(true));
            lemma_wire_push(e, I2cOp::Sda(true), l);
            assert(slot_ops(s) =~= o1);
            assert(pulses(o1, l) =~= Seq::<Pulse>::empty());
        },
        Slot::BitIn => {
            let o1 = e.push(I2cOp::Scl(true));
            lemma_wire_push(e, I2cOp::Scl(true), l);
            let o2 = o1.push(I2cOp::Wait);
            lemma_wire_push(o1, I2cOp::Wait, l);
            let o3 = o2.push(I2cOp::ReadBit);
            lemma_wire_push(o2, I2cOp::ReadBit, l);
            let o4 = o3.push(I2cOp::Scl(false));
            lemma_wire_push(o3, I2cOp::Scl(false), l);
            let o5 = o4.push(I2cOp::Wait);
            lemma_wire_push(o4, I2cOp::Wait, l);
            assert(slot_ops(s) =~= o5);
            assert(pulses(o5, l) =~= seq![Pulse { sda, ticks: 1, reads: 1 }]);
        },
        Slot::AckOut(ack) => {
            let o1 = e.push(I2cOp::Sda(!ack));
            lemma_wire_push(e, I2cOp::Sda(!ack), l);
            let o2 = o1.push(I2cOp::Scl(true));
            lemma_wire_push(o1, I2cOp::Scl(true), l);
            let o3 = o2.push(I2cOp::Wait);
            lemma_wire_push(o2, I2cOp::Wait, l);
            let o4 = o3.push(I2cOp::Scl(false));
            lemma_wire_push(o3, I2cOp::Scl(false), l);
            let o5 = o4.push(I2cOp::Sda(false));
            lemma_wire_push(o4, I2cOp::Sda(false), l);
            let o6 = o5.push(I2cOp::Wait);
            lemma_wire_push(o5, I2cOp::Wait, l);
            assert(slot_ops(s) =~= o6);
            assert(pulses(o6, l) =~= seq![Pulse { sda: !ack, ticks: 1, reads: 0 }]);
        },
        _ => {},
    }
}

proof fn lemma_start_stop_wire(l: Lines)
    ensures
        pulses(slot_ops(Slot::Start), idle_lines()) == Seq::<Pulse>::empty(),
        lines_after(slot_ops(Slot::Start), idle_lines()) == settled(false),
        pulses(slot_ops(Slot::Stop), settled(l.sda)) == Seq::<Pulse>::empty(),
        lines_after(slot_ops(Slot::Stop), l).scl,
        lines_after(slot_ops(Slot::Stop), l).sda,
{
    let e = Seq::<I2cOp>::empty();
    let i = idle_lines();
    let o1 = e.push(I2cOp::Scl(true));
    let o2 = o1.push(I2cOp::Sda(true));
    let o3 = o2.push(I2cOp::Wait);
    let o4 = o3.push(I2cOp::Sda(false));
    let o5 = o4.push(I2cOp::Wait);
    let o6 = o5.push(I2cOp::Scl(false));
    let o7 = o6.push(I2cOp::Wait);
    lemma_wire_push(e, I2cOp::Scl(true), i);
    lemma_wire_push(o1, I2cOp::Sda(true), i);
    lemma_wire_push(o2, I2cOp::Wait, i);
    lemma_wire_push(o3, I2cOp::Sda(false), i);
    lemma_wire_push(o4, I2cOp::Wait, i);
    lemma_wire_push(o5, I2cOp::Scl(false), i);
    lemma_wire_push(o6, I2cOp::Wait, i);
    assert(slot_ops(Slot::Start) =~= o7);
    assert(pulses(o7, i) =~= Seq::<Pulse>::empty());
    let z = settled(l.sda);
    let q1 = e.push(I2cOp::Scl(true));
    let q2 = q1.push(I2cOp::Wait);
    let q3 = q2.push(I2cOp::Sda(true));
    let q4 = q3.push(I2cOp::Wait);
    lemma_wire_push(e, I2cOp::Scl(true), z);
    lemma_wire_push(q1, I2cOp::Wait, z);
    lemma_wire_push(q2, I2cOp::Sda(true), z);
    lemma_wire_push(q3, I2cOp::Wait, z);
    lemma_wire_push(e, I2cOp::Scl(true), l);
    lemma_wire_push(q1, I2cOp::Wait, l);
    lemma_wire_push(q2, I2cOp::Sda(true), l);
    lemma_wire_push(q3, I2cOp::Wait, l);
    assert(slot_ops(Slot::Stop) =~= q4);
    assert(pulses(q4, z) =~= Seq::<Pulse>::empty());
}

proof fn lemma_ops_of_concat(a: Seq<Slot>, b: Seq<Slot>)
    ensures
        ops_of(a + b) == ops_of(a) + ops_of(b),
    decreases a.len(),
{
    if a.len() == 0 {
        assert(a + b =~= b);
        assert(ops_of(a) + ops_of(b) =~= ops_of(b));
    } else {
        assert((a + b).drop_first() =~= a.drop_first() + b);
        lemma_ops_of_concat(a.drop_first(), b);
        assert(ops_of(a + b) =~= ops_of(a) + ops_of(b));
    }
}

/// The pulses of slots within bytes, one after another, entered with SCL
/// low and SDA at `sda`.
pub open spec fn run_pulses(ss: Seq<Slot>, sda: bool) -> Seq<Pulse>
    decreases ss.len(),
{
    if ss.len() == 0 {
        seq![]
    } else {
        slot_pulses(ss[0], sda) + run_pulses(ss.drop_first(), slot_exit(ss[0], sda))
    }
}

/// The SDA level that slots within bytes leave, entered with SCL low and SDA
/// at `sda`.
pub open spec fn run_exit(ss: Seq<Slot>, sda: bool) -> bool
    decreases ss.len(),
{
    if ss.len() == 0 {
        sda
    } else {
        run_exit(ss.drop_first(), slot_exit(ss[0], sda))
    }
}

proof fn lemma_run_wire(ss: Seq<Slot>, sda: bool)
    requires
        forall|i: int| 0 <= i < ss.len() ==> inner(#[trigger] ss[i]),
    ensures
        pulses(ops_of(ss), settled(sda)) == run_pulses(ss, sda),
        lines_after(ops_of(ss), settled(sda)) == settled(run_exit(ss, sda)),
    decreases ss.len(),
{
    if ss.len() == 0 {
    } else {
        let rest = ss.drop_first();
        assert(forall|i: int| 0 <= i < rest.len() ==> rest[i] == ss[i + 1]);
        lemma_slot_wire(ss[0], sda);
        lemma_run_wire(rest, slot_exit(ss[0], sda));
        lemma_wire_concat(slot_ops(ss[0]), ops_of(rest), settled(sda));
    }
}

proof fn lemma_run_concat(a: Seq<Slot>, b: Seq<Slot>, sda: bool)
    ensures
        run_pulses(a + b, sda) == run_pulses(a, sda) + run_pulses(b, run_exit(a, sda)),
        run_exit(a + b, sda) == run_exit(b, run_exit(a, sda)),
    decreases a.len(),
{
    if a.len() == 0 {
        assert(a + b =~= b);
        assert(run_pulses(a, sda) + run_pulses(b, sda) =~= run_pulses(b, sda));
    } else {
        assert((a + b).drop_first() =~= a.drop_first() + b);
        lemma_run_concat(a.drop_first(), b, slot_exit(a[0], sda));
        assert(run_pulses(a + b, sda) =~= run_pulses(a, sda) + run_pulses(b, run_exit(a, sda)));
    }
}

/// The pulses of a byte sent: its bits, most significant first, each held
/// for one tick, then the acknowledge window with SDA released, held for one
/// tick and sampled once.
pub open spec fn sent_pulses(b: u8) -> Seq<Pulse> {
    Seq::new(8, |k: int| Pulse { sda: bit_of(b, (7 - k) as u8), ticks: 1, reads: 0 }).push(
        Pulse { sda: true, ticks: 1, reads: 1 },
    )
}

proof fn lemma_out_run(ss: Seq<Slot>, sda: bool)
    requires
        forall|i: int| 0 <= i < ss.len() ==> (#[trigger] ss[i] matches Slot::BitOut(_) || ss[i]
            == Slot::AckIn),
    ensures
        run_pulses(ss, sda).len() == ss.len(),
        forall|i: int|
            0 <= i < ss.len() ==> #[trigger] run_pulses(ss, sda)[i] == match ss[i] {
                Slot::BitOut(v) => Pulse { sda: v, ticks: 1, reads: 0 },
                _ => Pulse { sda: true, ticks: 1, reads: 1 },
            },
        ss.len() > 0 ==> !run_exit(ss, sda),
    decreases ss.len(),
{
    if ss.len() > 0 {
        let rest = ss.drop_first();
        assert(forall|i: int| 0 <= i < rest.len() ==> rest[i] == ss[i + 1]);
        lemma_out_run(rest, slot_exit(ss[0], sda));
        reveal_with_fuel(run_exit, 2);
    }
}

proof fn lemma_send_run(b: u8, sda: bool)
    ensures
        run_pulses(send_slots(b), sda) == sent_pulses(b),
        !run_exit(send_slots(b), sda),
{
    lemma_out_run(send_slots(b), sda);
    assert(run_pulses(send_slots(b), sda) =~= sent_pulses(b));
}

proof fn lemma_in_run(n: nat, sda: bool)
    ensures
        run_pulses(Seq::new(n, |k: int| Slot::BitIn), sda) == Seq::new(
            n,
            |k: int| Pulse { sda, ticks: 1, reads: 1 },
        ),
        run_exit(Seq::new(n, |k: int| Slot::BitIn), sda) == sda,
    decreases n,
{
    let ss = Seq::new(n, |k: int| Slot::BitIn);
    if n > 0 {
        lemma_in_run((n - 1) as nat, sda);
        assert(ss.drop_first() =~= Seq::new((n - 1) as nat, |k: int| Slot::BitIn));
        assert(run_pulses(ss, sda) =~= Seq::new(n, |k: int| Pulse { sda, ticks: 1, reads: 1 }));
    } else {
        assert(run_pulses(ss, sda) =~= Seq::new(n, |k: int| Pulse { sda, ticks: 1, reads: 1 }));
    }
}

/// The pulses of a byte received, with the master's acknowledge window
/// last: SDA released and sampled once in each of the eight data bits, then
/// low for `ack`; each pulse held for one tick.
pub open spec fn received_pulses(ack: bool) -> Seq<Pulse> {
    Seq::new(8, |k: int| Pulse { sda: true, ticks: 1, reads: 1 }).push(
        Pulse { sda: !ack, ticks: 1, reads: 0 },
    )
}

proof fn lemma_recv_run(ack: bool, sda: bool)
    ensures
        run_pulses(recv_slots(ack), sda) == received_pulses(ack),
        !run_exit(recv_slots(ack), sda),
{
    let a = seq![Slot::Release];
    let m = Seq::new(8, |k: int| Slot::BitIn);
    let c = seq![Slot::AckOut(ack)];
    lemma_run_concat(a + m, c, sda);
    lemma_run_concat(a, m, sda);
    assert(a.drop_first() =~= Seq::<Slot>::empty());
    assert(c.drop_first() =~= Seq::<Slot>::empty());
    reveal_with_fuel(run_pulses, 2);
    reveal_with_fuel(run_exit, 2);
    assert(run_pulses(a, sda) =~= Seq::<Pulse>::empty());
    lemma_in_run(8, true);
    assert(run_pulses(c, true) =~= seq![Pulse { sda: !ack, ticks: 1, reads: 0 }]);
    assert(run_pulses(recv_slots(ack), sda) =~= received_pulses(ack));
}

proof fn lemma_recv_frames_run(n: nat, sda: bool)
    requires
        n >= 1,
    ensures
        run_pulses(recv_frames(n), sda).len() == 9 * n,
        forall|i: int, k: int|
            0 <= i < n && 0 <= k < 9 ==> #[trigger] run_pulses(recv_frames(n), sda)[9 * i + k].sda
                == (k < 8 || i == n - 1),
        !run_exit(recv_frames(n), sda),
    decreases n,
{
    if n == 1 {
        lemma_recv_run(false, sda);
    } else {
        lemma_recv_run(true, sda);
        lemma_recv_frames_run((n - 1) as nat, false);
        lemma_run_concat(recv_slots(true), recv_frames((n - 1) as nat), sda);
        let p = run_pulses(recv_frames(n), sda);
        let q = run_pulses(recv_frames((n - 1) as nat), false);
        assert forall|i: int, k: int| 0 <= i < n && 0 <= k < 9 implies #[trigger] p[9 * i + k].sda
            == (k < 8 || i == n - 1) by {
            if i > 0 {
                assert(p[9 * i + k] == q[9 * (i - 1) + k]);
            }
        }
    }
}

/// A write of one byte clocks exactly eighteen pulses: the nine of the
/// address byte (its bits, most significant first, and the acknowledge
/// window) and the nine of the data byte. So the first pulse carries the
/// most significant bit of the address byte on SDA. Each pulse lasts one
/// tick, and SDA is sampled once in each acknowledge window and nowhere
/// else.
pub proof fn lemma_write_byte_pulses(addr: u8, b: u8)
    requires
        addr <= 0x7F,
    ensures
        pulses(ops_of(write_script(addr, seq![b])), idle_lines()) == sent_pulses(write_address(addr))
            + sent_pulses(b),
        pulses(ops_of(write_script(addr, seq![b])), idle_lines()).len() == 18,
        pulses(ops_of(write_script(addr, seq![b])), idle_lines())[0].sda == bit_of(
            write_address(addr),
            7,
        ),
        forall|i: int|
            0 <= i < 18 ==> #[trigger] pulses(ops_of(write_script(addr, seq![b])), idle_lines())[i].ticks
                == 1,
        forall|i: int|
            0 <= i < 18 ==> (#[trigger] pulses(ops_of(write_script(addr, seq![b])), idle_lines())[i].reads
                == 1) == (i == 8 || i == 17),
{
    let body = send_slots(write_address(addr)) + send_slots(b);
    reveal_with_fuel(send_frames, 2);
    assert(seq![b].drop_first() =~= Seq::<u8>::empty());
    assert(send_frames(seq![b]) =~= send_slots(b));
    assert(write_script(addr, seq![b]) =~= (seq![Slot::Start] + body).push(Slot::Stop));
    assert(forall|i: int| 0 <= i < body.len() ==> inner(#[trigger] body[i]));
    lemma_framed_wire(body);
    lemma_run_concat(send_slots(write_address(addr)), send_slots(b), false);
    lemma_send_run(write_address(addr), false);
    lemma_send_run(b, false);
}

/// The wire view of a transaction made of START, slots within bytes, and
/// STOP: its pulses are those of the slots in between.
proof fn lemma_framed_wire(body: Seq<Slot>)
    requires
        forall|i: int| 0 <= i < body.len() ==> inner(#[trigger] body[i]),
    ensures
        pulses(ops_of((seq![Slot::Start] + body).push(Slot::Stop)), idle_lines()) == run_pulses(
            body,
            false,
        ),
{
    reveal_with_fuel(ops_of, 2);
    let script = (seq![Slot::Start] + body).push(Slot::Stop);
    assert(script =~= seq![Slot::Start] + body + seq![Slot::Stop]);
    lemma_ops_of_concat(seq![Slot::Start] + body, seq![Slot::Stop]);
    lemma_ops_of_concat(seq![Slot::Start], body);
    assert(seq![Slot::Start].drop_first() =~= Seq::<Slot>::empty());
    assert(seq![Slot::Stop].drop_first() =~= Seq::<Slot>::empty());
    assert(ops_of(seq![Slot::Start]) =~= slot_ops(Slot::Start));
    assert(ops_of(seq![Slot::Stop]) =~= slot_ops(Slot::Stop));
    lemma_run_wire(body, false);
    lemma_start_stop_wire(settled(run_exit(body, false)));
    lemma_wire_concat(slot_ops(Slot::Start), ops_of(body), idle_lines());
    lemma_wire_concat(slot_ops(Slot::Start) + ops_of(body), slot_ops(Slot::Stop), idle_lines());
    assert(pulses(ops_of(script), idle_lines()) =~= run_pulses(body, false));
}

/// In a read of `n >= 1` bytes, the master leaves SDA high in the
/// acknowledge window of the last byte and pulls it low in that of every
/// byte before: the window of byte `i` is pulse `9 * i + 17`, after the nine
/// pulses of the address byte.
pub proof fn lemma_read_nacks_last(addr: u8, n: nat)
    requires
        addr <= 0x7F,
        n >= 1,
    ensures
        pulses(ops_of(read_script(addr, n)), idle_lines()).len() == 9 * n + 9,
        forall|i: int|
            0 <= i < n ==> #[trigger] pulses(ops_of(read_script(addr, n)), idle_lines())[9 * i
                + 17].sda == (i == n - 1),
{
    let body = send_slots(read_address(addr)) + recv_frames(n);
    lemma_recv_frames_len(n);
    assert forall|i: int| 0 <= i < body.len() implies inner(#[trigger] body[i]) by {
        if i >= 9 {
            lemma_recv_frames_index(n, (i - 9) / 10, (i - 9) % 10);
            assert(body[i] == recv_frames(n)[10 * ((i - 9) / 10) + (i - 9) % 10]);
        }
    }
    assert(read_script(addr, n) =~= (seq![Slot::Start] + body).push(Slot::Stop));
    lemma_framed_wire(body);
    lemma_run_concat(send_slots(read_address(addr)), recv_frames(n), false);
    lemma_send_run(read_address(addr), false);
    lemma_recv_frames_run(n, false);
    let p = pulses(ops_of(read_script(addr, n)), idle_lines());
    let q = run_pulses(recv_frames(n), false);
    assert forall|i: int| 0 <= i < n implies #[trigger] p[9 * i + 17].sda == (i == n - 1) by {
        assert(p[9 * i + 17] == q[9 * i + 8]);
    }
}

/// Every transaction that runs to its end leaves both lines released high.
pub proof fn lemma_ends_released(addr: u8, out: Seq<u8>, n: nat)
    ensures
        lines_after(ops_of(write_script(addr, out)), idle_lines()).scl,
        lines_after(ops_of(write_script(addr, out)), idle_lines()).sda,
        lines_after(ops_of(read_script(addr, n)), idle_lines()).scl,
        lines_after(ops_of(read_script(addr, n)), idle_lines()).sda,
        lines_after(ops_of(write_read_script(addr, out, n)), idle_lines()).scl,
        lines_after(ops_of(write_read_script(addr, out, n)), idle_lines()).sda,
{
    lemma_ends_with_stop(write_phase(addr, out));
    lemma_ends_with_stop(read_phase(addr, n));
    lemma_ends_with_stop(write_phase(addr, out) + read_phase(addr, n));
}

proof fn lemma_ends_with_stop(ss: Seq<Slot>)
    ensures
        lines_after(ops_of(ss.push(Slot::Stop)), idle_lines()).scl,
        lines_after(ops_of(ss.push(Slot::Stop)), idle_lines()).sda,
        lines_after(ops_of(Seq::<Slot>::empty()), idle_lines()) == idle_lines(),
{
    reveal_with_fuel(ops_of, 2);
    assert(ss.push(Slot::Stop) =~= ss + seq![Slot::Stop]);
    lemma_ops_of_concat(ss, seq![Slot::Stop]);
    assert(seq![Slot::Stop].drop_first() =~= Seq::<Slot>::empty());
    assert(ops_of(seq![Slot::Stop]) =~= slot_ops(Slot::Stop));
    lemma_wire_concat(ops_of(ss), slot_ops(Slot::Stop), idle_lines());
    lemma_start_stop_wire(lines_after(ops_of(ss), idle_lines()));
}

/// A write or a read of nothing, and a write-then-read with either part
/// empty, have no line operation at all.
pub proof fn lemma_empty_is_silent(addr: u8, out: Seq<u8>, n: nat)
    ensures
        out.len() == 0 ==> ops_of(write_script(addr, out)).len() == 0,
        n == 0 ==> ops_of(read_script(addr, n)).len() == 0,
        out.len() == 0 || n == 0 ==> ops_of(write_read_script(addr, out, n)).len() == 0,
{
}

/// Each complete group of eight samples is stored, as the byte it makes
/// (first sample most significant), at its place in `buf`.
pub open spec fn filled(samples: Seq<bool>, buf: Seq<u8>) -> bool {
    forall|i: int|
        0 <= i < samples.len() / 8 ==> #[trigger] buf[i] == received(
            samples.subrange(8 * i, 8 * i + 8),
        )
}

impl I2cEngine {
    /// Whether a transaction is under way.
    pub closed spec fn is_active(&self) -> bool {
        self.active
    }

    /// The number of bytes the transaction sends.
    pub closed spec fn out_len(&self) -> nat {
        self.n_out as nat
    }

    /// The number of bytes the transaction receives.
    pub closed spec fn in_len(&self) -> nat {
        self.n_in as nat
    }

    /// The operation handed out last, whose reply is due.
    pub closed spec fn awaited(&self) -> Option<I2cOp> {
        self.awaiting
    }

    /// How the transaction ends unless a line operation fails.
    pub closed spec fn verdict(&self) -> Verdict {
        self.verdict
    }

    /// The data bits sampled so far in the transaction, in order.
    pub closed spec fn samples(&self) -> Seq<bool> {
        self.samples@
    }

    /// The script of the transaction, given the bytes it sends.
    pub closed spec fn script(&self, out: Seq<u8>) -> Seq<Slot> {
        match self.kind {
            Kind::Write => write_script(self.addr, out),
            Kind::Read => read_script(self.addr, self.n_in as nat),
            Kind::WriteRead => write_read_script(self.addr, out, self.n_in as nat),
        }
    }

    spec fn address(&self) -> u8 {
        if self.reading {
            read_address(self.addr)
        } else {
            write_address(self.addr)
        }
    }

    /// The index in the script of the slot under way.
    spec fn pos(&self) -> int {
        let base = if self.reading && self.kind == Kind::WriteRead {
            10 + 9 * self.n_out
        } else {
            0
        };
        base + match self.stage {
            Stage::Opening => 0,
            Stage::Addressing => 1 + self.slot,
            Stage::Sending => 10 + 9 * self.byte + self.slot,
            Stage::Receiving => 10 + 10 * self.byte + self.slot,
            Stage::Closing => if self.reading {
                10 + 10 * self.n_in
            } else {
                10 + 9 * self.n_out
            },
            Stage::Finishing => 0,
        }
    }

    /// The slot under way.
    spec fn current(&self, out: Seq<u8>) -> Slot {
        match self.stage {
            Stage::Opening => Slot::Start,
            Stage::Addressing => send_slots(self.address())[self.slot as int],
            Stage::Sending => send_slots(out[self.byte as int])[self.slot as int],
            Stage::Receiving => recv_slots(self.byte + 1 < self.n_in)[self.slot as int],
            _ => Slot::Stop,
        }
    }

    /// The number of operations of the slot under way.
    spec fn current_len(&self) -> int {
        match self.stage {
            Stage::Opening => 7,
            Stage::Addressing | Stage::Sending => if self.slot < 8 {
                6
            } else {
                7
            },
            Stage::Receiving => if self.slot == 0 {
                1
            } else if self.slot < 9 {
                5
            } else {
                6
            },
            _ => 4,
        }
    }

    /// The line operations still to be handed out, given the bytes sent.
    pub closed spec fn pending(&self, out: Seq<u8>) -> Seq<I2cOp> {
        if !self.active || self.stage == Stage::Finishing {
            seq![]
        } else if self.verdict == Verdict::Nacked {
            slot_ops(Slot::AckIn).skip(self.op as int)
        } else {
            ops_of(self.script(out).skip(self.pos())).skip(self.op as int)
        }
    }

    /// Whether a reply reading `high` ends the transaction with a missing
    /// acknowledge.
    pub open spec fn nacks(&self, high: bool) -> bool {
        self.awaited() == Some(I2cOp::ReadAck) && high && self.verdict() == Verdict::Completed
    }

    /// The operations still to be handed out once a reply reading `high` is
    /// taken in: after a missing acknowledge, only the rest of its window.
    pub open spec fn pending_on(&self, out: Seq<u8>, high: bool) -> Seq<I2cOp> {
        if self.nacks(high) {
            slot_ops(Slot::AckIn).skip(4)
        } else {
            self.pending(out)
        }
    }

    /// The verdict once a reply reading `high` is taken in.
    pub open spec fn verdict_on(&self, high: bool) -> Verdict {
        if self.nacks(high) {
            Verdict::Nacked
        } else {
            self.verdict()
        }
    }

    /// The number of data bits sampled and taken in at this position.
    spec fn bits_in(&self) -> int {
        match self.stage {
            Stage::Receiving => 8 * self.byte + if self.slot == 0 {
                0
            } else if self.slot <= 8 {
                self.slot - 1 + (if self.op >= 3 {
                    1int
                } else {
                    0
                }) - (if self.awaiting == Some(I2cOp::ReadBit) {
                    1int
                } else {
                    0
                })
            } else {
                8
            },
            Stage::Closing => if self.reading {
                8 * self.n_in
            } else {
                0
            },
            _ => 0,
        }
    }

    /// The engine's invariant.
    pub closed spec fn wf(&self) -> bool {
        self.active ==> {
            &&& self.verdict == Verdict::Rejected ==> self.stage == Stage::Finishing
            &&& self.stage != Stage::Finishing ==> match self.kind {
                Kind::Write => !self.reading && self.n_in == 0 && self.n_out > 0,
                Kind::Read => self.reading && self.n_out == 0 && self.n_in > 0,
                Kind::WriteRead => self.n_out > 0 && self.n_in > 0,
            }
            &&& match self.stage {
                Stage::Addressing => self.slot < 9,
                Stage::Sending => !self.reading && self.byte < self.n_out && self.slot < 9,
                Stage::Receiving => self.reading && self.byte < self.n_in && self.slot < 10,
                Stage::Closing => self.reading == (self.kind != Kind::Write),
                _ => true,
            }
            &&& self.stage != Stage::Finishing ==> if self.verdict == Verdict::Nacked {
                &&& self.stage == Stage::Addressing || self.stage == Stage::Sending
                &&& self.slot == 8
                &&& 4 <= self.op <= 7
            } else {
                self.op < self.current_len()
            }
            &&& self.awaiting == Some(I2cOp::ReadBit) ==> {
                &&& self.stage == Stage::Receiving
                &&& 1 <= self.slot <= 8
                &&& self.op == 3
            }
            &&& self.awaiting == Some(I2cOp::ReadAck) ==> {
                &&& self.stage == Stage::Addressing || self.stage == Stage::Sending
                &&& self.slot == 8
                &&& self.op == 4
            }
            &&& self.tally()
        }
    }

    /// The samples taken in so far match the position, and the byte being
    /// received holds those of its bits that are in.
    #[verifier::opaque]
    spec fn tally(&self) -> bool {
        &&& self.stage != Stage::Finishing ==> self.samples@.len() == self.bits_in()
        &&& (self.stage == Stage::Receiving && self.samples@.len() > 8 * self.byte) ==> self.acc
            == received(self.samples@.subrange(8 * self.byte, self.samples@.len() as int))
    }

    /// Handing out an operation within the slot under way keeps the tally.
    proof fn lemma_tally_within(a: Self, b: Self, out: Seq<u8>, x: I2cOp)
        requires
            a.wf(),
            a.active,
            a.stage != Stage::Finishing,
            a.awaiting == None::<I2cOp>,
            out.len() == a.n_out,
            a.op < slot_ops(a.current(out)).len(),
            x == slot_ops(a.current(out))[a.op as int],
            b.stage == a.stage,
            b.byte == a.byte,
            b.slot == a.slot,
            b.reading == a.reading,
            b.n_in == a.n_in,
            b.samples == a.samples,
            b.acc == a.acc,
            b.op == a.op + 1,
            b.awaiting == Some(x),
        ensures
            b.tally(),
    {
        reveal(I2cEngine::tally);
        if a.stage == Stage::Receiving && 1 <= a.slot <= 8 {
            assert(a.current(out) == Slot::BitIn);
        }
    }

    /// Moving on to the next slot after its last operation keeps the tally.
    proof fn lemma_tally_advance(a: Self, b: Self, out: Seq<u8>, x: I2cOp)
        requires
            a.wf(),
            a.active,
            a.stage != Stage::Finishing,
            a.awaiting == None::<I2cOp>,
            a.verdict == Verdict::Completed,
            out.len() == a.n_out,
            a.op + 1 == a.current_len(),
            x == slot_ops(a.current(out))[a.op as int],
            b.samples == a.samples,
            b.acc == a.acc,
            b.n_in == a.n_in,
            b.op == 0,
            b.awaiting == Some(x),
            a.stage == Stage::Closing ==> b.stage == Stage::Finishing,
            a.stage == Stage::Receiving && a.slot < 9 ==> b.stage == Stage::Receiving && b.byte
                == a.byte && b.slot == a.slot + 1,
            a.stage == Stage::Receiving && a.slot == 9 && a.byte + 1 < a.n_in ==> b.stage
                == Stage::Receiving && b.byte == a.byte + 1 && b.slot == 0,
            a.stage == Stage::Receiving && a.slot == 9 && a.byte + 1 >= a.n_in ==> b.stage
                == Stage::Closing,
            a.stage != Stage::Receiving && b.stage == Stage::Receiving ==> b.byte == 0 && b.slot
                == 0,
            a.stage != Stage::Receiving && b.stage == Stage::Closing ==> !b.reading,
            b.stage == Stage::Closing && a.stage == Stage::Receiving ==> b.reading,
        ensures
            b.tally(),
    {
        reveal(I2cEngine::tally);
        a.lemma_current_len(out);
    }


    proof fn lemma_current_len(&self, out: Seq<u8>)
        requires
            self.wf(),
            self.active,
            self.stage != Stage::Finishing,
            out.len() == self.n_out,
        ensures
            slot_ops(self.current(out)).len() == self.current_len(),
    {
    }

    /// The slot under way is the script's slot at `pos`.
    proof fn lemma_current(&self, out: Seq<u8>)
        requires
            self.wf(),
            self.active,
            self.stage != Stage::Finishing,
            out.len() == self.n_out,
        ensures
            0 <= self.pos() < self.script(out).len(),
            self.script(out)[self.pos()] == self.current(out),
            self.pos() + 1 == self.script(out).len() <==> self.stage == Stage::Closing,
    {
        lemma_send_frames_len(out);
        lemma_recv_frames_len(self.n_in as nat);
        if self.stage == Stage::Sending {
            lemma_send_frames_index(out, self.byte as int, self.slot as int);
        }
        if self.stage == Stage::Receiving {
            lemma_recv_frames_index(self.n_in as nat, self.byte as int, self.slot as int);
        }
    }

    /// An engine with no transaction under way.
    pub fn new() -> (r: Self)
        ensures
            r.wf(),
            !r.is_active(),
    {
        I2cEngine {
            active: false,
            kind: Kind::Write,
            addr: 0,
            n_out: 0,
            n_in: 0,
            reading: false,
            stage: Stage::Finishing,
            byte: 0,
            slot: 0,
            op: 0,
            awaiting: None,
            verdict: Verdict::Completed,
            acc: 0,
            samples: Ghost(Seq::empty()),
        }
    }

    /// Whether a transaction is under way.
    pub fn active(&self) -> (r: bool)
        ensures
            r == self.is_active(),
    {
        self.active
    }

    /// Begins a write of `output` to the 7-bit address `addr`. An empty
    /// `output` makes a transaction with no line operation at all.
    pub fn begin_write(&mut self, addr: u8, output: &[u8])
        requires
            addr <= 0x7F,
        ensures
            final(self).wf(),
            final(self).is_active(),
            final(self).out_len() == output@.len(),
            final(self).in_len() == 0,
            final(self).pending(output@) == ops_of(write_script(addr, output@)),
            final(self).awaited() == None::<I2cOp>,
            final(self).samples() == Seq::<bool>::empty(),
            final(self).verdict() == Verdict::Completed,
    {
        *self = I2cEngine {
            active: true,
            kind: Kind::Write,
            addr,
            n_out: output.len(),
            n_in: 0,
            reading: false,
            stage: if output.len() == 0 {
                Stage::Finishing
            } else {
                Stage::Opening
            },
            byte: 0,
            slot: 0,
            op: 0,
            awaiting: None,
            verdict: Verdict::Completed,
            acc: 0,
            samples: Ghost(Seq::empty()),
        };
        proof {
            reveal(I2cEngine::tally);
        }
        assert(self.script(output@).skip(0) =~= self.script(output@));
        assert(ops_of(self.script(output@)).skip(0) =~= ops_of(self.script(output@)));
    }

    /// Begins a read of `len` bytes from the 7-bit address `addr`. A `len` of
    /// zero makes a transaction with no line operation at all.
    pub fn begin_read(&mut self, addr: u8, len: usize)
        requires
            addr <= 0x7F,
        ensures
            final(self).wf(),
            final(self).is_active(),
            final(self).out_len() == 0,
            final(self).in_len() == len,
            forall|out: Seq<u8>|
                #![trigger final(self).pending(out)]
                out.len() == 0 ==> final(self).pending(out) == ops_of(read_script(addr, len as nat)),
            final(self).awaited() == None::<I2cOp>,
            final(self).samples() == Seq::<bool>::empty(),
            final(self).verdict() == Verdict::Completed,
    {
        *self = I2cEngine {
            active: true,
            kind: Kind::Read,
            addr,
            n_out: 0,
            n_in: len,
            reading: true,
            stage: if len == 0 {
                Stage::Finishing
            } else {
                Stage::Opening
            },
            byte: 0,
            slot: 0,
            op: 0,
            awaiting: None,
            verdict: Verdict::Completed,
            acc: 0,
            samples: Ghost(Seq::empty()),
        };
        proof {
            reveal(I2cEngine::tally);
        }
        assert forall|out: Seq<u8>| out.len() == 0 implies #[trigger] self.pending(out) == ops_of(
            read_script(addr, len as nat),
        ) by {
            assert(self.script(out).skip(0) =~= self.script(out));
            assert(ops_of(self.script(out)).skip(0) =~= ops_of(self.script(out)));
        }
    }

    /// Begins a write of `output` to the 7-bit address `addr` followed, after
    /// a repeated START, by a read of `len` bytes. When either is empty the
    /// transaction has no line operation and ends in `InvalidData`.
    pub fn begin_write_read(&mut self, addr: u8, output: &[u8], len: usize)
        requires
            addr <= 0x7F,
        ensures
            final(self).wf(),
            final(self).is_active(),
            final(self).out_len() == output@.len(),
            final(self).in_len() == len,
            final(self).pending(output@) == ops_of(write_read_script(addr, output@, len as nat)),
            final(self).awaited() == None::<I2cOp>,
            final(self).samples() == Seq::<bool>::empty(),
            final(self).verdict() == if output@.len() == 0 || len == 0 {
                Verdict::Rejected
            } else {
                Verdict::Completed
            },
    {
        let empty = output.len() == 0 || len == 0;
        *self = I2cEngine {
            active: true,
            kind: Kind::WriteRead,
            addr,
            n_out: output.len(),
            n_in: len,
            reading: false,
            stage: if empty {
                Stage::Finishing
            } else {
                Stage::Opening
            },
            byte: 0,
            slot: 0,
            op: 0,
            awaiting: None,
            verdict: if empty {
                Verdict::Rejected
            } else {
                Verdict::Completed
            },
            acc: 0,
            samples: Ghost(Seq::empty()),
        };
        proof {
            reveal(I2cEngine::tally);
        }
        assert(self.script(output@).skip(0) =~= self.script(output@));
        assert(ops_of(self.script(output@)).skip(0) =~= ops_of(self.script(output@)));
    }

    /// The slot under way.
    fn current_slot(&self, output: &[u8]) -> (r: Slot)
        requires
            self.wf(),
            self.active,
            self.stage != Stage::Finishing,
            output@.len() == self.n_out,
        ensures
            r == self.current(output@),
    {
        match self.stage {
            Stage::Opening => Slot::Start,
            Stage::Addressing | Stage::Sending => {
                let b: u8 = if self.stage == Stage::Sending {
                    output[self.byte]
                } else if self.reading {
                    (self.addr << 1) | 1
                } else {
                    self.addr << 1
                };
                if self.slot < 8 {
                    Slot::BitOut(test_bit(b, (7 - self.slot) as u8))
                } else {
                    Slot::AckIn
                }
            },
            Stage::Receiving => {
                if self.slot == 0 {
                    Slot::Release
                } else if self.slot < 9 {
                    Slot::BitIn
                } else {
                    Slot::AckOut(self.byte + 1 < self.n_in)
                }
            },
            _ => Slot::Stop,
        }
    }

    /// Moves on to the next slot of the script.
    fn advance(&mut self, Ghost(out): Ghost<Seq<u8>>)
        requires
            old(self).wf(),
            old(self).active,
            old(self).stage != Stage::Finishing,
            old(self).verdict == Verdict::Completed,
            old(self).op + 1 == old(self).current_len(),
            out.len() == old(self).n_out,
        ensures
            final(self).active,
            final(self).kind == old(self).kind,
            final(self).addr == old(self).addr,
            final(self).n_out == old(self).n_out,
            final(self).n_in == old(self).n_in,
            final(self).verdict == old(self).verdict,
            final(self).awaiting == old(self).awaiting,
            final(self).acc == old(self).acc,
            final(self).samples == old(self).samples,
            final(self).op == 0,
            old(self).stage == Stage::Closing ==> final(self).stage == Stage::Finishing,
            old(self).stage == Stage::Receiving && old(self).slot < 9 ==> final(self).stage
                == Stage::Receiving && final(self).byte == old(self).byte && final(self).slot
                == old(self).slot + 1,
            old(self).stage == Stage::Receiving && old(self).slot == 9 && old(self).byte + 1
                < old(self).n_in ==> final(self).stage == Stage::Receiving && final(self).byte
                == old(self).byte + 1 && final(self).slot == 0,
            old(self).stage == Stage::Receiving && old(self).slot == 9 && old(self).byte + 1
                >= old(self).n_in ==> final(self).stage == Stage::Closing,
            old(self).stage != Stage::Receiving && final(self).stage == Stage::Receiving
                ==> final(self).byte == 0 && final(self).slot == 0,
            old(self).stage != Stage::Receiving && final(self).stage == Stage::Closing
                ==> !final(self).reading,
            old(self).stage != Stage::Closing ==> {
                &&& final(self).stage != Stage::Finishing
                &&& final(self).pos() == old(self).pos() + 1
            },
            final(self).stage == Stage::Addressing || final(self).stage == Stage::Sending
                ==> final(self).slot < 9,
            final(self).stage == Stage::Sending ==> !final(self).reading && final(self).byte
                < final(self).n_out,
            final(self).stage == Stage::Receiving ==> final(self).reading && final(self).byte
                < final(self).n_in && final(self).slot < 10,
            final(self).stage == Stage::Closing ==> final(self).reading == (final(self).kind
                != Kind::Write),
            final(self).reading == old(self).reading || (old(self).kind == Kind::WriteRead
                && final(self).stage == Stage::Opening),
    {
        self.op = 0;
        match self.stage {
            Stage::Opening => {
                self.stage = Stage::Addressing;
                self.slot = 0;
            },
            Stage::Addressing => {
                if self.slot < 8 {
                    self.slot = self.slot + 1;
                } else {
                    self.stage = if self.reading {
                        Stage::Receiving
                    } else {
                        Stage::Sending
                    };
                    self.byte = 0;
                    self.slot = 0;
                }
            },
            Stage::Sending => {
                if self.slot < 8 {
                    self.slot = self.slot + 1;
                } else if self.byte + 1 < self.n_out {
                    self.byte = self.byte + 1;
                    self.slot = 0;
                } else if self.kind == Kind::WriteRead {
                    self.reading = true;
                    self.stage = Stage::Opening;
                } else {
                    self.stage = Stage::Closing;
                }
            },
            Stage::Receiving => {
                if self.slot < 9 {
                    self.slot = self.slot + 1;
                } else if self.byte + 1 < self.n_in {
                    self.byte = self.byte + 1;
                    self.slot = 0;
                } else {
                    self.stage = Stage::Closing;
                }
            },
            _ => {
                self.stage = Stage::Finishing;
            },
        }
    }

    /// Takes in a reply that reads `high`: a missing acknowledge, or a data bit.
    fn take_in(&mut self, input: &mut [u8], high: bool)
        requires
            old(self).wf(),
            old(self).active,
            old(input)@.len() == old(self).n_in,
            filled(old(self).samples@, old(input)@),
        ensures
            final(self).wf(),
            final(self).active,
            final(self).kind == old(self).kind,
            final(self).addr == old(self).addr,
            final(self).n_out == old(self).n_out,
            final(self).n_in == old(self).n_in,
            final(self).reading == old(self).reading,
            final(self).stage == old(self).stage,
            final(self).byte == old(self).byte,
            final(self).slot == old(self).slot,
            final(self).op == old(self).op,
            final(self).awaiting == None::<I2cOp>,
            final(self).verdict == old(self).verdict_on(high),
            final(self).samples@ == if old(self).awaiting == Some(I2cOp::ReadBit) {
                old(self).samples@.push(high)
            } else {
                old(self).samples@
            },
            filled(final(self).samples@, final(input)@),
            final(input)@ == if old(self).awaiting == Some(I2cOp::ReadBit)
                && final(self).samples@.len() % 8 == 0 {
                old(input)@.update(
                    final(self).samples@.len() / 8 - 1,
                    received(
                        final(self).samples@.subrange(
                            final(self).samples@.len() - 8,
                            final(self).samples@.len() as int,
                        ),
                    ),
                )
            } else {
                old(input)@
            },
    {
        let ghost s0 = self.samples@;
        proof {
            reveal(I2cEngine::tally);
        }
        match self.awaiting {
            Some(I2cOp::ReadAck) => {
                if high && self.verdict == Verdict::Completed {
                    self.verdict = Verdict::Nacked;
                }
            },
            Some(I2cOp::ReadBit) => {
                let ghost start = 8 * self.byte;
                let ghost s1 = s0.push(high);
                proof {
                    reveal_with_fuel(received, 2);
                    if self.slot == 1 {
                        assert(s1.subrange(start, s1.len() as int) =~= seq![high]);
                        assert(seq![high].drop_last() =~= Seq::<bool>::empty());
                    } else {
                        assert(s1.subrange(start, s1.len() as int).drop_last() =~= s0.subrange(
                            start,
                            s0.len() as int,
                        ));
                    }
                }
                let base: u8 = if self.slot == 1 {
                    0
                } else {
                    self.acc
                };
                self.acc = push_bit(base, high);
                self.samples = Ghost(s1);
                if self.slot == 8 {
                    input[self.byte] = self.acc;
                }
                proof {
                    assert forall|i: int| 0 <= i < s1.len() / 8 implies #[trigger] input@[i]
                        == received(s1.subrange(8 * i, 8 * i + 8)) by {
                        if i < self.byte {
                            assert(s1.subrange(8 * i, 8 * i + 8) =~= s0.subrange(8 * i, 8 * i + 8));
                        }
                    }
                }
            },
            _ => {},
        }
        self.awaiting = None;
    }

    /// Hands out the next pending operation.
    #[verifier::rlimit(100)]
    fn emit(&mut self, output: &[u8]) -> (op: I2cOp)
        requires
            old(self).wf(),
            old(self).active,
            old(self).stage != Stage::Finishing,
            !(old(self).verdict == Verdict::Nacked && old(self).op == 7),
            old(self).awaiting == None::<I2cOp>,
            output@.len() == old(self).n_out,
        ensures
            final(self).wf(),
            final(self).active,
            final(self).kind == old(self).kind,
            final(self).n_out == old(self).n_out,
            final(self).n_in == old(self).n_in,
            final(self).verdict == old(self).verdict,
            final(self).acc == old(self).acc,
            final(self).samples == old(self).samples,
            old(self).pending(output@).len() > 0,
            op == old(self).pending(output@)[0],
            final(self).pending(output@) == old(self).pending(output@).drop_first(),
            final(self).awaiting == Some(op),
    {
        let slot = self.current_slot(output);
        proof {
            self.lemma_current_len(output@);
            if self.verdict != Verdict::Nacked {
                self.lemma_current(output@);
                lemma_ops_of_skip(self.script(output@), self.pos());
            }
        }
        let ghost p = self.pending(output@);
        let ghost before = *self;
        let op = slot_op(slot, self.op);
        assert(p[0] == op);
        if self.verdict == Verdict::Nacked || self.op + 1 < slot_len(slot) {
            self.op = self.op + 1;
            self.awaiting = Some(op);
            proof {
                I2cEngine::lemma_tally_within(before, *self, output@, op);
            }
            assert(self.pending(output@) =~= p.drop_first());
        } else {
            self.advance(Ghost(output@));
            self.awaiting = Some(op);
            proof {
                I2cEngine::lemma_tally_advance(before, *self, output@, op);
                if self.stage != Stage::Finishing {
                    self.lemma_current(output@);
                } else {
                    lemma_ops_of_end(self.script(output@));
                }
            }
            assert(self.pending(output@) =~= p.drop_first());
        }
        op
    }

    /// Takes in `reply`, what came of the operation handed out last (any
    /// reply will do before the first one; a sample is answered with the
    /// level read, or a fault), and says what to do next.
    ///
    /// A failed pin or timer operation ends the transaction at once. A slave
    /// that leaves SDA high in its acknowledge window ends it with `NoAck`
    /// once the window is closed. A sampled data bit is shifted into the byte
    /// being received, which is stored in `input` when its eighth bit is in.
    /// Otherwise the next pending operation is handed out, and the transaction
    /// finishes when none is left.
    pub fn step<E>(&mut self, output: &[u8], input: &mut [u8], reply: Reply<E>) -> (r: I2cAction<E>)
        requires
            old(self).wf(),
            old(self).is_active(),
            output@.len() == old(self).out_len(),
            old(input)@.len() == old(self).in_len(),
            filled(old(self).samples(), old(input)@),
            old(self).awaited() == Some(I2cOp::ReadAck) || old(self).awaited() == Some(
                I2cOp::ReadBit,
            ) ==> reply matches Reply::Level(_) || reply matches Reply::Fault(_),
        ensures
            final(self).wf(),
            final(self).out_len() == old(self).out_len(),
            final(self).in_len() == old(self).in_len(),
            filled(final(self).samples(), final(input)@),
            match reply {
                Reply::Fault(e) => {
                    &&& r == I2cAction::<E>::Finish(Err(Error::Bus(e)))
                    &&& !final(self).is_active()
                    &&& final(input)@ == old(input)@
                },
                Reply::TimerFault => {
                    &&& r == I2cAction::<E>::Finish(Err(Error::Timer))
                    &&& !final(self).is_active()
                    &&& final(input)@ == old(input)@
                },
                _ => {
                    let high = reads_high(reply);
                    let p = old(self).pending_on(output@, high);
                    let s = final(self).samples();
                    &&& p.len() == 0 ==> {
                        &&& r == I2cAction::<E>::Finish(verdict_result(old(self).verdict_on(high)))
                        &&& !final(self).is_active()
                    }
                    &&& p.len() > 0 ==> {
                        &&& r == I2cAction::<E>::Op(p[0])
                        &&& final(self).is_active()
                        &&& final(self).pending(output@) == p.drop_first()
                        &&& final(self).awaited() == Some(p[0])
                        &&& final(self).verdict() == old(self).verdict_on(high)
                    }
                    &&& s == if old(self).awaited() == Some(I2cOp::ReadBit) {
                        old(self).samples().push(high)
                    } else {
                        old(self).samples()
                    }
                    &&& final(input)@ == if old(self).awaited() == Some(I2cOp::ReadBit) && s.len()
                        % 8 == 0 {
                        old(input)@.update(
                            s.len() / 8 - 1,
                            received(s.subrange(s.len() - 8, s.len() as int)),
                        )
                    } else {
                        old(input)@
                    }
                },
            },
    {
        match reply {
            Reply::Fault(e) => {
                self.active = false;
                return I2cAction::Finish(Err(Error::Bus(e)));
            },
            Reply::TimerFault => {
                self.active = false;
                return I2cAction::Finish(Err(Error::Timer));
            },
            _ => {},
        }
        let high = is_high(&reply);
        self.take_in(input, high);
        if self.stage == Stage::Finishing || (self.verdict == Verdict::Nacked && self.op == 7) {
            self.active = false;
            return I2cAction::Finish(verdict_to_result(self.verdict));
        }
        let op = self.emit(output);
        I2cAction::Op(op)
    }
}

} // verus!
