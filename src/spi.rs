//! SPI master over three lines, SCLK, MOSI and MISO, clocked by a periodic
//! tick at twice the clock rate, in any of the four clock modes.
//!
//! Slave select is left to the caller.
use vstd::prelude::*;
use crate::bits::{bit_of, received, test_bit, push_bit, lemma_msb_first};
use crate::line::{Reply, reads_high, is_high};

verus! {

/// Error type
#[derive(Debug)]
pub enum Error<E> {
    /// Communication error
    Bus(E),
    /// Attempted read without input data
    NoData,
}

/// Transmission bit order
#[derive(Debug, Clone, Copy, PartialEq, Eq, Structural)]
pub enum BitOrder {
    /// Most significant bit first
    MSBFirst,
    /// Least significant bit first
    LSBFirst,
}

impl Default for BitOrder {
    /// Default bit order: MSB first
    fn default() -> (r: Self)
        ensures
            r == BitOrder::MSBFirst,
    {
        BitOrder::MSBFirst
    }
}

/// The level of SCLK at rest.
#[derive(Debug, Clone, Copy, PartialEq, Eq, Structural)]
pub enum Polarity {
    IdleLow,
    IdleHigh,
}

/// The clock transition on which MISO is sampled.
#[derive(Debug, Clone, Copy, PartialEq, Eq, Structural)]
pub enum Phase {
    CaptureOnFirstTransition,
    CaptureOnSecondTransition,
}

/// A clock mode: polarity and phase.
#[derive(Debug, Clone, Copy, PartialEq, Eq, Structural)]
pub struct Mode {
    pub polarity: Polarity,
    pub phase: Phase,
}

/// One operation on the bus lines.
#[derive(Debug, Clone, Copy, PartialEq, Eq, Structural)]
pub enum SpiOp {
    /// Drive MOSI high (`true`) or low.
    Mosi(bool),
    /// Drive SCLK high (`true`) or low.
    Sclk(bool),
    /// Wait for the next tick.
    Wait,
    /// Sample MISO.
    Sample,
}

/// An instruction to the caller.
#[derive(Debug)]
pub enum SpiAction<E> {
    /// Perform this operation and reply.
    Op(SpiOp),
    /// The byte is sent, with this result.
    Finish(Result<(), Error<E>>),
}

/// The SCLK level at rest in `mode`.
pub open spec fn idle_level(mode: Mode) -> bool {
    mode.polarity == Polarity::IdleHigh
}

/// The clocking of one bit in `mode`: the leading edge, the trailing edge
/// back to rest, a tick after each, and MISO sampled on the edge that the
/// phase names.
pub open spec fn clock_ops(mode: Mode) -> Seq<SpiOp> {
    let idle = idle_level(mode);
    match mode.phase {
        Phase::CaptureOnFirstTransition => seq![SpiOp::Wait, SpiOp::Sclk(!idle), SpiOp::Sample,
            SpiOp::Wait, SpiOp::Sclk(idle)],
        Phase::CaptureOnSecondTransition => seq![SpiOp::Sclk(!idle), SpiOp::Wait, SpiOp::Sample,
            SpiOp::Sclk(idle), SpiOp::Wait],
    }
}

/// One bit slot: MOSI set to `v`, then the clocking.
pub open spec fn bit_ops(mode: Mode, v: bool) -> Seq<SpiOp> {
    seq![SpiOp::Mosi(v)] + clock_ops(mode)
}

/// The bit of `b` sent in slot `k`.
pub open spec fn out_bit(order: BitOrder, b: u8, k: int) -> bool {
    match order {
        BitOrder::MSBFirst => bit_of(b, (7 - k) as u8),
        BitOrder::LSBFirst => bit_of(b, k as u8),
    }
}

/// The operations that send `b`: eight bit slots of six operations.
pub open spec fn send_ops(mode: Mode, order: BitOrder, b: u8) -> Seq<SpiOp> {
    Seq::new(48, |p: int| bit_ops(mode, out_bit(order, b, p / 6))[p % 6])
}

/// The SCLK level after `ops`, from `level`.
pub open spec fn sclk_after(ops: Seq<SpiOp>, level: bool) -> bool
    decreases ops.len(),
{
    if ops.len() == 0 {
        level
    } else {
        match ops.last() {
            SpiOp::Sclk(v) => v,
            _ => sclk_after(ops.drop_last(), level),
        }
    }
}

/// The SPI master engine: its configuration, the byte last received, and
/// the position reached in the byte being sent.
pub struct SpiEngine {
    mode: Mode,
    bit_order: BitOrder,
    read_val: Option<u8>,
    sending: bool,
    byte: u8,
    /// The bit slot under way; eight once all are handed out.
    bit: usize,
    /// The operation within the bit slot.
    op: usize,
    awaiting: Option<SpiOp>,
    /// The bits sampled so far, shifted in.
    acc: u8,
    samples: Ghost<Seq<bool>>,
}

/// The operation at index `i` of the bit slot for `v`.
fn bit_op(mode: Mode, v: bool, i: usize) -> (r: SpiOp)
    requires
        i < 6,
    ensures
        r == bit_ops(mode, v)[i as int],
        (r == SpiOp::Sample) == (i == 3),
{
    let idle = mode.polarity == Polarity::IdleHigh;
    let first = mode.phase == Phase::CaptureOnFirstTransition;
    match i {
        0 => SpiOp::Mosi(v),
        1 => if first {
            SpiOp::Wait
        } else {
            SpiOp::Sclk(!idle)
        },
        2 => if first {
            SpiOp::Sclk(!idle)
        } else {
            SpiOp::Wait
        },
        3 => SpiOp::Sample,
        4 => if first {
            SpiOp::Wait
        } else {
            SpiOp::Sclk(idle)
        },
        _ => if first {
            SpiOp::Sclk(idle)
        } else {
            SpiOp::Wait
        },
    }
}

proof fn lemma_slot_index(k: int, m: int)
    requires
        0 <= k,
        0 <= m < 6,
    ensures
        (6 * k + m) / 6 == k,
        (6 * k + m) % 6 == m,
{
}

/// In slot `k` of a send, MOSI is set to the bit sent first, and MISO is
/// sampled at the fourth operation, after the leading clock edge.
proof fn lemma_send_slot(mode: Mode, order: BitOrder, b: u8, k: int)
    requires
        0 <= k < 8,
    ensures
        send_ops(mode, order, b)[6 * k] == SpiOp::Mosi(out_bit(order, b, k)),
        send_ops(mode, order, b)[6 * k + 3] == SpiOp::Sample,
{
    lemma_slot_index(k, 0);
    lemma_slot_index(k, 3);
}

/// With MOSI looped back to MISO, each sample reads the level that MOSI was
/// set to at the start of its slot. Sent most significant bit first, the
/// eight samples so taken make the byte sent, whatever the clock mode.
pub proof fn lemma_loopback(mode: Mode, b: u8)
    ensures
        forall|k: int|
            0 <= k < 8 ==> #[trigger] send_ops(mode, BitOrder::MSBFirst, b)[6 * k] == SpiOp::Mosi(
                out_bit(BitOrder::MSBFirst, b, k),
            ) && send_ops(mode, BitOrder::MSBFirst, b)[6 * k + 3] == SpiOp::Sample,
        received(Seq::new(8, |k: int| out_bit(BitOrder::MSBFirst, b, k))) == b,
{
    assert forall|k: int| 0 <= k < 8 implies #[trigger] send_ops(mode, BitOrder::MSBFirst, b)[6
        * k] == SpiOp::Mosi(out_bit(BitOrder::MSBFirst, b, k)) && send_ops(
        mode,
        BitOrder::MSBFirst,
        b,
    )[6 * k + 3] == SpiOp::Sample by {
        lemma_send_slot(mode, BitOrder::MSBFirst, b, k);
    }
    lemma_msb_first(b);
    assert(Seq::new(8, |k: int| out_bit(BitOrder::MSBFirst, b, k)) =~= Seq::new(
        8,
        |k: int| bit_of(b, (7 - k) as u8),
    ));
}

/// A send leaves SCLK at rest, wherever it started.
pub proof fn lemma_send_ends_idle(mode: Mode, order: BitOrder, b: u8, level: bool)
    ensures
        sclk_after(send_ops(mode, order, b), level) == idle_level(mode),
{
    let ops = send_ops(mode, order, b);
    reveal_with_fuel(sclk_after, 3);
    lemma_slot_index(7, 4);
    lemma_slot_index(7, 5);
    assert(ops.drop_last().last() == ops[46]);
}

impl SpiEngine {
    pub closed spec fn mode(&self) -> Mode {
        self.mode
    }

    pub closed spec fn bit_order(&self) -> BitOrder {
        self.bit_order
    }

    /// The byte latched by the last completed send, if any.
    pub closed spec fn last_received(&self) -> Option<u8> {
        self.read_val
    }

    /// Whether a send is under way.
    pub closed spec fn is_sending(&self) -> bool {
        self.sending
    }

    /// The operation handed out last, whose reply is due.
    pub closed spec fn awaited(&self) -> Option<SpiOp> {
        self.awaiting
    }

    /// The MISO samples taken so far in the send under way.
    pub closed spec fn samples(&self) -> Seq<bool> {
        self.samples@
    }

    /// The line operations still to be handed out.
    pub closed spec fn pending(&self) -> Seq<SpiOp> {
        if !self.sending {
            seq![]
        } else {
            send_ops(self.mode, self.bit_order, self.byte).skip(6 * self.bit + self.op)
        }
    }

    /// The engine's invariant.
    pub closed spec fn wf(&self) -> bool {
        self.sending ==> {
            &&& self.bit < 8 ==> self.op < 6
            &&& self.bit == 8 ==> self.op == 0
            &&& self.bit <= 8
            &&& self.acc == received(self.samples@)
            &&& self.samples@.len() == self.bit + (if self.op >= 4 {
                1int
            } else {
                0
            }) - (if self.awaiting == Some(SpiOp::Sample) {
                1int
            } else {
                0
            })
            &&& self.awaiting == Some(SpiOp::Sample) ==> self.op == 4 && self.bit < 8
        }
    }

    /// Create instance: MSB first, nothing received yet.
    pub fn new(mode: Mode) -> (r: Self)
        ensures
            r.wf(),
            r.mode() == mode,
            r.bit_order() == BitOrder::MSBFirst,
            r.last_received() == None::<u8>,
            !r.is_sending(),
    {
        SpiEngine {
            mode,
            bit_order: BitOrder::default(),
            read_val: None,
            sending: false,
            byte: 0,
            bit: 0,
            op: 0,
            awaiting: None,
            acc: 0,
            samples: Ghost(Seq::empty()),
        }
    }

    /// The level at which SCLK rests: set it so when the engine is made.
    pub fn idle_clock(&self) -> (r: bool)
        ensures
            r == idle_level(self.mode()),
    {
        self.mode.polarity == Polarity::IdleHigh
    }

    /// Set transmission bit order
    pub fn set_bit_order(&mut self, order: BitOrder)
        requires
            old(self).wf(),
            !old(self).is_sending(),
        ensures
            final(self).wf(),
            final(self).bit_order() == order,
            final(self).mode() == old(self).mode(),
            final(self).last_received() == old(self).last_received(),
            !final(self).is_sending(),
    {
        self.bit_order = order;
    }

    /// The byte latched by the last completed send; `NoData` before the first.
    pub fn read<E>(&self) -> (r: Result<u8, Error<E>>)
        ensures
            match self.last_received() {
                Some(v) => r matches Ok(x) && x == v,
                None => r matches Err(Error::NoData),
            },
    {
        match self.read_val {
            Some(v) => Ok(v),
            None => Err(Error::NoData),
        }
    }

    /// Begins sending `byte`, and shifting in the byte received meanwhile.
    pub fn begin_send(&mut self, byte: u8)
        requires
            old(self).wf(),
        ensures
            final(self).wf(),
            final(self).is_sending(),
            final(self).mode() == old(self).mode(),
            final(self).bit_order() == old(self).bit_order(),
            final(self).last_received() == old(self).last_received(),
            final(self).pending() == send_ops(old(self).mode(), old(self).bit_order(), byte),
            final(self).samples() == Seq::<bool>::empty(),
            final(self).awaited() == None::<SpiOp>,
    {
        self.sending = true;
        self.byte = byte;
        self.bit = 0;
        self.op = 0;
        self.awaiting = None;
        self.acc = 0;
        self.samples = Ghost(Seq::empty());
        assert(self.pending() =~= send_ops(self.mode, self.bit_order, byte));
    }

    /// Takes in `reply`, what came of the operation handed out last (any
    /// reply will do before the first one; a sample is answered with the
    /// level read, or a fault), and says what to do next.
    ///
    /// A failed pin operation ends the send at once, leaving the byte last
    /// received as it was; a failed tick is let pass. A MISO sample is
    /// shifted in. When no operation is left, the eight samples make the
    /// byte received.
    pub fn step<E>(&mut self, reply: Reply<E>) -> (r: SpiAction<E>)
        requires
            old(self).wf(),
            old(self).is_sending(),
            old(self).awaited() == Some(SpiOp::Sample) ==> reply matches Reply::Level(_)
                || reply matches Reply::Fault(_),
        ensures
            final(self).wf(),
            final(self).mode() == old(self).mode(),
            final(self).bit_order() == old(self).bit_order(),
            match reply {
                Reply::Fault(e) => {
                    &&& r matches SpiAction::Finish(Err(Error::Bus(x))) && x == e
                    &&& !final(self).is_sending()
                    &&& final(self).last_received() == old(self).last_received()
                },
                _ => {
                    let s = if old(self).awaited() == Some(SpiOp::Sample) {
                        old(self).samples().push(reads_high(reply))
                    } else {
                        old(self).samples()
                    };
                    let p = old(self).pending();
                    &&& p.len() == 0 ==> {
                        &&& r matches SpiAction::Finish(Ok(()))
                        &&& !final(self).is_sending()
                        &&& s.len() == 8
                        &&& final(self).last_received() == Some(received(s))
                    }
                    &&& p.len() > 0 ==> {
                        &&& r matches SpiAction::Op(op) && op == p[0]
                        &&& final(self).is_sending()
                        &&& final(self).pending() == p.drop_first()
                        &&& final(self).awaited() == Some(p[0])
                        &&& final(self).samples() == s
                        &&& final(self).last_received() == old(self).last_received()
                    }
                },
            },
    {
        if let Reply::Fault(e) = reply {
            self.sending = false;
            return SpiAction::Finish(Err(Error::Bus(e)));
        }
        let high = is_high(&reply);
        if self.awaiting == Some(SpiOp::Sample) {
            self.acc = push_bit(self.acc, high);
            proof {
                assert(self.samples@.push(high).drop_last() =~= self.samples@);
            }
            self.samples = Ghost(self.samples@.push(high));
        }
        if self.bit == 8 {
            self.sending = false;
            self.read_val = Some(self.acc);
            return SpiAction::Finish(Ok(()));
        }
        let ghost p = self.pending();
        let v = match self.bit_order {
            BitOrder::MSBFirst => test_bit(self.byte, (7 - self.bit) as u8),
            BitOrder::LSBFirst => test_bit(self.byte, self.bit as u8),
        };
        let op = bit_op(self.mode, v, self.op);
        proof {
            lemma_slot_index(self.bit as int, self.op as int);
        }
        assert(p[0] == op);
        self.awaiting = Some(op);
        if self.op < 5 {
            self.op = self.op + 1;
        } else {
            self.op = 0;
            self.bit = self.bit + 1;
        }
        assert(self.pending() =~= p.drop_first());
        SpiAction::Op(op)
    }
}

} // verus!
