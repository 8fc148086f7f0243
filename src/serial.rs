//! Asynchronous serial (8-N-1) over a TX line and an RX line, one tick of
//! the periodic timer per bit.
use vstd::prelude::*;
use crate::bits::{bit_of, received_lsb_first, test_bit, push_bit_top, lemma_lsb_first};
use crate::line::{Reply, reads_high, is_high};

verus! {

/// Serial communication error type
#[derive(Debug)]
pub enum Error<E> {
    /// Bus error
    Bus(E),
}

/// One operation on the lines.
#[derive(Debug, Clone, Copy, PartialEq, Eq, Structural)]
pub enum SerialOp {
    /// Drive TX high (`true`) or low.
    Tx(bool),
    /// Wait for the next tick.
    Wait,
    /// Sample RX.
    Sample,
}

/// An instruction to the caller.
#[derive(Debug)]
pub enum SerialAction<E> {
    /// Perform this operation and reply.
    Op(SerialOp),
    /// The frame is sent.
    Sent,
    /// A frame came in holding this byte.
    Received(u8),
    /// A pin operation failed.
    Failed(Error<E>),
}

/// The ten bit times of a frame: a low start bit, the data bits least
/// significant first, a high stop bit.
pub open spec fn frame_levels(b: u8) -> Seq<bool> {
    seq![false] + Seq::new(8, |k: int| bit_of(b, k as u8)) + seq![true]
}

/// The operations that send `b`: each bit time driven on TX, then held for a
/// tick.
pub open spec fn write_ops(b: u8) -> Seq<SerialOp> {
    Seq::new(
        20,
        |p: int|
            if p % 2 == 0 {
                SerialOp::Tx(frame_levels(b)[p / 2])
            } else {
                SerialOp::Wait
            },
    )
}

/// The operations that follow a start edge on RX: a tick into the first data
/// bit, eight samples a tick apart, and a tick for the stop bit.
pub open spec fn read_ops() -> Seq<SerialOp> {
    Seq::new(
        18,
        |p: int|
            if 1 <= p <= 15 && p % 2 == 1 {
                SerialOp::Sample
            } else {
                SerialOp::Wait
            },
    )
}

#[derive(Clone, Copy, PartialEq, Eq, Structural)]
enum Task {
    Idle,
    Writing,
    Hunting,
    Reading,
}

/// The serial engine: the frame under way, if any.
pub struct SerialEngine {
    task: Task,
    byte: u8,
    /// The index of the next operation of the frame.
    pos: usize,
    awaiting: Option<SerialOp>,
    acc: u8,
    samples: Ghost<Seq<bool>>,
}

impl SerialEngine {
    /// Whether a frame is being sent or awaited.
    pub closed spec fn is_busy(&self) -> bool {
        self.task != Task::Idle
    }

    /// Whether a frame is being sent.
    pub closed spec fn is_writing(&self) -> bool {
        self.task == Task::Writing
    }

    /// Whether RX is being polled for a start edge.
    pub closed spec fn is_hunting(&self) -> bool {
        self.task == Task::Hunting
    }

    /// The operation handed out last, whose reply is due.
    pub closed spec fn awaited(&self) -> Option<SerialOp> {
        self.awaiting
    }

    /// The RX samples taken so far of the frame coming in.
    pub closed spec fn samples(&self) -> Seq<bool> {
        self.samples@
    }

    /// The operations still to be handed out; while hunting, those that
    /// follow the start edge.
    pub closed spec fn pending(&self) -> Seq<SerialOp> {
        match self.task {
            Task::Writing => write_ops(self.byte).skip(self.pos as int),
            Task::Reading => read_ops().skip(self.pos as int),
            Task::Hunting => read_ops(),
            Task::Idle => seq![],
        }
    }

    /// The engine's invariant.
    pub closed spec fn wf(&self) -> bool {
        &&& self.task == Task::Writing ==> self.pos <= 20
        &&& self.task == Task::Reading ==> {
            &&& self.pos <= 18
            &&& self.acc == received_lsb_first(self.samples@)
            &&& self.samples@.len() == (if self.pos >= 16 {
                8
            } else {
                (self.pos as int) / 2
            }) - (if self.awaiting == Some(SerialOp::Sample) {
                1int
            } else {
                0
            })
            &&& self.awaiting == Some(SerialOp::Sample) ==> self.pos % 2 == 0 && 2 <= self.pos
                <= 16
        }
        &&& self.task == Task::Hunting ==> self.samples@.len() == 0 && self.acc == 0
    }

    /// Create instance
    pub fn new() -> (r: Self)
        ensures
            r.wf(),
            !r.is_busy(),
    {
        SerialEngine { task: Task::Idle, byte: 0, pos: 0, awaiting: None, acc: 0, samples: Ghost(Seq::empty()) }
    }

    /// Begins sending `byte` in one frame.
    pub fn begin_write(&mut self, byte: u8)
        ensures
            final(self).wf(),
            final(self).is_busy(),
            final(self).is_writing(),
            !final(self).is_hunting(),
            final(self).pending() == write_ops(byte),
            final(self).awaited() == None::<SerialOp>,
    {
        *self = SerialEngine {
            task: Task::Writing,
            byte,
            pos: 0,
            awaiting: None,
            acc: 0,
            samples: Ghost(Seq::empty()),
        };
        assert(self.pending() =~= write_ops(byte));
    }

    /// Begins waiting for a frame: RX is polled until it reads low.
    pub fn begin_read(&mut self)
        ensures
            final(self).wf(),
            final(self).is_busy(),
            !final(self).is_writing(),
            final(self).is_hunting(),
            final(self).samples() == Seq::<bool>::empty(),
            final(self).awaited() == None::<SerialOp>,
    {
        *self = SerialEngine {
            task: Task::Hunting,
            byte: 0,
            pos: 0,
            awaiting: None,
            acc: 0,
            samples: Ghost(Seq::empty()),
        };
    }

    /// Takes in `reply`, what came of the operation handed out last (any
    /// reply will do before the first one; a sample is answered with the
    /// level read, or a fault), and says what to do next.
    ///
    /// A failed pin operation ends the frame at once; a failed tick is let
    /// pass. While hunting, RX is sampled again until a sample reads low.
    /// Then the data bits are sampled and shifted in from the top, so that
    /// the first becomes the least significant bit. The stop bit is not
    /// checked.
    pub fn step<E>(&mut self, reply: Reply<E>) -> (r: SerialAction<E>)
        requires
            old(self).wf(),
            old(self).is_busy(),
            old(self).awaited() == Some(SerialOp::Sample) ==> reply matches Reply::Level(_)
                || reply matches Reply::Fault(_),
        ensures
            final(self).wf(),
            match reply {
                Reply::Fault(e) => {
                    &&& r matches SerialAction::Failed(Error::Bus(x)) && x == e
                    &&& !final(self).is_busy()
                },
                _ => if old(self).is_hunting() {
                    if old(self).awaited() == Some(SerialOp::Sample) && reply matches Reply::Level(
                        false,
                    ) {
                        &&& r matches SerialAction::Op(op) && op == read_ops()[0]
                        &&& final(self).is_busy()
                        &&& !final(self).is_writing()
                        &&& !final(self).is_hunting()
                        &&& final(self).pending() == read_ops().drop_first()
                        &&& final(self).samples() == Seq::<bool>::empty()
                        &&& final(self).awaited() == Some(read_ops()[0])
                    } else {
                        &&& r matches SerialAction::Op(op) && op == SerialOp::Sample
                        &&& final(self).is_busy()
                        &&& final(self).is_hunting()
                        &&& final(self).awaited() == Some(SerialOp::Sample)
                    }
                } else {
                    let s = if old(self).awaited() == Some(SerialOp::Sample) {
                        old(self).samples().push(reads_high(reply))
                    } else {
                        old(self).samples()
                    };
                    let p = old(self).pending();
                    &&& p.len() == 0 ==> {
                        &&& !final(self).is_busy()
                        &&& if old(self).is_writing() {
                            r matches SerialAction::Sent
                        } else {
                            &&& s.len() == 8
                            &&& r matches SerialAction::Received(v) && v == received_lsb_first(s)
                        }
                    }
                    &&& p.len() > 0 ==> {
                        &&& r matches SerialAction::Op(op) && op == p[0]
                        &&& final(self).is_busy()
                        &&& !final(self).is_hunting()
                        &&& final(self).is_writing() == old(self).is_writing()
                        &&& final(self).pending() == p.drop_first()
                        &&& final(self).awaited() == Some(p[0])
                        &&& final(self).samples() == s
                    }
                },
            },
    {
        if let Reply::Fault(e) = reply {
            self.task = Task::Idle;
            return SerialAction::Failed(Error::Bus(e));
        }
        let high = is_high(&reply);
        if self.task == Task::Hunting {
            if self.awaiting == Some(SerialOp::Sample) && matches!(reply, Reply::Level(false)) {
                self.task = Task::Reading;
                self.pos = 1;
                self.awaiting = Some(SerialOp::Wait);
                assert(self.pending() =~= read_ops().drop_first());
                return SerialAction::Op(SerialOp::Wait);
            }
            self.awaiting = Some(SerialOp::Sample);
            return SerialAction::Op(SerialOp::Sample);
        }
        if self.awaiting == Some(SerialOp::Sample) {
            proof {
                assert(self.samples@.push(high).drop_last() =~= self.samples@);
            }
            self.acc = push_bit_top(self.acc, high);
            self.samples = Ghost(self.samples@.push(high));
        }
        let ghost p = self.pending();
        if self.task == Task::Writing {
            if self.pos == 20 {
                self.task = Task::Idle;
                return SerialAction::Sent;
            }
            let op = if self.pos % 2 == 1 {
                SerialOp::Wait
            } else if self.pos == 0 {
                SerialOp::Tx(false)
            } else if self.pos == 18 {
                SerialOp::Tx(true)
            } else {
                SerialOp::Tx(test_bit(self.byte, ((self.pos - 2) / 2) as u8))
            };
            assert(op == p[0]);
            self.awaiting = Some(op);
            self.pos = self.pos + 1;
            assert(self.pending() =~= p.drop_first());
            SerialAction::Op(op)
        } else {
            if self.pos == 18 {
                self.task = Task::Idle;
                return SerialAction::Received(self.acc);
            }
            let op = if 1 <= self.pos && self.pos <= 15 && self.pos % 2 == 1 {
                SerialOp::Sample
            } else {
                SerialOp::Wait
            };
            assert(op == p[0]);
            self.awaiting = Some(op);
            self.pos = self.pos + 1;
            assert(self.pending() =~= p.drop_first());
            SerialAction::Op(op)
        }
    }
}

/// In a frame looped back from TX to RX, bit time `j` of the frame is
/// driven at operation `2 * j` of the write and held for a tick. After the
/// start edge, the receiver takes sample `k` once `k + 1` ticks have passed,
/// in the bit time of data bit `k`. So its eight samples read the data bits
/// least significant first, and shifted in from the top they give the byte
/// written, whatever it is.
pub proof fn lemma_loopback(b: u8)
    ensures
        forall|j: int|
            0 <= j < 10 ==> #[trigger] write_ops(b)[2 * j] == SerialOp::Tx(frame_levels(b)[j])
                && write_ops(b)[2 * j + 1] == SerialOp::Wait,
        forall|k: int|
            0 <= k < 8 ==> #[trigger] read_ops()[2 * k + 1] == SerialOp::Sample && read_ops()[2
                * k] == SerialOp::Wait,
        frame_levels(b).subrange(1, 9) == Seq::new(8, |k: int| bit_of(b, k as u8)),
        received_lsb_first(frame_levels(b).subrange(1, 9)) == b,
{
    assert forall|j: int| 0 <= j < 10 implies #[trigger] write_ops(b)[2 * j] == SerialOp::Tx(
        frame_levels(b)[j],
    ) && write_ops(b)[2 * j + 1] == SerialOp::Wait by {
        assert((2 * j) / 2 == j && (2 * j) % 2 == 0 && (2 * j + 1) % 2 == 1);
    }
    assert forall|k: int| 0 <= k < 8 implies #[trigger] read_ops()[2 * k + 1] == SerialOp::Sample
        && read_ops()[2 * k] == SerialOp::Wait by {
        assert((2 * k) % 2 == 0 && (2 * k + 1) % 2 == 1);
    }
    assert(frame_levels(b).subrange(1, 9) =~= Seq::new(8, |k: int| bit_of(b, k as u8)));
    lemma_lsb_first(b);
}

} // verus!
