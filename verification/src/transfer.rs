//! Transfers: what an endpoint does to the controller, one access at a time.
//!
//! A transfer is a list of operations on registers and packet memory. It performs none of them
//! itself: each call of [`Transfer::step`] says which access comes next, and takes what the
//! last one loaded.
use std::collections::VecDeque;

use crate::buffer::EndpointBuffer;
use crate::entry::{is_active, nbytes, Update};
use crate::kinds::UsbError;
use vstd::prelude::*;

verus! {

/// From whom a packet goes to whom, as the host sees it.
#[derive(Clone, Copy, Debug, PartialEq, Eq, Structural)]
pub enum Direction {
    Out,
    In,
}

/// The registers of the controller, and the words of its endpoint list.
#[derive(Clone, Copy, Debug, PartialEq, Eq, Structural)]
pub enum Register {
    /// Interrupt status: bit `2 * i` for packets from the host to endpoint `i`, bit `2 * i + 1`
    /// for packets to the host.
    IntStat,
    /// Device command and status.
    DevCmdStat,
    /// The list's word for packets from the host to endpoint zero.
    Ep0Out,
    /// The list's word for SETUP packets to endpoint zero.
    Setup,
    /// The list's word for packets from endpoint zero to the host.
    Ep0In,
    /// The list's word for the first buffer of another endpoint.
    Endpoint(u8, Direction),
}

/// One thing to do in a transfer.
#[derive(Clone, Copy, Debug, PartialEq, Eq, Structural)]
pub enum Op {
    /// Load the register and go on whatever it holds.
    Sample(Register),
    /// Load the register and store it with the update applied.
    Modify(Register, Update),
    /// Store a value in the register.
    Store(Register, u32),
    /// Load the register; none of these bits may be set.
    ExpectClear(Register, u32),
    /// Load the register; where one of these bits is set, write ones to them and expect them
    /// to be clear.
    ClearIfSet(Register, u32),
    /// Load the list's word; end the transfer where the controller still owns the buffer.
    ExpectIdle(Register),
    /// Take so many bytes out of the buffer.
    Receive(EndpointBuffer, usize),
    /// Load the list's word, and take out of the buffer what has been put there: its length
    /// less what the word leaves to transfer, but no more than the number given here.
    ReceiveRest(Register, EndpointBuffer, usize),
    /// Put so many bytes into the buffer.
    Transmit(EndpointBuffer, usize),
    /// End the transfer with an error.
    Fail(UsbError),
    /// Stop: the controller or the endpoint is not in a state in which the transfer makes sense.
    Halt,
}

/// What the caller of [`Transfer::step`] is to do.
#[derive(Clone, Copy, Debug, PartialEq, Eq, Structural)]
pub enum Action {
    /// Load the register and hand its value to the next step.
    Load(Register),
    /// Store the value in the register.
    Store(Register, u32),
    /// Load so many bytes from the start of the buffer and [`deliver`] them.
    Receive(EndpointBuffer, usize),
    /// Copy the caller's slice, of so many bytes, to the start of the buffer.
    Transmit(EndpointBuffer, usize),
    /// The transfer is done and has moved so many bytes.
    Done(usize),
    /// The transfer has ended with an error.
    Failed(UsbError),
    /// The transfer cannot go on: panic.
    Fault,
}

impl Action {
    /// Whether nothing comes after the action.
    pub open spec fn is_last(self) -> bool {
        self is Done || self is Failed || self is Fault
    }

    /// Whether the action loads or stores `register`.
    pub open spec fn accesses(self, register: Register) -> bool {
        self == Action::Load(register) || self is Store && self->Store_0 == register
    }
}

impl Op {
    /// The register that the operation begins by loading.
    pub open spec fn loads(self) -> Option<Register> {
        match self {
            Op::Sample(register) => Some(register),
            Op::Modify(register, _) => Some(register),
            Op::ExpectClear(register, _) => Some(register),
            Op::ClearIfSet(register, _) => Some(register),
            Op::ExpectIdle(register) => Some(register),
            Op::ReceiveRest(register, _, _) => Some(register),
            _ => None,
        }
    }

    /// What is left to do of the operation once its register was `loaded`.
    pub open spec fn answer(self, loaded: u32) -> Seq<Op> {
        match self {
            Op::Modify(register, update) => seq![Op::Store(register, update.apply(loaded))],
            Op::ExpectClear(_, bits) if loaded & bits != 0 => seq![Op::Halt],
            Op::ClearIfSet(register, bits) if loaded & bits != 0 => seq![
                Op::Modify(register, Update::set(bits)),
                Op::ExpectClear(register, bits),
            ],
            Op::ExpectIdle(_) if crate::entry::entry(loaded).active => seq![
                Op::Fail(UsbError::WouldBlock),
            ],
            Op::ReceiveRest(_, buffer, limit) => seq![
                {
                    let left = buffer.len - crate::entry::entry(loaded).nbytes;
                    if left < 0 {
                        Op::Halt
                    } else {
                        Op::Receive(buffer, (if left < limit { left } else { limit as int }) as usize)
                    }
                },
            ],
            _ => seq![],
        }
    }
}

/// Where a transfer stands.
pub ghost struct Progress {
    /// The operation that waits for the value of its register.
    pub waiting: Option<Op>,
    /// The operations that come after.
    pub ops: Seq<Op>,
    /// How many bytes were moved.
    pub moved: usize,
}

impl Progress {
    /// The start of a transfer that does `ops`.
    pub open spec fn start(ops: Seq<Op>) -> Progress {
        Progress { waiting: None, ops, moved: 0 }
    }

    /// The operations to do next, where the last action loaded `loaded`.
    pub open spec fn resumed(self, loaded: u32) -> Seq<Op> {
        match self.waiting {
            Some(op) => op.answer(loaded) + self.ops,
            None => self.ops,
        }
    }

    /// One step: the action that comes next, and where the transfer stands then.
    pub open spec fn advance(self, loaded: u32) -> (Progress, Action) {
        let ops = self.resumed(loaded);
        let stay = Progress { waiting: None, ops, moved: self.moved };
        if ops.len() == 0 {
            (stay, Action::Done(self.moved))
        } else {
            let next = Progress { ops: ops.drop_first(), ..stay };
            match ops[0] {
                Op::Store(register, value) => (next, Action::Store(register, value)),
                Op::Receive(buffer, count) => (
                    Progress { moved: count, ..next },
                    Action::Receive(buffer, count),
                ),
                Op::Transmit(buffer, count) => (
                    Progress { moved: count, ..next },
                    Action::Transmit(buffer, count),
                ),
                Op::Fail(error) => (stay, Action::Failed(error)),
                Op::Halt => (stay, Action::Fault),
                op => (
                    Progress { waiting: Some(op), ..next },
                    Action::Load(op.loads().unwrap()),
                ),
            }
        }
    }
}

/// All that a transfer does: the actions of the operations `ops`, where the registers that it
/// loads have the values `inputs`, in this order, and `moved` bytes were moved before.
///
/// Where there are fewer inputs than loads, these are the actions up to the first load that
/// has no value.
pub open spec fn trace(ops: Seq<Op>, moved: usize, inputs: Seq<u32>) -> Seq<Action>
    decreases inputs.len(), ops.len(),
{
    if ops.len() == 0 {
        seq![Action::Done(moved)]
    } else {
        let rest = ops.drop_first();
        match ops[0] {
            Op::Store(register, value) => seq![Action::Store(register, value)] + trace(
                rest,
                moved,
                inputs,
            ),
            Op::Receive(buffer, count) => seq![Action::Receive(buffer, count)] + trace(
                rest,
                count,
                inputs,
            ),
            Op::Transmit(buffer, count) => seq![Action::Transmit(buffer, count)] + trace(
                rest,
                count,
                inputs,
            ),
            Op::Fail(error) => seq![Action::Failed(error)],
            Op::Halt => seq![Action::Fault],
            op => seq![Action::Load(op.loads().unwrap())] + if inputs.len() == 0 {
                seq![]
            } else {
                trace(op.answer(inputs[0]) + rest, moved, inputs.drop_first())
            },
        }
    }
}

/// A transfer under way.
#[derive(Debug)]
pub struct Transfer {
    waiting: Option<Op>,
    ops: VecDeque<Op>,
    moved: usize,
}

impl View for Transfer {
    type V = Progress;

    closed spec fn view(&self) -> Progress {
        Progress { waiting: self.waiting, ops: self.ops@, moved: self.moved }
    }
}

impl Transfer {
    /// The transfer that does `ops`.
    pub fn new(ops: VecDeque<Op>) -> (transfer: Transfer)
        ensures
            transfer@ == Progress::start(ops@),
    {
        Transfer { waiting: None, ops, moved: 0 }
    }

    /// Puts what is left of `op` in front of the other operations.
    fn resume(&mut self, op: Op, loaded: u32)
        requires
            old(self)@.waiting is None,
        ensures
            final(self)@ == (Progress { ops: op.answer(loaded) + old(self)@.ops, ..old(self)@ }),
    {
        match op {
            Op::Modify(register, update) => {
                self.ops.push_front(Op::Store(register, update.apply(loaded)));
            },
            Op::ExpectClear(_, bits) => {
                if loaded & bits != 0 {
                    self.ops.push_front(Op::Halt);
                }
            },
            Op::ClearIfSet(register, bits) => {
                if loaded & bits != 0 {
                    self.ops.push_front(Op::ExpectClear(register, bits));
                    self.ops.push_front(Op::Modify(register, Update::set(bits)));
                }
            },
            Op::ExpectIdle(_) => {
                if is_active(loaded) {
                    self.ops.push_front(Op::Fail(UsbError::WouldBlock));
                }
            },
            Op::ReceiveRest(_, buffer, limit) => {
                let pending: usize = nbytes(loaded);
                if buffer.len < pending {
                    self.ops.push_front(Op::Halt);
                } else {
                    let left: usize = buffer.len - pending;
                    let count: usize = if left < limit { left } else { limit };
                    self.ops.push_front(Op::Receive(buffer, count));
                }
            },
            _ => {},
        }
        proof {
            assert(self.ops@ =~= op.answer(loaded) + old(self)@.ops);
        }
    }

    /// The next action. `loaded` is the value that the last action loaded, if it was a load.
    ///
    /// Once the transfer has ended, every step gives the same action again.
    pub fn step(&mut self, loaded: u32) -> (action: Action)
        ensures
            (final(self)@, action) == old(self)@.advance(loaded),
    {
        match self.waiting {
            Some(op) => {
                self.waiting = None;
                self.resume(op, loaded);
            },
            None => {},
        }
        assert(self.ops@ == old(self)@.resumed(loaded));
        match self.ops.pop_front() {
            None => Action::Done(self.moved),
            Some(op) => {
                assert(self.ops@ == old(self)@.resumed(loaded).drop_first());
                match op {
                    Op::Store(register, value) => Action::Store(register, value),
                    Op::Receive(buffer, count) => {
                        self.moved = count;
                        Action::Receive(buffer, count)
                    },
                    Op::Transmit(buffer, count) => {
                        self.moved = count;
                        Action::Transmit(buffer, count)
                    },
                    Op::Fail(error) => {
                        self.ops.push_front(op);
                        assert(self.ops@ =~= old(self)@.resumed(loaded));
                        Action::Failed(error)
                    },
                    Op::Halt => {
                        self.ops.push_front(op);
                        assert(self.ops@ =~= old(self)@.resumed(loaded));
                        Action::Fault
                    },
                    Op::Sample(register)
                    | Op::Modify(register, _)
                    | Op::ExpectClear(register, _)
                    | Op::ClearIfSet(register, _)
                    | Op::ExpectIdle(register)
                    | Op::ReceiveRest(register, _, _) => {
                        self.waiting = Some(op);
                        Action::Load(register)
                    },
                }
            },
        }
    }
}

/// Puts a packet at the start of the slice that is to receive it.
pub fn deliver(packet: &[u8], buf: &mut [u8])
    requires
        packet@.len() <= old(buf)@.len(),
    ensures
        final(buf)@ == packet@ + old(buf)@.skip(packet@.len() as int),
{
    let count: usize = packet.len();
    let mut i: usize = 0;
    while i < count
        invariant
            i <= count == packet@.len() <= buf@.len(),
            buf@ == packet@.take(i as int) + old(buf)@.skip(i as int),
            buf@.len() == old(buf)@.len(),
        decreases count - i,
    {
        buf[i] = packet[i];
        assert(buf@ =~= packet@.take(i + 1) + old(buf)@.skip(i + 1));
        i = i + 1;
    }
    assert(packet@.take(i as int) =~= packet@);
}

} // verus!
