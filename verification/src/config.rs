//! What an endpoint is set up with, and the transfers that follow from it.
use std::collections::VecDeque;

use crate::buffer::EndpointBuffer;
use crate::entry::{
    entry, lemma_active, lemma_addroff, lemma_enabled, lemma_nbytes, lemma_none, lemma_not_stalled,
    Entry, Update,
};
use crate::kinds::{EndpointType, UsbError};
use crate::transfer::{Direction, Op, Progress, Register, Transfer};
use vstd::prelude::*;

verus! {

/// The interrupt status bit for packets from the host to endpoint zero.
pub const EP0OUT: u32 = 0x1;

/// The interrupt status bit for packets from endpoint zero to the host.
pub const EP0IN: u32 = 0x2;

/// The bit of the device status that says that a SETUP packet has arrived.
pub const SETUP: u32 = 0x100;

/// The length of a SETUP packet.
pub const SETUP_LEN: usize = 8;

/// The settings of an endpoint.
#[derive(Clone, Copy, Debug, PartialEq, Eq)]
pub struct EndpointConfig {
    /// The endpoint's number.
    pub index: u8,
    /// Its transfer type, once it has one.
    pub ep_type: Option<EndpointType>,
    /// The buffer for packets from the host.
    pub out_buf: Option<EndpointBuffer>,
    /// The buffer for SETUP packets.
    pub setup_buf: Option<EndpointBuffer>,
    /// The buffer for packets to the host.
    pub in_buf: Option<EndpointBuffer>,
}

/// Whether there is no buffer or the controller can address it.
pub open spec fn addressable(buffer: Option<EndpointBuffer>) -> bool {
    buffer matches Some(b) ==> b.is_aligned()
}

/// Whether the interrupt status says that the host has sent a packet to endpoint `index`.
pub open spec fn out_pending(intstat: u32, index: u8) -> bool {
    (intstat >> (2 * index) as u32) & 1 != 0
}

/// What becomes of the optional buffer's word: nothing without a buffer, and a halt with one
/// that the controller cannot address.
pub open spec fn rearming(buffer: Option<EndpointBuffer>, op: Option<Op>) -> Seq<Op> {
    match buffer {
        Some(b) => seq![if b.is_aligned() { op.unwrap() } else { Op::Halt }],
        None => seq![],
    }
}

/// Whether `op` stores the list's word `register` with its fields changed by `edit`, whatever
/// they were.
pub open spec fn edits(op: Op, register: Register, edit: spec_fn(Entry) -> Entry) -> bool {
    &&& op is Modify
    &&& op->Modify_0 == register
    &&& forall|word: u32| entry(#[trigger] op->Modify_1.apply(word)) == edit(entry(word))
}

impl EndpointConfig {
    /// The list's word for packets from the host.
    #[verifier::allow_in_spec]
    pub fn out_register(&self) -> Register
        returns
            (if self.index == 0 {
                Register::Ep0Out
            } else {
                Register::Endpoint(self.index, Direction::Out)
            }),
    {
        if self.index == 0 {
            Register::Ep0Out
        } else {
            Register::Endpoint(self.index, Direction::Out)
        }
    }

    /// The list's word for packets to the host.
    #[verifier::allow_in_spec]
    pub fn in_register(&self) -> Register
        returns
            (if self.index == 0 {
                Register::Ep0In
            } else {
                Register::Endpoint(self.index, Direction::In)
            }),
    {
        if self.index == 0 {
            Register::Ep0In
        } else {
            Register::Endpoint(self.index, Direction::In)
        }
    }

    /// The operation that hands the OUT buffer to the controller, empty.
    pub open spec fn out_op(&self) -> Option<Op> {
        match self.out_buf {
            Some(b) => {
                let armed = Update::none().nbytes(b.len).addroff(b.spec_addroff()).active(true);
                Some(
                    Op::Modify(
                        self.out_register(),
                        if self.index == 0 {
                            armed.not_stalled()
                        } else {
                            armed.enabled().not_stalled()
                        },
                    ),
                )
            },
            None => None,
        }
    }

    /// What the list's word says of the OUT buffer once the controller has it.
    pub open spec fn out_edit(&self) -> spec_fn(Entry) -> Entry {
        |before: Entry|
            Entry {
                nbytes: self.out_buf.unwrap().len as nat % 0x400,
                addroff: (self.out_buf.unwrap().addr as nat / 64) % 0x1_0000,
                active: true,
                disabled: self.index == 0 && before.disabled,
                stalled: false,
                kept: before.kept,
            }
    }

    /// What the list's word says of the SETUP buffer once it is placed.
    pub open spec fn setup_edit(&self) -> spec_fn(Entry) -> Entry {
        |before: Entry|
            Entry {
                addroff: (self.setup_buf.unwrap().addr as nat / 64) % 0x1_0000,
                ..before
            }
    }

    /// What the list's word says of the IN buffer once it is empty.
    pub open spec fn in_edit(&self) -> spec_fn(Entry) -> Entry {
        |before: Entry|
            Entry {
                nbytes: 0,
                addroff: (self.in_buf.unwrap().addr as nat / 64) % 0x1_0000,
                active: self.index != 0 && before.active,
                disabled: false,
                stalled: false,
                kept: before.kept,
            }
    }

    /// The operation that tells the controller where SETUP packets go.
    pub open spec fn setup_op(&self) -> Option<Op> {
        match self.setup_buf {
            Some(b) => Some(
                Op::Modify(Register::Setup, Update::none().addroff(b.spec_addroff())),
            ),
            None => None,
        }
    }

    /// The operation that empties the IN buffer.
    pub open spec fn in_op(&self) -> Option<Op> {
        match self.in_buf {
            Some(b) => {
                let empty = Update::none().nbytes(0).addroff(b.spec_addroff());
                Some(
                    Op::Modify(
                        self.in_register(),
                        if self.index == 0 {
                            empty.active(false).enabled().not_stalled()
                        } else {
                            empty.enabled().not_stalled()
                        },
                    ),
                )
            },
            None => None,
        }
    }

    /// The operation that hands an IN buffer with a packet of `len` bytes to the controller.
    pub open spec fn send_op(&self, len: usize) -> Op {
        Op::Modify(self.in_register(), Update::none().nbytes(len).active(true))
    }

    /// The operations of [`EndpointConfig::configure`].
    pub open spec fn configure_ops(&self) -> Seq<Op> {
        if self.ep_type is None {
            seq![]
        } else {
            let setup = if self.index == 0 {
                rearming(self.setup_buf, self.setup_op())
            } else {
                seq![]
            };
            seq![
                Op::Modify(Register::IntStat, Update::set(EP0OUT)),
                Op::ExpectClear(Register::IntStat, EP0OUT),
                Op::Modify(Register::IntStat, Update::set(EP0IN)),
                Op::ExpectClear(Register::IntStat, EP0IN),
            ] + rearming(self.out_buf, self.out_op()) + setup + rearming(
                self.in_buf,
                self.in_op(),
            )
        }
    }

    /// The operations that write `len` bytes.
    pub open spec fn write_ops(&self, len: usize) -> Seq<Op> {
        let status = if self.index == 0 {
            seq![Op::Sample(Register::DevCmdStat)]
        } else {
            seq![Op::Sample(Register::DevCmdStat), Op::Sample(self.in_register())]
        };
        let acknowledge = if self.index == 0 && len == 0 {
            rearming(self.out_buf, self.out_op())
        } else {
            seq![]
        };
        status + rearming(self.in_buf, self.in_op()) + seq![
            Op::Transmit(self.in_buf.unwrap(), len),
            self.send_op(len),
        ] + acknowledge
    }

    /// The operations of [`EndpointConfig::write`] of `len` bytes, or its error.
    pub open spec fn write_plan(&self, len: usize) -> Result<Seq<Op>, UsbError> {
        match self.in_buf {
            None => Err(UsbError::WouldBlock),
            Some(b) => if len > b.capacity {
                Err(UsbError::BufferOverflow)
            } else {
                Ok(self.write_ops(len))
            },
        }
    }

    /// The operations that read a SETUP packet.
    pub open spec fn read_setup_ops(&self) -> Seq<Op> {
        let release = Update::none().active(false).not_stalled();
        seq![
            Op::Receive(self.setup_buf.unwrap(), SETUP_LEN),
            Op::ClearIfSet(Register::IntStat, EP0OUT),
            Op::Modify(Register::Ep0Out, release),
            Op::Modify(Register::Ep0In, release),
            Op::Modify(Register::IntStat, Update::set(EP0IN)),
            Op::ExpectClear(Register::IntStat, EP0IN),
            Op::Modify(Register::DevCmdStat, Update::set(SETUP)),
            Op::ExpectClear(Register::DevCmdStat, SETUP),
        ] + rearming(self.out_buf, self.out_op())
    }

    /// The operations that read a data packet of endpoint zero, up to `room` bytes of it.
    pub open spec fn read_control_ops(&self, room: usize) -> Seq<Op> {
        seq![Op::ReceiveRest(Register::Ep0Out, self.out_buf.unwrap(), room)] + rearming(
            self.out_buf,
            self.out_op(),
        ) + seq![Op::Modify(Register::IntStat, Update::set(EP0OUT))]
    }

    /// The operations that read a packet of another endpoint, up to `room` bytes of it.
    pub open spec fn read_data_ops(&self, room: usize) -> Seq<Op> {
        seq![
            Op::ExpectIdle(self.out_register()),
            Op::ReceiveRest(self.out_register(), self.out_buf.unwrap(), room),
            Op::Store(Register::IntStat, 1u32 << (2 * self.index) as u32),
        ] + rearming(self.out_buf, self.out_op())
    }

    /// The operations of [`EndpointConfig::read`], or its error.
    pub open spec fn read_plan(&self, room: usize, devcmdstat: u32, intstat: u32) -> Result<
        Seq<Op>,
        UsbError,
    > {
        if self.out_buf is None {
            Err(UsbError::WouldBlock)
        } else if self.index != 0 {
            if out_pending(intstat, self.index) {
                Ok(self.read_data_ops(room))
            } else {
                Err(UsbError::WouldBlock)
            }
        } else if devcmdstat & SETUP != 0 {
            if self.setup_buf is Some && room >= SETUP_LEN {
                Ok(self.read_setup_ops())
            } else {
                Err(UsbError::WouldBlock)
            }
        } else if intstat & EP0OUT != 0 {
            Ok(self.read_control_ops(room))
        } else {
            Err(UsbError::WouldBlock)
        }
    }
}

impl EndpointConfig {
    /// The operation on the OUT buffer edits the list's word as said.
    pub proof fn lemma_out_edit(&self, word: u32)
        requires
            self.out_buf is Some,
        ensures
            entry(self.out_op().unwrap()->Modify_1.apply(word)) == (self.out_edit())(entry(word)),
    {
        let b = self.out_buf.unwrap();
        let counted = Update::none().nbytes(b.len);
        let placed = counted.addroff(b.spec_addroff());
        let armed = placed.active(true);
        lemma_none(word);
        lemma_nbytes(Update::none(), b.len, word);
        lemma_addroff(counted, b.spec_addroff(), word);
        lemma_active(placed, true, word);
        lemma_enabled(armed, word);
        lemma_not_stalled(armed, word);
        lemma_not_stalled(armed.enabled(), word);
    }

    /// The operation on the SETUP buffer edits the list's word as said.
    pub proof fn lemma_setup_edit(&self, word: u32)
        requires
            self.setup_buf is Some,
        ensures
            entry(self.setup_op().unwrap()->Modify_1.apply(word)) == (self.setup_edit())(
                entry(word),
            ),
    {
        lemma_none(word);
        lemma_addroff(Update::none(), self.setup_buf.unwrap().spec_addroff(), word);
    }

    /// The operation on the IN buffer edits the list's word as said.
    pub proof fn lemma_in_edit(&self, word: u32)
        requires
            self.in_buf is Some,
        ensures
            entry(self.in_op().unwrap()->Modify_1.apply(word)) == (self.in_edit())(entry(word)),
    {
        let b = self.in_buf.unwrap();
        let counted = Update::none().nbytes(0);
        let placed = counted.addroff(b.spec_addroff());
        let released = if self.index == 0 {
            placed.active(false)
        } else {
            placed
        };
        lemma_none(word);
        lemma_nbytes(Update::none(), 0, word);
        lemma_addroff(counted, b.spec_addroff(), word);
        lemma_active(placed, false, word);
        lemma_enabled(released, word);
        lemma_not_stalled(released.enabled(), word);
    }

    /// Gives the OUT buffer back to the controller.
    ///
    /// The controller changes the byte count and the offset as it fills the buffer, so they are
    /// set anew. For endpoint zero the word has no disable bit and its place is left alone.
    pub fn reset_out_buf(&self) -> (op: Option<Op>)
        requires
            addressable(self.out_buf),
        ensures
            op == self.out_op(),
            op is Some == self.out_buf is Some,
            op is Some ==> edits(op.unwrap(), self.out_register(), self.out_edit()),
    {
        match self.out_buf {
            Some(b) => {
                let armed = Update::none().nbytes(b.len).addroff(b.addroff()).active(true);
                let update = if self.index == 0 {
                    armed.not_stalled()
                } else {
                    armed.enabled().not_stalled()
                };
                assert forall|word: u32|
                    entry(#[trigger] update.apply(word)) == (self.out_edit())(entry(word)) by {
                    self.lemma_out_edit(word);
                }
                Some(Op::Modify(self.out_register(), update))
            },
            None => None,
        }
    }

    /// Tells the controller where SETUP packets go.
    pub fn reset_setup_buf(&self) -> (op: Option<Op>)
        requires
            addressable(self.setup_buf),
        ensures
            op == self.setup_op(),
            op is Some == self.setup_buf is Some,
            op is Some ==> edits(op.unwrap(), Register::Setup, self.setup_edit()),
    {
        match self.setup_buf {
            Some(b) => {
                let update = Update::none().addroff(b.addroff());
                assert forall|word: u32|
                    entry(#[trigger] update.apply(word)) == (self.setup_edit())(entry(word)) by {
                    self.lemma_setup_edit(word);
                }
                Some(Op::Modify(Register::Setup, update))
            },
            None => None,
        }
    }

    /// Empties the IN buffer.
    ///
    /// For endpoint zero the controller gives the buffer up. For the others only the controller
    /// itself may do so.
    pub fn reset_in_buf(&self) -> (op: Option<Op>)
        requires
            addressable(self.in_buf),
        ensures
            op == self.in_op(),
            op is Some == self.in_buf is Some,
            op is Some ==> edits(op.unwrap(), self.in_register(), self.in_edit()),
    {
        match self.in_buf {
            Some(b) => {
                let empty = Update::none().nbytes(0).addroff(b.addroff());
                let update = if self.index == 0 {
                    empty.active(false).enabled().not_stalled()
                } else {
                    empty.enabled().not_stalled()
                };
                assert forall|word: u32|
                    entry(#[trigger] update.apply(word)) == (self.in_edit())(entry(word)) by {
                    self.lemma_in_edit(word);
                }
                Some(Op::Modify(self.in_register(), update))
            },
            None => None,
        }
    }

    /// Adds what gives the OUT buffer back to the controller.
    fn push_out(&self, ops: &mut VecDeque<Op>)
        ensures
            final(ops)@ == old(ops)@ + rearming(self.out_buf, self.out_op()),
    {
        if let Some(b) = self.out_buf {
            if !b.is_aligned() {
                ops.push_back(Op::Halt);
            } else if let Some(op) = self.reset_out_buf() {
                ops.push_back(op);
            }
        }
        assert(ops@ =~= old(ops)@ + rearming(self.out_buf, self.out_op()));
    }

    /// Adds what tells the controller where SETUP packets go.
    fn push_setup(&self, ops: &mut VecDeque<Op>)
        ensures
            final(ops)@ == old(ops)@ + rearming(self.setup_buf, self.setup_op()),
    {
        if let Some(b) = self.setup_buf {
            if !b.is_aligned() {
                ops.push_back(Op::Halt);
            } else if let Some(op) = self.reset_setup_buf() {
                ops.push_back(op);
            }
        }
        assert(ops@ =~= old(ops)@ + rearming(self.setup_buf, self.setup_op()));
    }

    /// Adds what empties the IN buffer.
    fn push_in(&self, ops: &mut VecDeque<Op>)
        ensures
            final(ops)@ == old(ops)@ + rearming(self.in_buf, self.in_op()),
    {
        if let Some(b) = self.in_buf {
            if !b.is_aligned() {
                ops.push_back(Op::Halt);
            } else if let Some(op) = self.reset_in_buf() {
                ops.push_back(op);
            }
        }
        assert(ops@ =~= old(ops)@ + rearming(self.in_buf, self.in_op()));
    }

    /// Makes the endpoint ready for its first packets, once it has a transfer type.
    ///
    /// Isochronous endpoints are not supported.
    pub fn configure(&self) -> (transfer: Transfer)
        requires
            self.ep_type != Some(EndpointType::Isochronous),
        ensures
            transfer@ == Progress::start(self.configure_ops()),
    {
        let mut ops: VecDeque<Op> = VecDeque::new();
        if self.ep_type.is_some() {
            ops.push_back(Op::Modify(Register::IntStat, Update::set(EP0OUT)));
            ops.push_back(Op::ExpectClear(Register::IntStat, EP0OUT));
            ops.push_back(Op::Modify(Register::IntStat, Update::set(EP0IN)));
            ops.push_back(Op::ExpectClear(Register::IntStat, EP0IN));
            self.push_out(&mut ops);
            if self.index == 0 {
                self.push_setup(&mut ops);
            }
            self.push_in(&mut ops);
        }
        assert(ops@ =~= self.configure_ops());
        Transfer::new(ops)
    }

    /// Sends `buf` to the host in one packet.
    ///
    /// An empty packet of endpoint zero is the answer to a control request without data; the
    /// OUT buffer then has to be ready for the next request.
    pub fn write(&self, buf: &[u8]) -> (transfer: Result<Transfer, UsbError>)
        ensures
            match self.write_plan(buf@.len() as usize) {
                Ok(ops) => transfer is Ok && transfer->Ok_0@ == Progress::start(ops),
                Err(error) => transfer == Err::<Transfer, _>(error),
            },
    {
        match self.in_buf {
            None => Err(UsbError::WouldBlock),
            Some(b) => {
                if buf.len() > b.capacity {
                    return Err(UsbError::BufferOverflow);
                }
                let mut ops: VecDeque<Op> = VecDeque::new();
                ops.push_back(Op::Sample(Register::DevCmdStat));
                if self.index > 0 {
                    ops.push_back(Op::Sample(self.in_register()));
                }
                self.push_in(&mut ops);
                ops.push_back(Op::Transmit(b, buf.len()));
                ops.push_back(
                    Op::Modify(self.in_register(), Update::none().nbytes(buf.len()).active(true)),
                );
                if self.index == 0 && buf.len() == 0 {
                    self.push_out(&mut ops);
                }
                assert(ops@ =~= self.write_ops(buf@.len() as usize));
                Ok(Transfer::new(ops))
            },
        }
    }

    /// Reads a packet from the host into a slice of `room` bytes.
    ///
    /// `devcmdstat` and `intstat` are the values of the two status registers, the first of them
    /// loaded first.
    pub fn read(&self, room: usize, devcmdstat: u32, intstat: u32) -> (transfer: Result<
        Transfer,
        UsbError,
    >)
        requires
            self.out_buf is Some ==> self.index < 16,
        ensures
            match self.read_plan(room, devcmdstat, intstat) {
                Ok(ops) => transfer is Ok && transfer->Ok_0@ == Progress::start(ops),
                Err(error) => transfer == Err::<Transfer, _>(error),
            },
    {
        let mut ops: VecDeque<Op> = VecDeque::new();
        match self.out_buf {
            None => {
                return Err(UsbError::WouldBlock);
            },
            Some(b) => {
                if self.index == 0 {
                    if devcmdstat & SETUP != 0 {
                        match self.setup_buf {
                            None => {
                                return Err(UsbError::WouldBlock);
                            },
                            Some(setup) => {
                                if room < SETUP_LEN {
                                    return Err(UsbError::WouldBlock);
                                }
                                let release = Update::none().active(false).not_stalled();
                                ops.push_back(Op::Receive(setup, SETUP_LEN));
                                ops.push_back(Op::ClearIfSet(Register::IntStat, EP0OUT));
                                // The controller wants all of this done before its SETUP bit is
                                // cleared.
                                ops.push_back(Op::Modify(Register::Ep0Out, release));
                                ops.push_back(Op::Modify(Register::Ep0In, release));
                                ops.push_back(Op::Modify(Register::IntStat, Update::set(EP0IN)));
                                ops.push_back(Op::ExpectClear(Register::IntStat, EP0IN));
                                ops.push_back(Op::Modify(Register::DevCmdStat, Update::set(SETUP)));
                                ops.push_back(Op::ExpectClear(Register::DevCmdStat, SETUP));
                                self.push_out(&mut ops);
                                assert(ops@ =~= self.read_setup_ops());
                            },
                        }
                    } else if intstat & EP0OUT != 0 {
                        ops.push_back(Op::ReceiveRest(Register::Ep0Out, b, room));
                        self.push_out(&mut ops);
                        ops.push_back(Op::Modify(Register::IntStat, Update::set(EP0OUT)));
                        assert(ops@ =~= self.read_control_ops(room));
                    } else {
                        return Err(UsbError::WouldBlock);
                    }
                } else {
                    let bit: u32 = 2 * self.index as u32;
                    if (intstat >> bit) & 1 == 0 {
                        return Err(UsbError::WouldBlock);
                    }
                    ops.push_back(Op::ExpectIdle(self.out_register()));
                    ops.push_back(Op::ReceiveRest(self.out_register(), b, room));
                    ops.push_back(Op::Store(Register::IntStat, 1u32 << bit));
                    self.push_out(&mut ops);
                    assert(ops@ =~= self.read_data_ops(room));
                }
            },
        }
        Ok(Transfer::new(ops))
    }
}

} // verus!
