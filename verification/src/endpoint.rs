//! An endpoint as the bus holds it.
use cortex_m::interrupt::{CriticalSection, Mutex};

use crate::buffer::EndpointBuffer;
use crate::config::{addressable, edits, EndpointConfig};
use crate::guard::{guard, held, peek};
use crate::kinds::{EndpointType, UsbError};
use crate::transfer::{Op, Progress, Register, Transfer};
use vstd::prelude::*;

verus! {

/// Decides all access to the registers and the packet memory of one endpoint.
///
/// Its view is its settings.
pub struct Endpoint {
    out_buf: Option<Mutex<EndpointBuffer>>,
    setup_buf: Option<Mutex<EndpointBuffer>>,
    in_buf: Option<Mutex<EndpointBuffer>>,
    ep_type: Option<EndpointType>,
    index: u8,
}

impl View for Endpoint {
    type V = EndpointConfig;

    closed spec fn view(&self) -> EndpointConfig {
        EndpointConfig {
            index: self.index,
            ep_type: self.ep_type,
            out_buf: held(self.out_buf),
            setup_buf: held(self.setup_buf),
            in_buf: held(self.in_buf),
        }
    }
}

impl Default for Endpoint {
    /// Endpoint zero, with nothing set.
    fn default() -> (endpoint: Endpoint)
        ensures
            endpoint@ == Endpoint::unset(0),
            endpoint@ == (EndpointConfig {
                index: 0,
                ep_type: None,
                out_buf: None,
                setup_buf: None,
                in_buf: None,
            }),
    {
        Endpoint::new(0)
    }
}

impl Endpoint {
    /// The settings of an endpoint of which nothing is set but its number.
    pub open spec fn unset(index: u8) -> EndpointConfig {
        EndpointConfig { index, ep_type: None, out_buf: None, setup_buf: None, in_buf: None }
    }

    /// The endpoint with this number, with nothing else set.
    pub fn new(index: u8) -> (endpoint: Endpoint)
        ensures
            endpoint@ == Endpoint::unset(index),
            endpoint@ == (EndpointConfig {
                index,
                ep_type: None,
                out_buf: None,
                setup_buf: None,
                in_buf: None,
            }),
    {
        Endpoint { out_buf: None, setup_buf: None, in_buf: None, ep_type: None, index }
    }

    /// The endpoint's number.
    pub fn index(&self) -> (index: u8)
        ensures
            index == self@.index,
    {
        self.index
    }

    /// The transfer type, if it is set.
    pub fn ep_type(&self) -> (ep_type: Option<EndpointType>)
        ensures
            ep_type == self@.ep_type,
    {
        self.ep_type
    }

    /// Sets the transfer type.
    pub fn set_ep_type(&mut self, ep_type: EndpointType)
        ensures
            final(self)@ == (EndpointConfig { ep_type: Some(ep_type), ..old(self)@ }),
    {
        self.ep_type = Some(ep_type);
    }

    /// Bits 21:6 of a buffer's address, which has to be a multiple of 64.
    pub fn buf_addroff(&self, buf: &EndpointBuffer) -> (offset: u32)
        requires
            buf.is_aligned(),
        ensures
            offset as int == (buf.addr as int / 64) % 0x1_0000,
    {
        buf.addroff()
    }

    /// Whether there is a buffer for packets from the host.
    pub fn is_out_buf_set(&self) -> (set: bool)
        ensures
            set == self@.out_buf is Some,
    {
        self.out_buf.is_some()
    }

    /// Sets the buffer for packets from the host.
    pub fn set_out_buf(&mut self, buffer: EndpointBuffer)
        ensures
            final(self)@ == (EndpointConfig { out_buf: Some(buffer), ..old(self)@ }),
    {
        self.out_buf = Some(guard(buffer));
    }

    /// Whether there is a buffer for SETUP packets.
    pub fn is_setup_buf_set(&self) -> (set: bool)
        ensures
            set == self@.setup_buf is Some,
    {
        self.setup_buf.is_some()
    }

    /// Sets the buffer for SETUP packets.
    pub fn set_setup_buf(&mut self, buffer: EndpointBuffer)
        ensures
            final(self)@ == (EndpointConfig { setup_buf: Some(buffer), ..old(self)@ }),
    {
        self.setup_buf = Some(guard(buffer));
    }

    /// Whether there is a buffer for packets to the host.
    pub fn is_in_buf_set(&self) -> (set: bool)
        ensures
            set == self@.in_buf is Some,
    {
        self.in_buf.is_some()
    }

    /// Sets the buffer for packets to the host.
    pub fn set_in_buf(&mut self, buffer: EndpointBuffer)
        ensures
            final(self)@ == (EndpointConfig { in_buf: Some(buffer), ..old(self)@ }),
    {
        self.in_buf = Some(guard(buffer));
    }

    /// The endpoint's settings.
    pub fn config(&self, cs: &CriticalSection) -> (config: EndpointConfig)
        ensures
            config == self@,
    {
        EndpointConfig {
            index: self.index,
            ep_type: self.ep_type,
            out_buf: peek(&self.out_buf, cs),
            setup_buf: peek(&self.setup_buf, cs),
            in_buf: peek(&self.in_buf, cs),
        }
    }

    /// Gives the OUT buffer back to the controller; see [`EndpointConfig::reset_out_buf`].
    pub fn reset_out_buf(&self, cs: &CriticalSection) -> (op: Option<Op>)
        requires
            addressable(self@.out_buf),
        ensures
            op == self@.out_op(),
            op is Some == self@.out_buf is Some,
            op is Some ==> edits(op.unwrap(), self@.out_register(), self@.out_edit()),
    {
        self.config(cs).reset_out_buf()
    }

    /// Tells the controller where SETUP packets go; see [`EndpointConfig::reset_setup_buf`].
    pub fn reset_setup_buf(&self, cs: &CriticalSection) -> (op: Option<Op>)
        requires
            addressable(self@.setup_buf),
        ensures
            op == self@.setup_op(),
            op is Some == self@.setup_buf is Some,
            op is Some ==> edits(op.unwrap(), Register::Setup, self@.setup_edit()),
    {
        self.config(cs).reset_setup_buf()
    }

    /// Empties the IN buffer; see [`EndpointConfig::reset_in_buf`].
    pub fn reset_in_buf(&self, cs: &CriticalSection) -> (op: Option<Op>)
        requires
            addressable(self@.in_buf),
        ensures
            op == self@.in_op(),
            op is Some == self@.in_buf is Some,
            op is Some ==> edits(op.unwrap(), self@.in_register(), self@.in_edit()),
    {
        self.config(cs).reset_in_buf()
    }

    /// Makes the endpoint ready for its first packets; see [`EndpointConfig::configure`].
    pub fn configure(&self, cs: &CriticalSection) -> (transfer: Transfer)
        requires
            self@.ep_type != Some(EndpointType::Isochronous),
        ensures
            transfer@ == Progress::start(self@.configure_ops()),
    {
        self.config(cs).configure()
    }

    /// Sends `buf` to the host; see [`EndpointConfig::write`].
    pub fn write(&self, buf: &[u8], cs: &CriticalSection) -> (transfer: Result<Transfer, UsbError>)
        ensures
            match self@.write_plan(buf@.len() as usize) {
                Ok(ops) => transfer is Ok && transfer->Ok_0@ == Progress::start(ops),
                Err(error) => transfer == Err::<Transfer, _>(error),
            },
    {
        self.config(cs).write(buf)
    }

    /// Reads a packet from the host; see [`EndpointConfig::read`].
    pub fn read(&self, room: usize, cs: &CriticalSection, devcmdstat: u32, intstat: u32) -> (transfer:
        Result<Transfer, UsbError>)
        requires
            self@.out_buf is Some ==> self@.index < 16,
        ensures
            match self@.read_plan(room, devcmdstat, intstat) {
                Ok(ops) => transfer is Ok && transfer->Ok_0@ == Progress::start(ops),
                Err(error) => transfer == Err::<Transfer, _>(error),
            },
    {
        self.config(cs).read(room, devcmdstat, intstat)
    }
}

} // verus!
