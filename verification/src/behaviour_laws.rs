//! What an endpoint does, in numbers: every action of every read, write and configuration, for
//! all settings and all values that the controller can give.
use crate::config::EndpointConfig;
use crate::entry::{entry, Update};
use crate::kinds::UsbError;
use crate::op_laws::law_set_writes_ones;
use crate::trace_laws::{lemma_unroll, lemma_unroll_clear, lemma_unroll_plain, remaining};
use crate::transfer::{trace, Action, Direction, Op, Progress, Register};
use vstd::prelude::*;

verus! {

/// A reset of the OUT buffer: which word it changes, and what it makes of each value of it.
///
/// The word then says that the controller owns the buffer, its length and its offset, and that
/// the endpoint is not stalled. Three bits stay, and for endpoint zero that of the disabling too;
/// the others are enabled.
pub proof fn law_reset_out_word(c: EndpointConfig, v: u32)
    ensures
        c.out_buf is None ==> c.out_op() is None,
        c.out_buf matches Some(b) ==> {
            let fields = 0x8000_0000 + (b.len as int % 0x400) * 0x1_0000 + (b.addr as int / 64)
                % 0x1_0000;
            let u = c.out_op().unwrap()->Modify_1;
            if c.index == 0 {
                &&& c.out_op() == Some(Op::Modify(Register::Ep0Out, u))
                &&& u.mask == 0xa3ff_ffff
                &&& u.bits == fields
                &&& u.apply(v) == (v & 0x5c00_0000) + fields
            } else {
                &&& c.out_op() == Some(Op::Modify(Register::Endpoint(c.index, Direction::Out), u))
                &&& u.mask == 0xe3ff_ffff
                &&& u.bits == fields
                &&& u.apply(v) == (v & 0x1c00_0000) + fields
            }
        },
{
    if let Some(b) = c.out_buf {
        let n = b.len as u32;
        let o = b.spec_addroff();
        let counted = Update::none().nbytes(b.len);
        let placed = counted.addroff(o);
        let armed = placed.active(true);
        let zero = armed.not_stalled();
        let other = armed.enabled().not_stalled();
        lemma_count(b.len);
        let bits: u32 = zero.bits;
        lemma_offset_update(Update::none(), n, o);
        let (m2, b2) = (placed.mask, placed.bits);
        assert({
            &&& (m2 | 0x8000_0000) | 0x2000_0000 == 0xa3ff_ffff
            &&& (((b2 & !0x8000_0000) | (0x8000_0000u32 & 0x8000_0000)) & !0x2000_0000) | (0u32
                & 0x2000_0000) == b2 + 0x8000_0000
            &&& ((m2 | 0x8000_0000) | 0x4000_0000) | 0x2000_0000 == 0xe3ff_ffff
            &&& (((((b2 & !0x8000_0000) | (0x8000_0000u32 & 0x8000_0000)) & !0x4000_0000) | (0u32
                & 0x4000_0000)) & !0x2000_0000) | (0u32 & 0x2000_0000) == b2 + 0x8000_0000
        }) by (bit_vector)
            requires
                m2 == 0x03ff_ffff,
                b2 <= 0x03ff_ffff,
        ;
        assert({
            &&& bits <= 0x83ff_ffff && bits >= 0x8000_0000 ==> (v & !0xa3ff_ffffu32) | bits == (v
                & 0x5c00_0000) + bits
            &&& bits <= 0x83ff_ffff && bits >= 0x8000_0000 ==> (v & !0xe3ff_ffffu32) | bits == (v
                & 0x1c00_0000) + bits
        }) by (bit_vector);
    }
}

proof fn lemma_count(len: usize)
    ensures
        (len as u32) % 0x400 == len as int % 0x400,
{
    let n = len as u32;
    assert(n % 0x400 == len % 0x400) by (bit_vector)
        requires
            n == len as u32,
    ;
}

proof fn lemma_offset_update(none: Update, n: u32, o: u32)
    requires
        none == Update::none(),
        o < 0x1_0000,
    ensures
        none.with(0x03ff_0000, n << 16u32).with(0xffff, o).mask == 0x03ff_ffff,
        none.with(0x03ff_0000, n << 16u32).with(0xffff, o).bits == (n as int % 0x400) * 0x1_0000 + o,
{
    assert({
        &&& (0u32 | 0x03ff_0000) | 0xffff == 0x03ff_ffff
        &&& (((0u32 & !0x03ff_0000) | ((n << 16u32) & 0x03ff_0000)) & !0xffff) | (o & 0xffff) == (n
            % 0x400) * 0x1_0000 + o
    }) by (bit_vector)
        requires
            o < 0x1_0000,
    ;
}

/// A reset of the SETUP buffer: its offset replaces the lowest sixteen bits of the word.
pub proof fn law_reset_setup_word(c: EndpointConfig, v: u32)
    ensures
        c.setup_buf is None ==> c.setup_op() is None,
        c.setup_buf matches Some(b) ==> {
            let fields = (b.addr as int / 64) % 0x1_0000;
            let u = c.setup_op().unwrap()->Modify_1;
            &&& c.setup_op() == Some(Op::Modify(Register::Setup, u))
            &&& u.mask == 0xffff
            &&& u.bits == fields
            &&& u.apply(v) == (v & 0xffff_0000) + fields
        },
{
    if let Some(b) = c.setup_buf {
        let o = b.spec_addroff();
        assert({
            &&& 0u32 | 0xffff == 0xffff
            &&& (0u32 & !0xffff) | (o & 0xffff) == o
            &&& (v & !(0u32 | 0xffff)) | ((0u32 & !0xffff) | (o & 0xffff)) == (v & 0xffff_0000) + o
        }) by (bit_vector)
            requires
                o < 0x1_0000,
        ;
    }
}

/// A reset of the IN buffer: which word it changes, and what it makes of each value of it.
///
/// The word then says that no bytes are to be sent from the buffer's offset, and that the endpoint
/// is neither disabled nor stalled. Three bits stay, and for all endpoints but zero that of the
/// owner too; that of endpoint zero is taken from the controller.
pub proof fn law_reset_in_word(c: EndpointConfig, v: u32)
    ensures
        c.in_buf is None ==> c.in_op() is None,
        c.in_buf matches Some(b) ==> {
            let fields = (b.addr as int / 64) % 0x1_0000;
            let u = c.in_op().unwrap()->Modify_1;
            if c.index == 0 {
                &&& c.in_op() == Some(Op::Modify(Register::Ep0In, u))
                &&& u.mask == 0xe3ff_ffff
                &&& u.bits == fields
                &&& u.apply(v) == (v & 0x1c00_0000) + fields
            } else {
                &&& c.in_op() == Some(Op::Modify(Register::Endpoint(c.index, Direction::In), u))
                &&& u.mask == 0x63ff_ffff
                &&& u.bits == fields
                &&& u.apply(v) == (v & 0x9c00_0000) + fields
            }
        },
{
    if let Some(b) = c.in_buf {
        let o = b.spec_addroff();
        let zero: usize = 0;
        let n = zero as u32;
        lemma_offset_update(Update::none(), n, o);
        let placed = Update::none().nbytes(0).addroff(o);
        let (m2, b2) = (placed.mask, placed.bits);
        assert(b2 == o);
        assert({
            &&& ((m2 | 0x8000_0000) | 0x4000_0000) | 0x2000_0000 == 0xe3ff_ffff
            &&& (((((b2 & !0x8000_0000) | (0u32 & 0x8000_0000)) & !0x4000_0000) | (0u32
                & 0x4000_0000)) & !0x2000_0000) | (0u32 & 0x2000_0000) == b2
            &&& (m2 | 0x4000_0000) | 0x2000_0000 == 0x63ff_ffff
            &&& (((b2 & !0x4000_0000) | (0u32 & 0x4000_0000)) & !0x2000_0000) | (0u32 & 0x2000_0000)
                == b2
            &&& (v & !0xe3ff_ffffu32) | b2 == (v & 0x1c00_0000) + b2
            &&& (v & !0x63ff_ffffu32) | b2 == (v & 0x9c00_0000) + b2
        }) by (bit_vector)
            requires
                m2 == 0x03ff_ffff,
                b2 < 0x1_0000,
        ;
    }
}

/// The hand-over of a packet to the controller: the byte count is the packet's length, the
/// controller owns the buffer, and the rest of the word stays.
pub proof fn law_send_word(c: EndpointConfig, len: usize, v: u32)
    ensures
        ({
            let u = c.send_op(len)->Modify_1;
            &&& c.send_op(len) == Op::Modify(
                if c.index == 0 {
                    Register::Ep0In
                } else {
                    Register::Endpoint(c.index, Direction::In)
                },
                u,
            )
            &&& u.mask == 0x83ff_0000
            &&& u.apply(v) == (v & 0x7c00_ffff) + 0x8000_0000 + (len as int % 0x400) * 0x1_0000
        }),
{
    let n = len as u32;
    lemma_count(len);
    assert({
        &&& (0u32 | 0x03ff_0000) | 0x8000_0000 == 0x83ff_0000
        &&& (v & !((0u32 | 0x03ff_0000) | 0x8000_0000)) | ((((0u32 & !0x03ff_0000) | ((n << 16u32)
            & 0x03ff_0000)) & !0x8000_0000) | (0x8000_0000u32 & 0x8000_0000)) == (v & 0x7c00_ffff)
            + 0x8000_0000 + (n % 0x400) * 0x1_0000
    }) by (bit_vector);
}

/// When a read is refused: without a buffer for packets from the host; on endpoint zero with a
/// SETUP packet waiting, without a buffer for it or room for its eight bytes; else without a packet
/// waiting. The error is always the same. With one waiting, no other bit of the registers matters.
pub proof fn law_read_refused(c: EndpointConfig, room: usize, devcmdstat: u32, intstat: u32)
    requires
        c.out_buf is Some ==> c.index < 16,
    ensures
        ({
            let setup = (devcmdstat as int / 0x100) % 2 == 1;
            let packet = if c.index == 0 {
                intstat % 2 == 1
            } else {
                intstat & (1u32 << (2 * c.index) as u32) != 0
            };
            let refused = c.out_buf is None || if c.index == 0 && setup {
                c.setup_buf is None || room < 8
            } else {
                !packet
            };
            &&& c.read_plan(room, devcmdstat, intstat) is Err <==> refused
            &&& refused ==> c.read_plan(room, devcmdstat, intstat) == Err::<Seq<Op>, UsbError>(
                UsbError::WouldBlock,
            )
        }),
{
    lemma_status_bits(devcmdstat, intstat);
    if c.out_buf is Some {
        lemma_bit_of(intstat, (2 * c.index) as u32);
    }
}

proof fn lemma_bit_of(word: u32, i: u32)
    requires
        i < 32,
    ensures
        ((word >> i) & 1 != 0) == (word & (1u32 << i) != 0),
{
    assert(((word >> i) & 1 != 0) == (word & (1u32 << i) != 0)) by (bit_vector)
        requires
            i < 32,
    ;
}

proof fn lemma_status_bits(devcmdstat: u32, intstat: u32)
    ensures
        (devcmdstat & 0x100 != 0) == ((devcmdstat as int / 0x100) % 2 == 1),
        (intstat & 1 != 0) == (intstat % 2 == 1),
        (intstat & 2 != 0) == ((intstat as int / 2) % 2 == 1),
{
    assert({
        &&& (devcmdstat & 0x100 != 0) == ((devcmdstat / 0x100) % 2 == 1)
        &&& (intstat & 1 != 0) == (intstat % 2 == 1)
        &&& (intstat & 2 != 0) == ((intstat / 2) % 2 == 1)
    }) by (bit_vector);
}

/// The read of a SETUP packet, which happens on endpoint zero whenever the device status has its
/// SETUP bit set, whatever else the status registers say.
///
/// First the packet's eight bytes are taken. Then the interrupt for OUT packets is cleared if it
/// is pending; both words of endpoint zero lose their owner and stall bits and nothing else; the
/// interrupt for IN packets is cleared; and only then the SETUP bit. Last the OUT buffer is given
/// to the controller, whole. A status bit that is written as one and stays set is a fault, and so
/// is an OUT buffer that is not on a multiple of 64 bytes.
pub proof fn law_read_setup(
    c: EndpointConfig,
    room: usize,
    devcmdstat: u32,
    intstat: u32,
    inputs: Seq<u32>,
)
    requires
        c.index == 0,
        c.out_buf is Some,
        c.setup_buf is Some,
        room >= 8,
        (devcmdstat as int / 0x100) % 2 == 1,
        inputs.len() >= 10,
    ensures
        c.read_plan(room, devcmdstat, intstat) is Ok,
        ({
            let out = c.out_buf.unwrap();
            let ints = Register::IntStat;
            let dev = Register::DevCmdStat;
            let pending = inputs[0] % 2 == 1;
            let k = if pending { 3int } else { 1int };
            let armed = (inputs[k + 6] & 0x5c00_0000) + 0x8000_0000 + (out.len as int % 0x400)
                * 0x1_0000 + (out.addr as int / 64) % 0x1_0000;
            remaining(Progress::start(c.read_plan(room, devcmdstat, intstat)->Ok_0), inputs)
                == seq![Action::Receive(c.setup_buf.unwrap(), 8), Action::Load(ints)] + (
            if pending {
                seq![Action::Load(ints), Action::Store(ints, inputs[1] | 1), Action::Load(ints)]
            } else {
                seq![]
            }) + if pending && inputs[2] % 2 == 1 {
                seq![Action::Fault]
            } else {
                seq![
                    Action::Load(Register::Ep0Out),
                    Action::Store(Register::Ep0Out, inputs[k] & 0x5fff_ffff),
                    Action::Load(Register::Ep0In),
                    Action::Store(Register::Ep0In, inputs[k + 1] & 0x5fff_ffff),
                    Action::Load(ints),
                    Action::Store(ints, inputs[k + 2] | 2),
                    Action::Load(ints),
                ] + if inputs[k + 3] & 2 != 0 {
                    seq![Action::Fault]
                } else {
                    seq![
                        Action::Load(dev),
                        Action::Store(dev, inputs[k + 4] | 0x100),
                        Action::Load(dev),
                    ] + if inputs[k + 5] & 0x100 != 0 || out.addr % 64 != 0 {
                        seq![Action::Fault]
                    } else {
                        seq![
                            Action::Load(Register::Ep0Out),
                            Action::Store(Register::Ep0Out, armed as u32),
                            Action::Done(8),
                        ]
                    }
                }
            }
        }),
{
    lemma_status_bits(devcmdstat, intstat);
    lemma_status_bits(0, inputs[0]);
    lemma_status_bits(0, inputs[2]);
    let ops = c.read_setup_ops();
    let out = c.out_buf.unwrap();
    let ints = Register::IntStat;
    let dev = Register::DevCmdStat;
    let pending = inputs[0] % 2 == 1;
    let k = if pending { 3int } else { 1int };
    law_reset_out_word(c, inputs[k + 6]);
    law_set_writes_ones(1, inputs[1]);
    law_set_writes_ones(2, inputs[k + 2]);
    law_set_writes_ones(0x100, inputs[k + 4]);
    lemma_released(inputs[k]);
    lemma_released(inputs[k + 1]);
    assert(ops.skip(0) =~= ops);
    assert(inputs.skip(0) =~= inputs);
    lemma_unroll_plain(ops, 0, 0, inputs, 0);
    if pending {
        lemma_unroll_clear(ops, 1, 8, inputs, 0);
    } else {
        lemma_unroll(ops, 1, 8, inputs, 0);
    }
    assert(ops[8] == if out.addr % 64 == 0 { c.out_op().unwrap() } else { Op::Halt });
    lemma_unroll(ops, 2, 8, inputs, k);
    lemma_unroll(ops, 3, 8, inputs, k + 1);
    lemma_unroll(ops, 4, 8, inputs, k + 2);
    lemma_unroll(ops, 5, 8, inputs, k + 3);
    lemma_unroll(ops, 6, 8, inputs, k + 4);
    lemma_unroll(ops, 7, 8, inputs, k + 5);
    if out.addr % 64 == 0 {
        lemma_unroll(ops, 8, 8, inputs, k + 6);
        lemma_unroll_plain(ops, 9, 8, inputs, k + 7);
    } else {
        lemma_unroll_plain(ops, 8, 8, inputs, k + 6);
    }
    let armed = (inputs[k + 6] & 0x5c00_0000) + 0x8000_0000 + (out.len as int % 0x400) * 0x1_0000
        + (out.addr as int / 64) % 0x1_0000;
    let last = if inputs[k + 5] & 0x100 != 0 || out.addr % 64 != 0 {
        seq![Action::Fault]
    } else {
        seq![
            Action::Load(Register::Ep0Out),
            Action::Store(Register::Ep0Out, armed as u32),
            Action::Done(8),
        ]
    };
    assert(trace(ops.skip(7), 8, inputs.skip(k + 5)) =~= seq![Action::Load(dev)] + last);
    let acknowledged = seq![
        Action::Load(dev),
        Action::Store(dev, inputs[k + 4] | 0x100),
        Action::Load(dev),
    ] + last;
    assert(trace(ops.skip(6), 8, inputs.skip(k + 4)) =~= acknowledged);
    let cleared = if inputs[k + 3] & 2 != 0 {
        seq![Action::Fault]
    } else {
        acknowledged
    };
    let released = seq![
        Action::Load(Register::Ep0Out),
        Action::Store(Register::Ep0Out, inputs[k] & 0x5fff_ffff),
        Action::Load(Register::Ep0In),
        Action::Store(Register::Ep0In, inputs[k + 1] & 0x5fff_ffff),
        Action::Load(ints),
        Action::Store(ints, inputs[k + 2] | 2),
        Action::Load(ints),
    ] + cleared;
    assert(trace(ops.skip(2), 8, inputs.skip(k)) =~= released);
    assert(trace(ops, 0, inputs) =~= seq![
        Action::Receive(c.setup_buf.unwrap(), 8),
        Action::Load(ints),
    ] + (if pending {
        seq![Action::Load(ints), Action::Store(ints, inputs[1] | 1), Action::Load(ints)]
    } else {
        seq![]
    }) + if pending && inputs[2] % 2 == 1 {
        seq![Action::Fault]
    } else {
        released
    });
}

proof fn lemma_released(v: u32)
    ensures
        Update::none().active(false).not_stalled().apply(v) == v & 0x5fff_ffff,
{
    assert((v & !((0u32 | 0x8000_0000) | 0x2000_0000)) | ((((0u32 & !0x8000_0000) | (0u32
        & 0x8000_0000)) & !0x2000_0000) | (0u32 & 0x2000_0000)) == v & 0x5fff_ffff) by (bit_vector);
}

/// The read of a data packet of endpoint zero, which happens when no SETUP packet waits and the
/// interrupt for OUT packets is pending, whatever else the status registers say.
///
/// It takes, and reports, what has arrived: the buffer's length less the byte count of its word,
/// or as much of it as there is room for. Then the buffer is given back, whole, and the interrupt
/// is cleared. A byte count beyond the buffer's length is a fault, and so is a buffer that is not
/// on a multiple of 64 bytes.
pub proof fn law_read_control(
    c: EndpointConfig,
    room: usize,
    devcmdstat: u32,
    intstat: u32,
    inputs: Seq<u32>,
)
    requires
        c.index == 0,
        c.out_buf is Some,
        (devcmdstat as int / 0x100) % 2 == 0,
        intstat % 2 == 1,
        inputs.len() >= 3,
    ensures
        c.read_plan(room, devcmdstat, intstat) is Ok,
        ({
            let out = c.out_buf.unwrap();
            let arrived = out.len - (inputs[0] as int / 0x1_0000) % 0x400;
            let count = (if arrived < room { arrived } else { room as int }) as usize;
            let armed = (inputs[1] & 0x5c00_0000) + 0x8000_0000 + (out.len as int % 0x400) * 0x1_0000
                + (out.addr as int / 64) % 0x1_0000;
            remaining(Progress::start(c.read_plan(room, devcmdstat, intstat)->Ok_0), inputs)
                == seq![Action::Load(Register::Ep0Out)] + if arrived < 0 {
                seq![Action::Fault]
            } else {
                seq![Action::Receive(out, count)] + if out.addr % 64 != 0 {
                    seq![Action::Fault]
                } else {
                    seq![
                        Action::Load(Register::Ep0Out),
                        Action::Store(Register::Ep0Out, armed as u32),
                        Action::Load(Register::IntStat),
                        Action::Store(Register::IntStat, inputs[2] | 1),
                        Action::Done(count),
                    ]
                }
            }
        }),
{
    lemma_status_bits(devcmdstat, intstat);
    reveal(entry);
    let ops = c.read_control_ops(room);
    let out = c.out_buf.unwrap();
    let arrived = out.len - (inputs[0] as int / 0x1_0000) % 0x400;
    let count = (if arrived < room { arrived } else { room as int }) as usize;
    law_reset_out_word(c, inputs[1]);
    law_set_writes_ones(1, inputs[2]);
    assert(ops.skip(0) =~= ops);
    assert(inputs.skip(0) =~= inputs);
    assert(ops[1] == if out.addr % 64 == 0 { c.out_op().unwrap() } else { Op::Halt });
    lemma_unroll(ops, 0, 0, inputs, 0);
    let armed = (inputs[1] & 0x5c00_0000) + 0x8000_0000 + (out.len as int % 0x400) * 0x1_0000 + (
    out.addr as int / 64) % 0x1_0000;
    let last = if out.addr % 64 != 0 {
        seq![Action::Fault]
    } else {
        seq![
            Action::Load(Register::Ep0Out),
            Action::Store(Register::Ep0Out, armed as u32),
            Action::Load(Register::IntStat),
            Action::Store(Register::IntStat, inputs[2] | 1),
            Action::Done(count),
        ]
    };
    if out.addr % 64 == 0 {
        lemma_unroll(ops, 1, count, inputs, 1);
        lemma_unroll(ops, 2, count, inputs, 2);
        lemma_unroll_plain(ops, 3, count, inputs, 3);
    } else {
        lemma_unroll_plain(ops, 1, count, inputs, 1);
    }
    assert(trace(ops.skip(1), count, inputs.skip(1)) =~= last);
    assert(trace(ops, 0, inputs) =~= seq![Action::Load(Register::Ep0Out)] + if arrived < 0 {
        seq![Action::Fault]
    } else {
        seq![Action::Receive(out, count)] + last
    });
}

/// The read of a packet of another endpoint, which happens when its interrupt for OUT packets is
/// pending, whatever else the status registers say.
///
/// While the controller owns the buffer it ends with an error. Else it takes, and reports, what
/// has arrived: the buffer's length less the byte count of its word, or as much of it as there is
/// room for. Then the endpoint's own interrupt is cleared, and the buffer given back, whole. A
/// byte count beyond the buffer's length is a fault, and so is a buffer that is not on a multiple
/// of 64 bytes.
pub proof fn law_read_data(
    c: EndpointConfig,
    room: usize,
    devcmdstat: u32,
    intstat: u32,
    inputs: Seq<u32>,
)
    requires
        0 < c.index < 16,
        c.out_buf is Some,
        intstat & (1u32 << (2 * c.index) as u32) != 0,
        inputs.len() >= 3,
    ensures
        c.read_plan(room, devcmdstat, intstat) is Ok,
        ({
            let out = c.out_buf.unwrap();
            let word = Register::Endpoint(c.index, Direction::Out);
            let arrived = out.len - (inputs[1] as int / 0x1_0000) % 0x400;
            let count = (if arrived < room { arrived } else { room as int }) as usize;
            let armed = (inputs[2] & 0x1c00_0000) + 0x8000_0000 + (out.len as int % 0x400) * 0x1_0000
                + (out.addr as int / 64) % 0x1_0000;
            remaining(Progress::start(c.read_plan(room, devcmdstat, intstat)->Ok_0), inputs)
                == seq![Action::Load(word)] + if inputs[0] >= 0x8000_0000 {
                seq![Action::Failed(UsbError::WouldBlock)]
            } else {
                seq![Action::Load(word)] + if arrived < 0 {
                    seq![Action::Fault]
                } else {
                    seq![
                        Action::Receive(out, count),
                        Action::Store(Register::IntStat, 1u32 << (2 * c.index) as u32),
                    ] + if out.addr % 64 != 0 {
                        seq![Action::Fault]
                    } else {
                        seq![
                            Action::Load(word),
                            Action::Store(word, armed as u32),
                            Action::Done(count),
                        ]
                    }
                }
            }
        }),
{
    lemma_bit_of(intstat, (2 * c.index) as u32);
    reveal(entry);
    let ops = c.read_data_ops(room);
    let out = c.out_buf.unwrap();
    let word = Register::Endpoint(c.index, Direction::Out);
    let arrived = out.len - (inputs[1] as int / 0x1_0000) % 0x400;
    let count = (if arrived < room { arrived } else { room as int }) as usize;
    law_reset_out_word(c, inputs[2]);
    assert(ops.skip(0) =~= ops);
    assert(inputs.skip(0) =~= inputs);
    assert(ops[3] == if out.addr % 64 == 0 { c.out_op().unwrap() } else { Op::Halt });
    lemma_unroll(ops, 0, 0, inputs, 0);
    lemma_unroll(ops, 1, 0, inputs, 1);
    lemma_unroll_plain(ops, 2, count, inputs, 2);
    let armed = (inputs[2] & 0x1c00_0000) + 0x8000_0000 + (out.len as int % 0x400) * 0x1_0000 + (
    out.addr as int / 64) % 0x1_0000;
    let last = if out.addr % 64 != 0 {
        seq![Action::Fault]
    } else {
        seq![Action::Load(word), Action::Store(word, armed as u32), Action::Done(count)]
    };
    if out.addr % 64 == 0 {
        lemma_unroll(ops, 3, count, inputs, 2);
        lemma_unroll_plain(ops, 4, count, inputs, 3);
    } else {
        lemma_unroll_plain(ops, 3, count, inputs, 2);
    }
    assert(trace(ops.skip(3), count, inputs.skip(2)) =~= last);
    let taken = if arrived < 0 {
        seq![Action::Fault]
    } else {
        seq![
            Action::Receive(out, count),
            Action::Store(Register::IntStat, 1u32 << (2 * c.index) as u32),
        ] + last
    };
    assert(trace(ops.skip(1), 0, inputs.skip(1)) =~= seq![Action::Load(word)] + taken);
    assert(trace(ops, 0, inputs) =~= seq![Action::Load(word)] + if inputs[0] >= 0x8000_0000 {
        seq![Action::Failed(UsbError::WouldBlock)]
    } else {
        seq![Action::Load(word)] + taken
    });
}

/// When a write is refused: without a buffer for packets to the host, and with more bytes than the
/// buffer holds, each with an error of its own.
pub proof fn law_write_refused(c: EndpointConfig, len: usize)
    ensures
        c.in_buf is None <==> c.write_plan(len) == Err::<Seq<Op>, UsbError>(UsbError::WouldBlock),
        c.in_buf is Some && len > c.in_buf.unwrap().capacity <==> c.write_plan(len) == Err::<
            Seq<Op>,
            UsbError,
        >(UsbError::BufferOverflow),
        c.in_buf is Some && len <= c.in_buf.unwrap().capacity <==> c.write_plan(len) is Ok,
{
}

/// The write of a packet that fits the IN buffer.
///
/// The buffer's word is emptied; all `len` bytes are put into the buffer; then the word gets the
/// packet's length and the controller the buffer; and `len` is reported. After an empty packet of
/// endpoint zero, an OUT buffer is given to the controller too, whole. A buffer that is not on a
/// multiple of 64 bytes is a fault when its turn comes. What the status register and the word held
/// at first does not matter.
pub proof fn law_write(c: EndpointConfig, len: usize, inputs: Seq<u32>)
    requires
        c.in_buf is Some,
        len <= c.in_buf.unwrap().capacity,
        inputs.len() >= 4,
    ensures
        c.write_plan(len) is Ok,
        ({
            let b = c.in_buf.unwrap();
            let zero = c.index == 0;
            let word = if zero {
                Register::Ep0In
            } else {
                Register::Endpoint(c.index, Direction::In)
            };
            let k = if zero { 1int } else { 2int };
            let emptied = (if zero {
                inputs[k] & 0x1c00_0000
            } else {
                inputs[k] & 0x9c00_0000
            }) + (b.addr as int / 64) % 0x1_0000;
            let sent = (inputs[k + 1] & 0x7c00_ffff) + 0x8000_0000 + (len as int % 0x400)
                * 0x1_0000;
            remaining(Progress::start(c.write_plan(len)->Ok_0), inputs) == (if zero {
                seq![Action::Load(Register::DevCmdStat)]
            } else {
                seq![Action::Load(Register::DevCmdStat), Action::Load(word)]
            }) + if b.addr % 64 != 0 {
                seq![Action::Fault]
            } else {
                seq![
                    Action::Load(word),
                    Action::Store(word, emptied as u32),
                    Action::Transmit(b, len),
                    Action::Load(word),
                    Action::Store(word, sent as u32),
                ] + if zero && len == 0 && c.out_buf is Some {
                    let out = c.out_buf.unwrap();
                    let armed = (inputs[3] & 0x5c00_0000) + 0x8000_0000 + (out.len as int % 0x400)
                        * 0x1_0000 + (out.addr as int / 64) % 0x1_0000;
                    if out.addr % 64 != 0 {
                        seq![Action::Fault]
                    } else {
                        seq![
                            Action::Load(Register::Ep0Out),
                            Action::Store(Register::Ep0Out, armed as u32),
                            Action::Done(0),
                        ]
                    }
                } else {
                    seq![Action::Done(len)]
                }
            }
        }),
{
    let ops = c.write_ops(len);
    let b = c.in_buf.unwrap();
    let zero = c.index == 0;
    let word = if zero {
        Register::Ep0In
    } else {
        Register::Endpoint(c.index, Direction::In)
    };
    let k = if zero { 1int } else { 2int };
    let emptied = (if zero {
        inputs[k] & 0x1c00_0000
    } else {
        inputs[k] & 0x9c00_0000
    }) + (b.addr as int / 64) % 0x1_0000;
    let sent = (inputs[k + 1] & 0x7c00_ffff) + 0x8000_0000 + (len as int % 0x400) * 0x1_0000;
    law_reset_in_word(c, inputs[k]);
    law_send_word(c, len, inputs[k + 1]);
    law_reset_out_word(c, inputs[3]);
    assert(ops.skip(0) =~= ops);
    assert(inputs.skip(0) =~= inputs);
    lemma_unroll(ops, 0, 0, inputs, 0);
    if !zero {
        lemma_unroll(ops, 1, 0, inputs, 1);
    }
    assert(ops[k] == if b.addr % 64 == 0 { c.in_op().unwrap() } else { Op::Halt });
    assert(ops[k + 1] == Op::Transmit(b, len));
    assert(ops[k + 2] == c.send_op(len));
    if b.addr % 64 == 0 {
        lemma_unroll(ops, k, 0, inputs, k);
    } else {
        lemma_unroll_plain(ops, k, 0, inputs, k);
    }
    lemma_unroll_plain(ops, k + 1, 0, inputs, k + 1);
    lemma_unroll(ops, k + 2, len, inputs, k + 1);
    let last = if zero && len == 0 && c.out_buf is Some {
        let out = c.out_buf.unwrap();
        let armed = (inputs[3] & 0x5c00_0000) + 0x8000_0000 + (out.len as int % 0x400) * 0x1_0000 + (
        out.addr as int / 64) % 0x1_0000;
        if out.addr % 64 != 0 {
            seq![Action::Fault]
        } else {
            seq![
                Action::Load(Register::Ep0Out),
                Action::Store(Register::Ep0Out, armed as u32),
                Action::Done(0),
            ]
        }
    } else {
        seq![Action::Done(len)]
    };
    if zero && len == 0 && c.out_buf is Some {
        let out = c.out_buf.unwrap();
        assert(ops[4] == if out.addr % 64 == 0 { c.out_op().unwrap() } else { Op::Halt });
        if out.addr % 64 == 0 {
            lemma_unroll(ops, 4, len, inputs, 3);
            lemma_unroll_plain(ops, 5, len, inputs, 4);
        } else {
            lemma_unroll_plain(ops, 4, len, inputs, 3);
        }
    } else {
        lemma_unroll_plain(ops, k + 3, len, inputs, k + 2);
    }
    assert(trace(ops.skip(k + 3), len, inputs.skip(k + 2)) =~= last);
    let moved = if b.addr % 64 != 0 {
        seq![Action::Fault]
    } else {
        seq![
            Action::Load(word),
            Action::Store(word, emptied as u32),
            Action::Transmit(b, len),
            Action::Load(word),
            Action::Store(word, sent as u32),
        ] + last
    };
    assert(trace(ops.skip(k), 0, inputs.skip(k)) =~= moved);
    assert(trace(ops, 0, inputs) =~= (if zero {
        seq![Action::Load(Register::DevCmdStat)]
    } else {
        seq![Action::Load(Register::DevCmdStat), Action::Load(word)]
    }) + moved);
}

/// A configuration. Without a transfer type there is none. Else the interrupts of endpoint zero are
/// cleared, that for OUT packets first: each is written as one, beside the others that were
/// loaded, and if it stays set this is a fault. Then each buffer that is set is made ready, that
/// for SETUP packets on endpoint zero only. A buffer that is not on a multiple of 64 bytes is a
/// fault when its turn comes. Nothing is moved.
pub proof fn law_configure(c: EndpointConfig, inputs: Seq<u32>)
    requires
        inputs.len() >= 7,
    ensures
        ({
            let ints = Register::IntStat;
            let zero = c.index == 0;
            let setup = zero && c.setup_buf is Some;
            let k = if c.out_buf is Some { 5int } else { 4int };
            let l = if setup { k + 1 } else { k };
            let readied_in = if c.in_buf is Some {
                let b = c.in_buf.unwrap();
                let word = if zero {
                    Register::Ep0In
                } else {
                    Register::Endpoint(c.index, Direction::In)
                };
                let emptied = (if zero {
                    inputs[l] & 0x1c00_0000
                } else {
                    inputs[l] & 0x9c00_0000
                }) + (b.addr as int / 64) % 0x1_0000;
                if b.addr % 64 != 0 {
                    seq![Action::Fault]
                } else {
                    seq![Action::Load(word), Action::Store(word, emptied as u32), Action::Done(0)]
                }
            } else {
                seq![Action::Done(0)]
            };
            let readied_setup = if setup {
                let b = c.setup_buf.unwrap();
                let placed = (inputs[k] & 0xffff_0000) + (b.addr as int / 64) % 0x1_0000;
                if b.addr % 64 != 0 {
                    seq![Action::Fault]
                } else {
                    seq![
                        Action::Load(Register::Setup),
                        Action::Store(Register::Setup, placed as u32),
                    ] + readied_in
                }
            } else {
                readied_in
            };
            let readied_out = if c.out_buf is Some {
                let b = c.out_buf.unwrap();
                let word = if zero {
                    Register::Ep0Out
                } else {
                    Register::Endpoint(c.index, Direction::Out)
                };
                let armed = (if zero {
                    inputs[4] & 0x5c00_0000
                } else {
                    inputs[4] & 0x1c00_0000
                }) + 0x8000_0000 + (b.len as int % 0x400) * 0x1_0000 + (b.addr as int / 64)
                    % 0x1_0000;
                if b.addr % 64 != 0 {
                    seq![Action::Fault]
                } else {
                    seq![Action::Load(word), Action::Store(word, armed as u32)] + readied_setup
                }
            } else {
                readied_setup
            };
            remaining(Progress::start(c.configure_ops()), inputs) == if c.ep_type is None {
                seq![Action::Done(0)]
            } else {
                seq![Action::Load(ints), Action::Store(ints, inputs[0] | 1), Action::Load(ints)]
                    + if inputs[1] & 1 != 0 {
                    seq![Action::Fault]
                } else {
                    seq![Action::Load(ints), Action::Store(ints, inputs[2] | 2), Action::Load(ints)]
                        + if inputs[3] & 2 != 0 {
                        seq![Action::Fault]
                    } else {
                        readied_out
                    }
                }
            }
        }),
{
    if c.ep_type is Some {
        let ops = c.configure_ops();
        let ints = Register::IntStat;
        let zero = c.index == 0;
        let setup = zero && c.setup_buf is Some;
        let k = if c.out_buf is Some { 5int } else { 4int };
        let l = if setup { k + 1 } else { k };
        lemma_configure_ops(c);
        lemma_configure_start(ops, inputs);
        if c.in_buf is Some {
            law_reset_in_word(c, inputs[l]);
            lemma_ready(ops, l, inputs, c.in_buf.unwrap().addr % 64 == 0, c.in_op().unwrap());
            lemma_unroll_plain(ops, l + 1, 0, inputs, l + 1);
            if c.in_buf.unwrap().addr % 64 == 0 {
                let word = if zero {
                    Register::Ep0In
                } else {
                    Register::Endpoint(c.index, Direction::In)
                };
                let emptied = c.in_op().unwrap()->Modify_1.apply(inputs[l]);
                assert(trace(ops.skip(l), 0, inputs.skip(l)) =~= seq![
                    Action::Load(word),
                    Action::Store(word, emptied),
                    Action::Done(0),
                ]);
            }
        } else {
            lemma_unroll_plain(ops, l, 0, inputs, l);
        }
        if setup {
            law_reset_setup_word(c, inputs[k]);
            lemma_ready(ops, k, inputs, c.setup_buf.unwrap().addr % 64 == 0, c.setup_op().unwrap());
        }
        if c.out_buf is Some {
            law_reset_out_word(c, inputs[4]);
            lemma_ready(ops, 4, inputs, c.out_buf.unwrap().addr % 64 == 0, c.out_op().unwrap());
        }
    }
}

proof fn lemma_configure_ops(c: EndpointConfig)
    requires
        c.ep_type is Some,
    ensures
        ({
            let ops = c.configure_ops();
            let setup = c.index == 0 && c.setup_buf is Some;
            let k = if c.out_buf is Some { 5int } else { 4int };
            let l = if setup { k + 1 } else { k };
            &&& ops.len() == if c.in_buf is Some { l + 1 } else { l }
            &&& ops[0] == Op::Modify(Register::IntStat, Update::set(1))
            &&& ops[1] == Op::ExpectClear(Register::IntStat, 1)
            &&& ops[2] == Op::Modify(Register::IntStat, Update::set(2))
            &&& ops[3] == Op::ExpectClear(Register::IntStat, 2)
            &&& c.out_buf is Some ==> ops[4] == if c.out_buf.unwrap().addr % 64 == 0 {
                c.out_op().unwrap()
            } else {
                Op::Halt
            }
            &&& setup ==> ops[k] == if c.setup_buf.unwrap().addr % 64 == 0 {
                c.setup_op().unwrap()
            } else {
                Op::Halt
            }
            &&& c.in_buf is Some ==> ops[l] == if c.in_buf.unwrap().addr % 64 == 0 {
                c.in_op().unwrap()
            } else {
                Op::Halt
            }
        }),
{
}

proof fn lemma_configure_start(ops: Seq<Op>, inputs: Seq<u32>)
    requires
        ops.len() >= 4,
        inputs.len() >= 4,
        ops[0] == Op::Modify(Register::IntStat, Update::set(1)),
        ops[1] == Op::ExpectClear(Register::IntStat, 1),
        ops[2] == Op::Modify(Register::IntStat, Update::set(2)),
        ops[3] == Op::ExpectClear(Register::IntStat, 2),
    ensures
        ({
            let ints = Register::IntStat;
            trace(ops, 0, inputs) == seq![
                Action::Load(ints),
                Action::Store(ints, inputs[0] | 1),
                Action::Load(ints),
            ] + if inputs[1] & 1 != 0 {
                seq![Action::Fault]
            } else {
                seq![Action::Load(ints), Action::Store(ints, inputs[2] | 2), Action::Load(ints)]
                    + if inputs[3] & 2 != 0 {
                    seq![Action::Fault]
                } else {
                    trace(ops.skip(4), 0, inputs.skip(4))
                }
            }
        }),
{
    let ints = Register::IntStat;
    assert(ops.skip(0) =~= ops);
    assert(inputs.skip(0) =~= inputs);
    law_set_writes_ones(1, inputs[0]);
    law_set_writes_ones(2, inputs[2]);
    lemma_unroll(ops, 0, 0, inputs, 0);
    lemma_unroll(ops, 1, 0, inputs, 1);
    lemma_unroll(ops, 2, 0, inputs, 2);
    lemma_unroll(ops, 3, 0, inputs, 3);
    let cleared = seq![
        Action::Load(ints),
        Action::Store(ints, inputs[2] | 2),
        Action::Load(ints),
    ] + if inputs[3] & 2 != 0 {
        seq![Action::Fault]
    } else {
        trace(ops.skip(4), 0, inputs.skip(4))
    };
    assert(trace(ops.skip(2), 0, inputs.skip(2)) =~= cleared);
    assert(trace(ops, 0, inputs) =~= seq![
        Action::Load(ints),
        Action::Store(ints, inputs[0] | 1),
        Action::Load(ints),
    ] + if inputs[1] & 1 != 0 {
        seq![Action::Fault]
    } else {
        cleared
    });
}

proof fn lemma_ready(ops: Seq<Op>, j: int, inputs: Seq<u32>, aligned: bool, op: Op)
    requires
        0 <= j < ops.len(),
        j < inputs.len(),
        op is Modify,
        ops[j] == if aligned {
            op
        } else {
            Op::Halt
        },
    ensures
        trace(ops.skip(j), 0, inputs.skip(j)) == if aligned {
            seq![
                Action::Load(op->Modify_0),
                Action::Store(op->Modify_0, op->Modify_1.apply(inputs[j])),
            ] + trace(ops.skip(j + 1), 0, inputs.skip(j + 1))
        } else {
            seq![Action::Fault]
        },
{
    lemma_unroll(ops, j, 0, inputs, j);
    lemma_unroll_plain(ops, j, 0, inputs, j);
}

} // verus!
