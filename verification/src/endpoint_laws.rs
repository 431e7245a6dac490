//! What holds of the transfers of every endpoint.
use crate::buffer::EndpointBuffer;
use crate::config::{addressable, out_pending, EndpointConfig, EP0IN, EP0OUT, SETUP, SETUP_LEN};
use crate::entry::{
    entry, lemma_active, lemma_nbytes, lemma_none, lemma_not_stalled, Entry, Update,
};
use crate::kinds::{EndpointStatus, EndpointType, UsbError};
use crate::trace_laws::{
    carried_out, law_in_order, law_isolated, law_takes_at_most, lemma_unroll, lemma_unroll_clear,
    lemma_unroll_plain, serves, stays_in, stores, takes_at_most,
};
use crate::transfer::{trace, Action, Op, Register};
use vstd::prelude::*;
use vstd::std_specs::convert::FromSpec;

verus! {

/// What the update of the optional operation makes of `word`.
pub open spec fn updated(op: Option<Op>, word: u32) -> u32 {
    op.unwrap()->Modify_1.apply(word)
}

/// The actions that change the register of the optional operation, which holds `word`.
pub open spec fn changing(op: Option<Op>, word: u32) -> Seq<Action> {
    match op {
        Some(Op::Modify(register, update)) => seq![
            Action::Load(register),
            Action::Store(register, update.apply(word)),
        ],
        _ => seq![],
    }
}

/// The update that takes a buffer from the controller and ends a stall.
pub open spec fn release() -> Update {
    Update::none().active(false).not_stalled()
}

/// The number of bytes that a read takes out of the OUT buffer, where the list's word is `word`.
pub open spec fn readable(c: EndpointConfig, room: usize, word: u32) -> usize {
    let left = (c.out_buf.unwrap().len - entry(word).nbytes) as usize;
    if left < room {
        left
    } else {
        room
    }
}

/// All that a write does, with an IN buffer that the controller can address: the buffer is
/// emptied, filled, and only then handed to the controller. An empty packet of endpoint zero
/// also makes the OUT buffer ready.
pub proof fn law_write_trace(c: EndpointConfig, len: usize, inputs: Seq<u32>)
    requires
        c.in_buf is Some,
        addressable(c.in_buf),
        c.index == 0 && len == 0 ==> addressable(c.out_buf),
        inputs.len() >= 4,
    ensures
        ({
            let k = if c.index == 0 { 1int } else { 2int };
            let status = if c.index == 0 {
                seq![Action::Load(Register::DevCmdStat)]
            } else {
                seq![Action::Load(Register::DevCmdStat), Action::Load(c.in_register())]
            };
            trace(c.write_ops(len), 0, inputs) == status + changing(c.in_op(), inputs[k]) + seq![
                Action::Transmit(c.in_buf.unwrap(), len),
            ] + changing(Some(c.send_op(len)), inputs[k + 1]) + changing(
                if c.index == 0 && len == 0 {
                    c.out_op()
                } else {
                    None
                },
                inputs[k + 2],
            ) + seq![Action::Done(len)]
        }),
{
    let ops = c.write_ops(len);
    let k = if c.index == 0 { 1int } else { 2int };
    let status = if c.index == 0 {
        seq![Action::Load(Register::DevCmdStat)]
    } else {
        seq![Action::Load(Register::DevCmdStat), Action::Load(c.in_register())]
    };
    let acknowledge = if c.index == 0 && len == 0 {
        c.out_op()
    } else {
        None
    };
    assert(ops.skip(0) =~= ops);
    assert(inputs.skip(0) =~= inputs);
    lemma_unroll(ops, 0, 0, inputs, 0);
    if c.index != 0 {
        lemma_unroll(ops, 1, 0, inputs, 1);
    }
    assert(ops[k] == c.in_op().unwrap());
    assert(ops[k + 1] == Op::Transmit(c.in_buf.unwrap(), len));
    assert(ops[k + 2] == c.send_op(len));
    lemma_unroll(ops, k, 0, inputs, k);
    lemma_unroll_plain(ops, k + 1, 0, inputs, k + 1);
    lemma_unroll(ops, k + 2, len, inputs, k + 1);
    if acknowledge is Some {
        assert(ops[k + 3] == c.out_op().unwrap());
        lemma_unroll(ops, k + 3, len, inputs, k + 2);
        lemma_unroll_plain(ops, k + 4, len, inputs, k + 3);
    } else {
        lemma_unroll_plain(ops, k + 3, len, inputs, k + 2);
    }
    assert(trace(ops, 0, inputs) =~= status + changing(c.in_op(), inputs[k]) + seq![
        Action::Transmit(c.in_buf.unwrap(), len),
    ] + changing(Some(c.send_op(len)), inputs[k + 1]) + changing(acknowledge, inputs[k + 2])
        + seq![Action::Done(len)]);
}

/// What a write leaves in the list: where nothing else changes the IN buffer's word meanwhile,
/// the controller gets a packet of the written length at the buffer's address, on an endpoint
/// that is neither disabled nor stalled.
pub proof fn law_write_arms(c: EndpointConfig, len: usize, word: u32)
    requires
        c.in_buf is Some,
    ensures
        entry(updated(Some(c.send_op(len)), updated(c.in_op(), word))) == (Entry {
            nbytes: len as nat % 0x400,
            addroff: (c.in_buf.unwrap().addr as nat / 64) % 0x1_0000,
            active: true,
            disabled: false,
            stalled: false,
            kept: entry(word).kept,
        }),
{
    let empty = updated(c.in_op(), word);
    c.lemma_in_edit(word);
    lemma_none(empty);
    lemma_nbytes(Update::none(), len, empty);
    lemma_active(Update::none().nbytes(len), true, empty);
}

/// All that the read of a SETUP packet does, where the controller clears the status bits that it
/// is told to clear. Without a buffer for OUT packets there is no such read.
///
/// The first value loaded says whether an interrupt for endpoint zero is to be cleared. If so,
/// there are two more loads before the next operation.
pub proof fn law_read_setup_trace(c: EndpointConfig, inputs: Seq<u32>)
    requires
        c.index == 0,
        c.setup_buf is Some,
        c.out_buf is Some,
        addressable(c.out_buf),
        inputs.len() >= 10,
        inputs[0] & EP0OUT != 0 ==> inputs[2] & EP0OUT == 0,
        ({
            let k = if inputs[0] & EP0OUT != 0 { 3int } else { 1int };
            inputs[k + 3] & EP0IN == 0 && inputs[k + 5] & SETUP == 0
        }),
    ensures
        ({
            let pending = inputs[0] & EP0OUT != 0;
            let k = if pending { 3int } else { 1int };
            let clear = |register: Register, bits: u32, word: u32|
                changing(Some(Op::Modify(register, Update::set(bits))), word) + seq![
                    Action::Load(register),
                ];
            let releasing = |register: Register, word: u32|
                changing(Some(Op::Modify(register, release())), word);
            trace(c.read_setup_ops(), 0, inputs) == seq![
                Action::Receive(c.setup_buf.unwrap(), SETUP_LEN),
                Action::Load(Register::IntStat),
            ] + (if pending {
                clear(Register::IntStat, EP0OUT, inputs[1])
            } else {
                seq![]
            }) + releasing(Register::Ep0Out, inputs[k]) + releasing(Register::Ep0In, inputs[k + 1])
                + clear(Register::IntStat, EP0IN, inputs[k + 2]) + clear(
                Register::DevCmdStat,
                SETUP,
                inputs[k + 4],
            ) + changing(c.out_op(), inputs[k + 6]) + seq![Action::Done(SETUP_LEN)]
        }),
{
    let ops = c.read_setup_ops();
    let pending = inputs[0] & EP0OUT != 0;
    let k = if pending { 3int } else { 1int };
    assert(ops.skip(0) =~= ops);
    assert(inputs.skip(0) =~= inputs);
    lemma_unroll_plain(ops, 0, 0, inputs, 0);
    if pending {
        lemma_unroll_clear(ops, 1, SETUP_LEN, inputs, 0);
    } else {
        lemma_unroll(ops, 1, SETUP_LEN, inputs, 0);
    }
    assert(ops[8] == c.out_op().unwrap());
    lemma_unroll(ops, 2, SETUP_LEN, inputs, k);
    lemma_unroll(ops, 3, SETUP_LEN, inputs, k + 1);
    lemma_unroll(ops, 4, SETUP_LEN, inputs, k + 2);
    lemma_unroll(ops, 5, SETUP_LEN, inputs, k + 3);
    lemma_unroll(ops, 6, SETUP_LEN, inputs, k + 4);
    lemma_unroll(ops, 7, SETUP_LEN, inputs, k + 5);
    lemma_unroll(ops, 8, SETUP_LEN, inputs, k + 6);
    lemma_unroll_plain(ops, 9, SETUP_LEN, inputs, k + 7);
    let clear = |register: Register, bits: u32, word: u32|
        changing(Some(Op::Modify(register, Update::set(bits))), word) + seq![
            Action::Load(register),
        ];
    let releasing = |register: Register, word: u32|
        changing(Some(Op::Modify(register, release())), word);
    assert(trace(ops, 0, inputs) =~= seq![
        Action::Receive(c.setup_buf.unwrap(), SETUP_LEN),
        Action::Load(Register::IntStat),
    ] + (if pending {
        clear(Register::IntStat, EP0OUT, inputs[1])
    } else {
        seq![]
    }) + releasing(Register::Ep0Out, inputs[k]) + releasing(Register::Ep0In, inputs[k + 1]) + clear(
        Register::IntStat,
        EP0IN,
        inputs[k + 2],
    ) + clear(Register::DevCmdStat, SETUP, inputs[k + 4]) + changing(c.out_op(), inputs[k + 6])
        + seq![Action::Done(SETUP_LEN)]);
}

/// All that the read of a data packet of endpoint zero does: the bytes that have arrived are
/// taken out, then the buffer is given back, then the interrupt is cleared. A byte count beyond
/// the buffer's length is a fault.
pub proof fn law_read_control_trace(c: EndpointConfig, room: usize, inputs: Seq<u32>)
    requires
        c.index == 0,
        c.out_buf is Some,
        addressable(c.out_buf),
        inputs.len() >= 3,
    ensures
        ({
            let count = readable(c, room, inputs[0]);
            trace(c.read_control_ops(room), 0, inputs) == seq![Action::Load(Register::Ep0Out)]
                + if entry(inputs[0]).nbytes > c.out_buf.unwrap().len {
                seq![Action::Fault]
            } else {
                seq![Action::Receive(c.out_buf.unwrap(), count)] + changing(c.out_op(), inputs[1])
                    + changing(
                    Some(Op::Modify(Register::IntStat, Update::set(EP0OUT))),
                    inputs[2],
                ) + seq![Action::Done(count)]
            }
        }),
{
    let ops = c.read_control_ops(room);
    let count = readable(c, room, inputs[0]);
    assert(ops.skip(0) =~= ops);
    assert(inputs.skip(0) =~= inputs);
    assert(ops[1] == c.out_op().unwrap());
    lemma_unroll(ops, 0, 0, inputs, 0);
    lemma_unroll(ops, 1, count, inputs, 1);
    lemma_unroll(ops, 2, count, inputs, 2);
    lemma_unroll_plain(ops, 3, count, inputs, 3);
    if entry(inputs[0]).nbytes <= c.out_buf.unwrap().len {
        assert(trace(ops, 0, inputs) =~= seq![Action::Load(Register::Ep0Out)] + (seq![
            Action::Receive(c.out_buf.unwrap(), count),
        ] + changing(c.out_op(), inputs[1]) + changing(
            Some(Op::Modify(Register::IntStat, Update::set(EP0OUT))),
            inputs[2],
        ) + seq![Action::Done(count)]));
    }
}

/// All that the read of a packet of another endpoint does: nothing while the controller owns the
/// buffer; else the bytes that have arrived are taken out, then the endpoint's interrupt is
/// cleared, then the buffer is given back. A byte count beyond the buffer's length is a fault.
pub proof fn law_read_data_trace(c: EndpointConfig, room: usize, inputs: Seq<u32>)
    requires
        c.index != 0,
        c.out_buf is Some,
        addressable(c.out_buf),
        inputs.len() >= 3,
    ensures
        ({
            let r = c.out_register();
            let count = readable(c, room, inputs[1]);
            trace(c.read_data_ops(room), 0, inputs) == seq![Action::Load(r)] + if entry(
                inputs[0],
            ).active {
                seq![Action::Failed(UsbError::WouldBlock)]
            } else if entry(inputs[1]).nbytes > c.out_buf.unwrap().len {
                seq![Action::Load(r), Action::Fault]
            } else {
                seq![
                    Action::Load(r),
                    Action::Receive(c.out_buf.unwrap(), count),
                    Action::Store(Register::IntStat, 1u32 << (2 * c.index) as u32),
                ] + changing(c.out_op(), inputs[2]) + seq![Action::Done(count)]
            }
        }),
{
    let ops = c.read_data_ops(room);
    let r = c.out_register();
    let count = readable(c, room, inputs[1]);
    assert(ops.skip(0) =~= ops);
    assert(inputs.skip(0) =~= inputs);
    assert(ops[3] == c.out_op().unwrap());
    lemma_unroll(ops, 0, 0, inputs, 0);
    lemma_unroll(ops, 1, 0, inputs, 1);
    lemma_unroll_plain(ops, 2, count, inputs, 2);
    lemma_unroll(ops, 3, count, inputs, 2);
    lemma_unroll_plain(ops, 4, count, inputs, 3);
    if !entry(inputs[0]).active {
        if entry(inputs[1]).nbytes > c.out_buf.unwrap().len {
            assert(trace(ops, 0, inputs) =~= seq![Action::Load(r)] + seq![
                Action::Load(r),
                Action::Fault,
            ]);
        } else {
            assert(trace(ops, 0, inputs) =~= seq![Action::Load(r)] + (seq![
                Action::Load(r),
                Action::Receive(c.out_buf.unwrap(), count),
                Action::Store(Register::IntStat, 1u32 << (2 * c.index) as u32),
            ] + changing(c.out_op(), inputs[2]) + seq![Action::Done(count)]));
        }
    }
}

/// An endpoint without a transfer type is not configured: nothing is loaded or stored.
pub proof fn law_configure_untyped(c: EndpointConfig, inputs: Seq<u32>)
    requires
        c.ep_type is None,
    ensures
        trace(c.configure_ops(), 0, inputs) == seq![Action::Done(0)],
{
}

/// All that a configuration does, with buffers that the controller can address and where the
/// controller clears the interrupts that it is told to clear: it clears the interrupts of
/// endpoint zero and makes ready each buffer that is set, that for SETUP packets for endpoint
/// zero only.
pub proof fn law_configure_trace(c: EndpointConfig, inputs: Seq<u32>)
    requires
        c.ep_type is Some,
        addressable(c.out_buf),
        c.index == 0 ==> addressable(c.setup_buf),
        addressable(c.in_buf),
        inputs.len() >= 7,
        inputs[1] & EP0OUT == 0,
        inputs[3] & EP0IN == 0,
    ensures
        ({
            let clear = |bits: u32, word: u32|
                changing(Some(Op::Modify(Register::IntStat, Update::set(bits))), word) + seq![
                    Action::Load(Register::IntStat),
                ];
            let setup = if c.index == 0 { c.setup_op() } else { None };
            let k = if c.out_buf is Some { 5int } else { 4int };
            let l = if setup is Some { k + 1 } else { k };
            trace(c.configure_ops(), 0, inputs) == clear(EP0OUT, inputs[0]) + clear(
                EP0IN,
                inputs[2],
            ) + changing(c.out_op(), inputs[4]) + changing(setup, inputs[k]) + changing(
                c.in_op(),
                inputs[l],
            ) + seq![Action::Done(0)]
        }),
{
    let ops = c.configure_ops();
    let clear = |bits: u32, word: u32|
        changing(Some(Op::Modify(Register::IntStat, Update::set(bits))), word) + seq![
            Action::Load(Register::IntStat),
        ];
    let setup = if c.index == 0 { c.setup_op() } else { None };
    let k = if c.out_buf is Some { 5int } else { 4int };
    let l = if setup is Some { k + 1 } else { k };
    let e = if c.in_buf is Some { l + 1 } else { l };
    assert(ops.skip(0) =~= ops);
    assert(inputs.skip(0) =~= inputs);
    lemma_unroll(ops, 0, 0, inputs, 0);
    lemma_unroll(ops, 1, 0, inputs, 1);
    lemma_unroll(ops, 2, 0, inputs, 2);
    lemma_unroll(ops, 3, 0, inputs, 3);
    if c.out_buf is Some {
        assert(ops[4] == c.out_op().unwrap());
        lemma_unroll(ops, 4, 0, inputs, 4);
    }
    if setup is Some {
        assert(ops[k] == setup.unwrap());
        lemma_unroll(ops, k, 0, inputs, k);
    }
    if c.in_buf is Some {
        assert(ops[l] == c.in_op().unwrap());
        lemma_unroll(ops, l, 0, inputs, l);
    }
    lemma_unroll_plain(ops, e, 0, inputs, e);
    assert(trace(ops, 0, inputs) =~= clear(EP0OUT, inputs[0]) + clear(EP0IN, inputs[2]) + changing(
        c.out_op(),
        inputs[4],
    ) + changing(setup, inputs[k]) + changing(c.in_op(), inputs[l]) + seq![Action::Done(0)]);
}

/// Whatever the controller answers, the status bit for SETUP packets is written only after the
/// packet was taken, both buffers of endpoint zero were taken from the controller and their
/// stalls ended, and the interrupt for the IN buffer was written.
pub proof fn law_setup_status_last(c: EndpointConfig, inputs: Seq<u32>, k: int)
    requires
        0 <= k < trace(c.read_setup_ops(), 0, inputs).len(),
        stores(trace(c.read_setup_ops(), 0, inputs)[k], Register::DevCmdStat),
    ensures
        ({
            let t = trace(c.read_setup_ops(), 0, inputs);
            let released = |action: Action, register: Register|
                stores(action, register) && !entry(action->Store_1).active && !entry(
                    action->Store_1,
                ).stalled;
            &&& exists|p: int|
                0 <= p < k && #[trigger] t[p] == Action::Receive(c.setup_buf.unwrap(), SETUP_LEN)
            &&& exists|p: int| 0 <= p < k && released(#[trigger] t[p], Register::Ep0Out)
            &&& exists|p: int| 0 <= p < k && released(#[trigger] t[p], Register::Ep0In)
            &&& exists|p: int|
                0 <= p < k && stores(#[trigger] t[p], Register::IntStat) && t[p]->Store_1 & EP0IN
                    != 0
        }),
{
    let ops = c.read_setup_ops();
    let t = trace(ops, 0, inputs);
    law_in_order(ops, 0, inputs, 6, Register::DevCmdStat, k);
    assert(carried_out(ops[0], t, k));
    let p = choose|p: int| 0 <= p < k && serves(#[trigger] t[p], ops[0]);
    assert(t[p] == Action::Receive(c.setup_buf.unwrap(), SETUP_LEN));
    assert(carried_out(ops[2], t, k));
    let p = choose|p: int| 0 <= p < k && serves(#[trigger] t[p], ops[2]);
    let v = choose|v: u32| t[p] == Action::Store(Register::Ep0Out, #[trigger] release().apply(v));
    lemma_release(v);
    assert(stores(t[p], Register::Ep0Out));
    assert(carried_out(ops[3], t, k));
    let q = choose|q: int| 0 <= q < k && serves(#[trigger] t[q], ops[3]);
    let w = choose|w: u32| t[q] == Action::Store(Register::Ep0In, #[trigger] release().apply(w));
    lemma_release(w);
    assert(stores(t[q], Register::Ep0In));
    assert(carried_out(ops[4], t, k));
    let r = choose|r: int| 0 <= r < k && serves(#[trigger] t[r], ops[4]);
    let x = choose|x: u32|
        t[r] == Action::Store(Register::IntStat, #[trigger] Update::set(EP0IN).apply(x));
    assert(((x & !2u32) | 2u32) & 2u32 != 0) by (bit_vector);
    assert(stores(t[r], Register::IntStat));
}

/// A released buffer is not the controller's, and its endpoint not stalled; the rest of the
/// list's word stays.
pub proof fn lemma_release(word: u32)
    ensures
        entry(release().apply(word)) == (Entry { active: false, stalled: false, ..entry(word) }),
{
    lemma_none(word);
    lemma_active(Update::none(), false, word);
    lemma_not_stalled(Update::none().active(false), word);
}

/// Whatever the controller answers, a read stores the OUT buffer's word, and with it can give the
/// buffer back, only after it has taken a packet out of a buffer.
pub proof fn law_read_takes_first(
    c: EndpointConfig,
    room: usize,
    devcmdstat: u32,
    intstat: u32,
    inputs: Seq<u32>,
    k: int,
)
    requires
        c.read_plan(room, devcmdstat, intstat) is Ok,
        ({
            let t = trace(c.read_plan(room, devcmdstat, intstat)->Ok_0, 0, inputs);
            0 <= k < t.len() && stores(t[k], c.out_register())
        }),
    ensures
        ({
            let t = trace(c.read_plan(room, devcmdstat, intstat)->Ok_0, 0, inputs);
            exists|p: int| 0 <= p < k && (#[trigger] t[p]) is Receive
        }),
{
    let ops = c.read_plan(room, devcmdstat, intstat)->Ok_0;
    let t = trace(ops, 0, inputs);
    let taking = if c.index == 0 { 0int } else { 1int };
    law_in_order(ops, 0, inputs, taking + 1, c.out_register(), k);
    assert(carried_out(ops[taking], t, k));
    let p = choose|p: int| 0 <= p < k && serves(#[trigger] t[p], ops[taking]);
    assert(t[p] is Receive);
}

/// Whatever the controller answers, a read takes no more bytes than the caller has room for.
pub proof fn law_read_fits(
    c: EndpointConfig,
    room: usize,
    devcmdstat: u32,
    intstat: u32,
    inputs: Seq<u32>,
    k: int,
)
    requires
        c.read_plan(room, devcmdstat, intstat) is Ok,
        0 <= k < trace(c.read_plan(room, devcmdstat, intstat)->Ok_0, 0, inputs).len(),
    ensures
        trace(c.read_plan(room, devcmdstat, intstat)->Ok_0, 0, inputs)[k] matches Action::Receive(
            _,
            count,
        ) ==> count <= room,
{
    let ops = c.read_plan(room, devcmdstat, intstat)->Ok_0;
    assert(forall|i: int| 0 <= i < ops.len() ==> takes_at_most(#[trigger] ops[i], room));
    law_takes_at_most(ops, 0, inputs, room, k);
}

/// The registers of an endpoint: the two status registers and its own words of the list.
pub open spec fn registers_of(c: EndpointConfig) -> Set<Register> {
    let own = set![
        Register::IntStat,
        Register::DevCmdStat,
        c.out_register(),
        c.in_register(),
    ];
    if c.index == 0 {
        own.insert(Register::Setup)
    } else {
        own
    }
}

/// Whatever the controller answers, an endpoint accesses no register but its own when it is
/// configured, writes or reads.
pub proof fn law_endpoint_isolated(
    c: EndpointConfig,
    ops: Seq<Op>,
    len: usize,
    room: usize,
    devcmdstat: u32,
    intstat: u32,
    inputs: Seq<u32>,
    k: int,
    register: Register,
)
    requires
        ops == c.configure_ops() || ops == c.write_ops(len) || c.read_plan(room, devcmdstat, intstat)
            == Ok::<_, UsbError>(ops),
        0 <= k < trace(ops, 0, inputs).len(),
        trace(ops, 0, inputs)[k].accesses(register),
    ensures
        registers_of(c).contains(register),
{
    let own = registers_of(c);
    assert(forall|i: int| 0 <= i < ops.len() ==> stays_in(#[trigger] ops[i], own));
    law_isolated(ops, 0, inputs, own);
}

/// Two endpoints have no word of the list in common.
pub proof fn law_endpoints_apart(c: EndpointConfig, d: EndpointConfig, register: Register)
    requires
        c.index != d.index,
        registers_of(c).contains(register),
        registers_of(d).contains(register),
    ensures
        register is IntStat || register is DevCmdStat,
{
}

/// A write leaves the OUT buffer alone, but for an empty packet of endpoint zero.
pub proof fn law_write_keeps_out(c: EndpointConfig, len: usize, inputs: Seq<u32>, k: int)
    requires
        c.index != 0 || len != 0,
        0 <= k < trace(c.write_ops(len), 0, inputs).len(),
    ensures
        !trace(c.write_ops(len), 0, inputs)[k].accesses(c.out_register()),
{
    let ops = c.write_ops(len);
    let own = set![Register::DevCmdStat, c.in_register()];
    assert(forall|i: int| 0 <= i < ops.len() ==> stays_in(#[trigger] ops[i], own));
    law_isolated(ops, 0, inputs, own);
}

/// The value with which a read clears the interrupt of an endpoint stands for that endpoint's
/// OUT packets alone.
pub proof fn law_clears_own_interrupt(index: u8, other: u8)
    requires
        index < 16,
        other < 16,
    ensures
        out_pending(1u32 << (2 * index) as u32, other) == (index == other),
{
    let (i, o) = ((2 * index) as u32, (2 * other) as u32);
    assert((((1u32 << i) >> o) & 1 != 0) == (i == o)) by (bit_vector)
        requires
            i < 32,
            o < 32,
    ;
}

/// What the controller changes of the OUT buffer's word, a reset changes back: byte count,
/// offset, owner and stall are again those of the last reset.
pub proof fn law_reset_out_restores(c: EndpointConfig, before: u32, word: u32)
    requires
        c.out_buf is Some,
        entry(word).kept == entry(updated(c.out_op(), before)).kept,
        c.index == 0 ==> entry(word).disabled == entry(updated(c.out_op(), before)).disabled,
    ensures
        updated(c.out_op(), word) == updated(c.out_op(), before),
{
    c.lemma_out_edit(before);
    c.lemma_out_edit(word);
    law_entry_is_word(updated(c.out_op(), word), updated(c.out_op(), before));
}

/// The same for the IN buffer, but that a reset leaves the owner as it is for any endpoint but
/// zero.
pub proof fn law_reset_in_restores(c: EndpointConfig, before: u32, word: u32)
    requires
        c.in_buf is Some,
        entry(word).kept == entry(updated(c.in_op(), before)).kept,
        c.index != 0 ==> entry(word).active == entry(updated(c.in_op(), before)).active,
    ensures
        updated(c.in_op(), word) == updated(c.in_op(), before),
{
    c.lemma_in_edit(before);
    c.lemma_in_edit(word);
    law_entry_is_word(updated(c.in_op(), word), updated(c.in_op(), before));
}

/// A word of the list is nothing but its fields.
pub proof fn law_entry_is_word(a: u32, b: u32)
    requires
        entry(a) == entry(b),
    ensures
        a == b,
{
    reveal(entry);
    assert(a == b) by (bit_vector)
        requires
            a % 0x1_0000 == b % 0x1_0000,
            (a / 0x1_0000) % 0x400 == (b / 0x1_0000) % 0x400,
            (a / 0x400_0000) % 8 == (b / 0x400_0000) % 8,
            ((a / 0x2000_0000) % 2 == 1) == ((b / 0x2000_0000) % 2 == 1),
            ((a / 0x4000_0000) % 2 == 1) == ((b / 0x4000_0000) % 2 == 1),
            ((a / 0x8000_0000) % 2 == 1) == ((b / 0x8000_0000) % 2 == 1),
    ;
}

/// The list's offset finds an addressable buffer again: together with the bits above it, which
/// the controller has from elsewhere, it is the buffer's address.
pub proof fn law_offset_is_address(buffer: EndpointBuffer)
    requires
        buffer.is_aligned(),
    ensures
        (buffer.addr as int / 0x40_0000) * 0x40_0000 + buffer.spec_addroff() * 64
            == buffer.addr as int,
{
}

/// Each status is decoded from its place in the order of the statuses, and from no other
/// number but for a disabled endpoint.
pub proof fn law_status_decoding(v: u8)
    ensures
        (EndpointStatus::from_spec(v) is Stall) == (v == 1),
        (EndpointStatus::from_spec(v) is Nak) == (v == 2),
        (EndpointStatus::from_spec(v) is Valid) == (v == 3),
        (EndpointStatus::from_spec(v) is Disabled) == (v == 0 || v > 3),
{
}

/// Different transfer types are encoded in different ways, in two bits.
pub proof fn law_type_encoding(a: EndpointType, b: EndpointType)
    ensures
        a.bits() < 4,
        a.bits() == b.bits() ==> a == b,
{
}

} // verus!
