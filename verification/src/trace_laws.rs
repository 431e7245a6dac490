//! What holds of every transfer.
use crate::entry::{entry, Update};
use crate::kinds::UsbError;
use crate::transfer::{trace, Action, Op, Progress, Register};
use vstd::prelude::*;

verus! {

/// What a transfer does from where it stands, where the registers that it loads from then on
/// have the values `inputs`.
pub open spec fn remaining(progress: Progress, inputs: Seq<u32>) -> Seq<Action> {
    match progress.waiting {
        None => trace(progress.ops, progress.moved, inputs),
        Some(op) => if inputs.len() == 0 {
            seq![]
        } else {
            trace(op.answer(inputs[0]) + progress.ops, progress.moved, inputs.drop_first())
        },
    }
}

/// A step carries out the first action that remains, and leaves the others: stepping through a
/// transfer gives its trace.
pub proof fn law_step_follows_trace(progress: Progress, inputs: Seq<u32>)
    requires
        progress.waiting is Some ==> inputs.len() > 0,
    ensures
        ({
            let later = if progress.waiting is Some { inputs.drop_first() } else { inputs };
            let (next, action) = progress.advance(inputs[0]);
            remaining(progress, inputs) == seq![action] + if action is Done || action is Failed
                || action is Fault {
                seq![]
            } else {
                remaining(next, later)
            }
        }),
{
    let later = if progress.waiting is Some { inputs.drop_first() } else { inputs };
    let ops = progress.resumed(inputs[0]);
    let (next, action) = progress.advance(inputs[0]);
    assert(remaining(progress, inputs) == trace(ops, progress.moved, later));
    if action.is_last() {
        assert(seq![action] + Seq::<Action>::empty() =~= seq![action]);
    }
}

/// How many loads the operation makes at most.
pub open spec fn loads_of(op: Op) -> nat {
    match op {
        Op::ClearIfSet(_, _) => 3,
        _ => if op.loads() is Some {
            1
        } else {
            0
        },
    }
}

/// How many loads the operations make at most.
pub open spec fn loads_in(ops: Seq<Op>) -> nat
    decreases ops.len(),
{
    if ops.len() == 0 {
        0
    } else {
        loads_of(ops[0]) + loads_in(ops.drop_first())
    }
}

/// Every transfer ends: once it had as many values as its operations can load, it is done, has
/// failed or has faulted.
pub proof fn law_ends(ops: Seq<Op>, moved: usize, inputs: Seq<u32>)
    requires
        inputs.len() >= loads_in(ops),
    ensures
        trace(ops, moved, inputs).len() > 0,
        trace(ops, moved, inputs).last().is_last(),
    decreases inputs.len(), ops.len(),
{
    if ops.len() > 0 {
        let rest = ops.drop_first();
        match ops[0] {
            Op::Store(_, _) => {
                law_ends(rest, moved, inputs);
            },
            Op::Receive(_, count) => {
                law_ends(rest, count, inputs);
            },
            Op::Transmit(_, count) => {
                law_ends(rest, count, inputs);
            },
            Op::Fail(_) => {},
            Op::Halt => {},
            op => {
                let now = op.answer(inputs[0]);
                lemma_loads_after(now, rest);
                lemma_loads_answer(op, inputs[0]);
                law_ends(now + rest, moved, inputs.drop_first());
            },
        }
    }
}

proof fn lemma_loads_answer(op: Op, loaded: u32)
    requires
        op.loads() is Some,
    ensures
        loads_in(op.answer(loaded)) + 1 <= loads_of(op),
{
    reveal_with_fuel(loads_in, 3);
    let now = op.answer(loaded);
    if now.len() == 1 {
        assert(now.drop_first() =~= seq![]);
    }
    if now.len() == 2 {
        assert(now.drop_first().drop_first() =~= seq![]);
    }
}

proof fn lemma_loads_after(front: Seq<Op>, back: Seq<Op>)
    ensures
        loads_in(front + back) == loads_in(front) + loads_in(back),
    decreases front.len(),
{
    if front.len() == 0 {
        assert(front + back =~= back);
    } else {
        assert((front + back).drop_first() =~= front.drop_first() + back);
        lemma_loads_after(front.drop_first(), back);
    }
}

/// Whether the operation can load or store no register outside `registers`.
pub open spec fn stays_in(op: Op, registers: Set<Register>) -> bool {
    match op {
        Op::Store(register, _) => registers.contains(register),
        _ => op.loads() is Some ==> registers.contains(op.loads().unwrap()),
    }
}

/// A transfer accesses no register but those of its operations.
pub proof fn law_isolated(ops: Seq<Op>, moved: usize, inputs: Seq<u32>, registers: Set<Register>)
    requires
        forall|i: int| 0 <= i < ops.len() ==> stays_in(#[trigger] ops[i], registers),
    ensures
        forall|k: int, register: Register|
            0 <= k < trace(ops, moved, inputs).len() && #[trigger] trace(
                ops,
                moved,
                inputs,
            )[k].accesses(register) ==> registers.contains(register),
    decreases inputs.len(), ops.len(),
{
    let t = trace(ops, moved, inputs);
    if ops.len() > 0 {
        let rest = ops.drop_first();
        assert(stays_in(ops[0], registers));
        match ops[0] {
            Op::Store(_, _) => {
                law_isolated(rest, moved, inputs, registers);
                lemma_isolated_after(t, trace(rest, moved, inputs), registers);
            },
            Op::Receive(_, count) => {
                law_isolated(rest, count, inputs, registers);
                lemma_isolated_after(t, trace(rest, count, inputs), registers);
            },
            Op::Transmit(_, count) => {
                law_isolated(rest, count, inputs, registers);
                lemma_isolated_after(t, trace(rest, count, inputs), registers);
            },
            Op::Fail(_) => {},
            Op::Halt => {},
            op => {
                if inputs.len() > 0 {
                    let now = op.answer(inputs[0]) + rest;
                    assert forall|i: int| 0 <= i < now.len() implies stays_in(
                        #[trigger] now[i],
                        registers,
                    ) by {
                        if i >= op.answer(inputs[0]).len() {
                            assert(now[i] == ops[i - op.answer(inputs[0]).len() + 1]);
                        }
                    }
                    law_isolated(now, moved, inputs.drop_first(), registers);
                    lemma_isolated_after(
                        t,
                        trace(now, moved, inputs.drop_first()),
                        registers,
                    );
                }
            },
        }
    }
}

proof fn lemma_isolated_after(t: Seq<Action>, later: Seq<Action>, registers: Set<Register>)
    requires
        t.len() == later.len() + 1,
        t.drop_first() =~= later,
        forall|register: Register| t[0].accesses(register) ==> registers.contains(register),
        forall|k: int, register: Register|
            0 <= k < later.len() && #[trigger] later[k].accesses(register) ==> registers.contains(
                register,
            ),
    ensures
        forall|k: int, register: Register|
            0 <= k < t.len() && #[trigger] t[k].accesses(register) ==> registers.contains(register),
{
    assert forall|k: int, register: Register|
        0 <= k < t.len() && #[trigger] t[k].accesses(register) implies registers.contains(
        register,
    ) by {
        if k > 0 {
            assert(t[k] == later[k - 1]);
        }
    }
}

/// Whether the operation can store the register.
pub open spec fn can_store(op: Op, register: Register) -> bool {
    match op {
        Op::Modify(r, _) => r == register,
        Op::Store(r, _) => r == register,
        Op::ClearIfSet(r, _) => r == register,
        _ => false,
    }
}

/// Whether the action stores the register.
pub open spec fn stores(action: Action, register: Register) -> bool {
    action is Store && action->Store_0 == register
}

/// Whether the action is one that the operation is there for.
pub open spec fn serves(action: Action, op: Op) -> bool {
    match op {
        Op::Modify(register, update) => exists|loaded: u32|
            action == Action::Store(register, #[trigger] update.apply(loaded)),
        Op::Store(register, value) => action == Action::Store(register, value),
        Op::Receive(buffer, count) => action == Action::Receive(buffer, count),
        Op::ReceiveRest(_, buffer, limit) => {
            &&& action is Receive
            &&& action->Receive_0 == buffer
            &&& action->Receive_1 <= limit
            &&& action->Receive_1 <= buffer.len
        },
        Op::Transmit(buffer, count) => action == Action::Transmit(buffer, count),
        Op::Fail(error) => action == Action::Failed(error),
        Op::Halt => action == Action::Fault,
        _ => op.loads() == Some(action->Load_0) && action is Load,
    }
}

/// Whether one of the first `k` actions is one that the operation is there for.
pub open spec fn carried_out(op: Op, actions: Seq<Action>, k: int) -> bool {
    exists|p: int| 0 <= p < k && serves(#[trigger] actions[p], op)
}

/// Operations are carried out in their order: where a transfer stores a register that none of
/// the first `j` operations can store, it has carried out all of these before.
pub proof fn law_in_order(
    ops: Seq<Op>,
    moved: usize,
    inputs: Seq<u32>,
    j: int,
    register: Register,
    k: int,
)
    requires
        0 <= j <= ops.len(),
        forall|i: int| 0 <= i < j ==> !can_store(#[trigger] ops[i], register),
        0 <= k < trace(ops, moved, inputs).len(),
        stores(trace(ops, moved, inputs)[k], register),
    ensures
        forall|i: int|
            0 <= i < j ==> carried_out(#[trigger] ops[i], trace(ops, moved, inputs), k),
{
    lemma_in_order(ops, moved, inputs, j, Some(register), k);
}

/// A transfer that is done has carried out all its operations.
pub proof fn law_done_is_all(ops: Seq<Op>, moved: usize, inputs: Seq<u32>, k: int)
    requires
        0 <= k < trace(ops, moved, inputs).len(),
        trace(ops, moved, inputs)[k] is Done,
    ensures
        forall|i: int|
            0 <= i < ops.len() ==> carried_out(#[trigger] ops[i], trace(ops, moved, inputs), k),
{
    lemma_in_order(ops, moved, inputs, ops.len() as int, None, k);
}

/// How many bytes the last copy among the actions moves, or `moved` where there is none.
pub open spec fn moved_by(actions: Seq<Action>, moved: usize) -> usize
    decreases actions.len(),
{
    if actions.len() == 0 {
        moved
    } else {
        moved_by(
            actions.drop_first(),
            match actions[0] {
                Action::Receive(_, count) => count,
                Action::Transmit(_, count) => count,
                _ => moved,
            },
        )
    }
}

/// A transfer says that it is done, has failed or has faulted once, at its end, and the number
/// that it gives when it is done is that of the bytes it moved.
pub proof fn law_reports_moved(ops: Seq<Op>, moved: usize, inputs: Seq<u32>, k: int)
    requires
        0 <= k < trace(ops, moved, inputs).len(),
        trace(ops, moved, inputs)[k].is_last(),
    ensures
        k == trace(ops, moved, inputs).len() - 1,
        trace(ops, moved, inputs)[k] matches Action::Done(count) ==> count == moved_by(
            trace(ops, moved, inputs),
            moved,
        ),
    decreases inputs.len(), ops.len(),
{
    let t = trace(ops, moved, inputs);
    if ops.len() == 0 {
        assert(moved_by(t.drop_first(), moved) == moved);
    } else {
        let rest = ops.drop_first();
        match ops[0] {
            Op::Store(_, _) => {
                assert(t.drop_first() =~= trace(rest, moved, inputs));
                law_reports_moved(rest, moved, inputs, k - 1);
            },
            Op::Receive(_, count) => {
                assert(t.drop_first() =~= trace(rest, count, inputs));
                law_reports_moved(rest, count, inputs, k - 1);
            },
            Op::Transmit(_, count) => {
                assert(t.drop_first() =~= trace(rest, count, inputs));
                law_reports_moved(rest, count, inputs, k - 1);
            },
            Op::Fail(_) => {},
            Op::Halt => {},
            op => {
                let now = op.answer(inputs[0]) + rest;
                assert(t.drop_first() =~= trace(now, moved, inputs.drop_first()));
                law_reports_moved(now, moved, inputs.drop_first(), k - 1);
            },
        }
    }
}

/// Whether the operation takes no more than `room` bytes out of a buffer.
pub open spec fn takes_at_most(op: Op, room: usize) -> bool {
    match op {
        Op::Receive(_, count) => count <= room,
        Op::ReceiveRest(_, _, limit) => limit <= room,
        _ => true,
    }
}

/// A transfer takes no more bytes out of a buffer than its operations allow.
pub proof fn law_takes_at_most(ops: Seq<Op>, moved: usize, inputs: Seq<u32>, room: usize, k: int)
    requires
        forall|i: int| 0 <= i < ops.len() ==> takes_at_most(#[trigger] ops[i], room),
        0 <= k < trace(ops, moved, inputs).len(),
    ensures
        trace(ops, moved, inputs)[k] matches Action::Receive(_, count) ==> count <= room,
    decreases inputs.len(), ops.len(),
{
    let t = trace(ops, moved, inputs);
    if ops.len() > 0 && k > 0 {
        let rest = ops.drop_first();
        assert forall|i: int| 0 <= i < rest.len() implies takes_at_most(
            #[trigger] rest[i],
            room,
        ) by {
            assert(rest[i] == ops[i + 1]);
        }
        match ops[0] {
            Op::Store(_, _) => {
                assert(t[k] == trace(rest, moved, inputs)[k - 1]);
                law_takes_at_most(rest, moved, inputs, room, k - 1);
            },
            Op::Receive(_, count) => {
                assert(t[k] == trace(rest, count, inputs)[k - 1]);
                law_takes_at_most(rest, count, inputs, room, k - 1);
            },
            Op::Transmit(_, count) => {
                assert(t[k] == trace(rest, count, inputs)[k - 1]);
                law_takes_at_most(rest, count, inputs, room, k - 1);
            },
            Op::Fail(_) => {},
            Op::Halt => {},
            op => {
                let front = op.answer(inputs[0]);
                let now = front + rest;
                assert(takes_at_most(ops[0], room));
                assert forall|i: int| 0 <= i < now.len() implies takes_at_most(
                    #[trigger] now[i],
                    room,
                ) by {
                    if i >= front.len() {
                        assert(now[i] == rest[i - front.len()]);
                    }
                }
                assert(t[k] == trace(now, moved, inputs.drop_first())[k - 1]);
                law_takes_at_most(now, moved, inputs.drop_first(), room, k - 1);
            },
        }
    } else if ops.len() > 0 {
        assert(takes_at_most(ops[0], room));
    }
}

/// The actions of the first operation of those from `j` on, where the next value to be loaded is
/// that of `inputs` at `k`.
pub(crate) proof fn lemma_unroll(ops: Seq<Op>, j: int, moved: usize, inputs: Seq<u32>, k: int)
    requires
        0 <= j < ops.len(),
        0 <= k < inputs.len(),
    ensures
        ({
            let here = trace(ops.skip(j), moved, inputs.skip(k));
            let v = inputs[k];
            let next = trace(ops.skip(j + 1), moved, inputs.skip(k + 1));
            match ops[j] {
                Op::Sample(r) => here == seq![Action::Load(r)] + next,
                Op::Modify(r, u) => here == seq![Action::Load(r), Action::Store(r, u.apply(v))]
                    + next,
                Op::ExpectClear(r, bits) => here == seq![Action::Load(r)] + if v & bits != 0 {
                    seq![Action::Fault]
                } else {
                    next
                },
                Op::ClearIfSet(r, bits) => v & bits == 0 ==> here == seq![Action::Load(r)] + next,
                Op::ExpectIdle(r) => here == seq![Action::Load(r)] + if entry(v).active {
                    seq![Action::Failed(UsbError::WouldBlock)]
                } else {
                    next
                },
                Op::ReceiveRest(r, buffer, limit) => here == seq![Action::Load(r)] + if entry(
                    v,
                ).nbytes > buffer.len {
                    seq![Action::Fault]
                } else {
                    let left = (buffer.len - entry(v).nbytes) as usize;
                    let count = if left < limit { left } else { limit };
                    seq![Action::Receive(buffer, count)] + trace(
                        ops.skip(j + 1),
                        count,
                        inputs.skip(k + 1),
                    )
                },
                _ => true,
            }
        }),
{
    reveal_with_fuel(trace, 2);
    let op = ops[j];
    let after = ops.skip(j + 1);
    let later = inputs.skip(k + 1);
    assert(ops.skip(j)[0] == op);
    assert(ops.skip(j).drop_first() =~= after);
    assert(inputs.skip(k)[0] == inputs[k]);
    assert(inputs.skip(k).drop_first() =~= later);
    let front = op.answer(inputs[k]);
    if front.len() == 0 {
        assert(front + after =~= after);
    } else {
        assert((front + after).drop_first() =~= front.drop_first() + after);
        if front.len() == 1 {
            assert(front.drop_first() + after =~= after);
        }
    }
    let here = trace(ops.skip(j), moved, inputs.skip(k));
    match op {
        Op::Modify(r, u) => {
            assert(here =~= seq![Action::Load(r), Action::Store(r, u.apply(inputs[k]))] + trace(
                after,
                moved,
                later,
            ));
        },
        _ => {},
    }
}

/// The same for an operation that loads nothing, and for the end of the operations.
pub(crate) proof fn lemma_unroll_plain(
    ops: Seq<Op>,
    j: int,
    moved: usize,
    inputs: Seq<u32>,
    k: int,
)
    requires
        0 <= j <= ops.len(),
        0 <= k <= inputs.len(),
    ensures
        ({
            let here = trace(ops.skip(j), moved, inputs.skip(k));
            if j == ops.len() {
                here == seq![Action::Done(moved)]
            } else {
                match ops[j] {
                    Op::Store(r, v) => here == seq![Action::Store(r, v)] + trace(
                        ops.skip(j + 1),
                        moved,
                        inputs.skip(k),
                    ),
                    Op::Receive(b, n) => here == seq![Action::Receive(b, n)] + trace(
                        ops.skip(j + 1),
                        n,
                        inputs.skip(k),
                    ),
                    Op::Transmit(b, n) => here == seq![Action::Transmit(b, n)] + trace(
                        ops.skip(j + 1),
                        n,
                        inputs.skip(k),
                    ),
                    Op::Fail(error) => here == seq![Action::Failed(error)],
                    Op::Halt => here == seq![Action::Fault],
                    _ => true,
                }
            }
        }),
{
    if j < ops.len() {
        assert(ops.skip(j)[0] == ops[j]);
        assert(ops.skip(j).drop_first() =~= ops.skip(j + 1));
    }
}

/// The same for an operation that finds bits set and clears them.
pub(crate) proof fn lemma_unroll_clear(ops: Seq<Op>, j: int, moved: usize, inputs: Seq<u32>, k: int)
    requires
        0 <= j < ops.len(),
        0 <= k,
        k + 2 < inputs.len(),
        ops[j] is ClearIfSet,
        inputs[k] & ops[j]->ClearIfSet_1 != 0,
    ensures
        ({
            let (r, bits) = (ops[j]->ClearIfSet_0, ops[j]->ClearIfSet_1);
            trace(ops.skip(j), moved, inputs.skip(k)) == seq![
                Action::Load(r),
                Action::Load(r),
                Action::Store(r, Update::set(bits).apply(inputs[k + 1])),
                Action::Load(r),
            ] + if inputs[k + 2] & bits != 0 {
                seq![Action::Fault]
            } else {
                trace(ops.skip(j + 1), moved, inputs.skip(k + 3))
            }
        }),
{
    let (r, bits) = (ops[j]->ClearIfSet_0, ops[j]->ClearIfSet_1);
    let front = ops[j].answer(inputs[k]);
    let now = front + ops.skip(j + 1);
    let later = inputs.skip(k + 1);
    assert(ops.skip(j)[0] == ops[j]);
    assert(ops.skip(j).drop_first() =~= ops.skip(j + 1));
    assert(inputs.skip(k)[0] == inputs[k]);
    assert(inputs.skip(k).drop_first() =~= later);
    assert(now.skip(0) =~= now);
    assert(later.skip(0) =~= later);
    assert(now.skip(2) =~= ops.skip(j + 1));
    assert(later.skip(2) =~= inputs.skip(k + 3));
    lemma_unroll(now, 0, moved, later, 0);
    lemma_unroll(now, 1, moved, later, 1);
    assert(later[0] == inputs[k + 1] && later[1] == inputs[k + 2]);
    let tail = if inputs[k + 2] & bits != 0 {
        seq![Action::Fault]
    } else {
        trace(ops.skip(j + 1), moved, inputs.skip(k + 3))
    };
    assert(trace(now, moved, later) =~= seq![
        Action::Load(r),
        Action::Store(r, Update::set(bits).apply(inputs[k + 1])),
        Action::Load(r),
    ] + tail);
    assert(trace(ops.skip(j), moved, inputs.skip(k)) =~= seq![
        Action::Load(r),
        Action::Load(r),
        Action::Store(r, Update::set(bits).apply(inputs[k + 1])),
        Action::Load(r),
    ] + tail);
}

spec fn reaches(action: Action, target: Option<Register>) -> bool {
    match target {
        Some(register) => stores(action, register),
        None => action is Done,
    }
}

spec fn can_reach(op: Op, target: Option<Register>) -> bool {
    target is Some && can_store(op, target.unwrap())
}

proof fn lemma_in_order(
    ops: Seq<Op>,
    moved: usize,
    inputs: Seq<u32>,
    j: int,
    target: Option<Register>,
    k: int,
)
    requires
        0 <= j <= ops.len(),
        forall|i: int| 0 <= i < j ==> !can_reach(#[trigger] ops[i], target),
        0 <= k < trace(ops, moved, inputs).len(),
        reaches(trace(ops, moved, inputs)[k], target),
    ensures
        forall|i: int|
            0 <= i < j ==> carried_out(#[trigger] ops[i], trace(ops, moved, inputs), k),
    decreases inputs.len(), ops.len(), 0int,
{
    let t = trace(ops, moved, inputs);
    if j > 0 {
        let op = ops[0];
        let rest = ops.drop_first();
        match op {
            Op::Store(_, _) => {
                lemma_order_rest(ops, t, rest, moved, inputs, j, target, k);
            },
            Op::Receive(_, count) => {
                lemma_order_rest(ops, t, rest, count, inputs, j, target, k);
            },
            Op::Transmit(_, count) => {
                lemma_order_rest(ops, t, rest, count, inputs, j, target, k);
            },
            Op::Fail(_) => {},
            Op::Halt => {},
            _ => {
                let now = op.answer(inputs[0]) + rest;
                let n = op.answer(inputs[0]).len() as int;
                let later = trace(now, moved, inputs.drop_first());
                assert(t.drop_first() =~= later);
                assert forall|i: int| 0 <= i < j - 1 + n implies !can_reach(
                    #[trigger] now[i],
                    target,
                ) by {
                    if i >= n {
                        assert(now[i] == ops[i - n + 1]);
                    } else {
                        assert(!can_reach(ops[0], target));
                    }
                }
                assert(t[k] == later[k - 1]);
                lemma_in_order(now, moved, inputs.drop_first(), j - 1 + n, target, k - 1);
                assert forall|i: int| 0 <= i < j implies carried_out(#[trigger] ops[i], t, k) by {
                    if i > 0 {
                        assert(now[i - 1 + n] == ops[i]);
                        lemma_carried_later(ops[i], t, later, k);
                    } else if op is Modify {
                        assert(now[0] == Op::Store(
                            op->Modify_0,
                            op->Modify_1.apply(inputs[0]),
                        ));
                        lemma_carried_later(now[0], t, later, k);
                        let p = choose|p: int| 0 <= p < k && serves(#[trigger] t[p], now[0]);
                        assert(serves(t[p], op));
                    } else if op is ReceiveRest {
                        assert(carried_out(now[0], later, k - 1));
                        lemma_carried_later(now[0], t, later, k);
                        let p = choose|p: int| 0 <= p < k && serves(#[trigger] t[p], now[0]);
                        if now[0] is Halt {
                            assert(later =~= seq![Action::Fault]);
                        }
                        assert(serves(t[p], op));
                    } else {
                        assert(serves(t[0], op));
                    }
                }
            },
        }
    }
}

proof fn lemma_order_rest(
    ops: Seq<Op>,
    t: Seq<Action>,
    rest: Seq<Op>,
    moved: usize,
    inputs: Seq<u32>,
    j: int,
    target: Option<Register>,
    k: int,
)
    requires
        0 < j <= ops.len(),
        rest == ops.drop_first(),
        t.len() == trace(rest, moved, inputs).len() + 1,
        t.drop_first() =~= trace(rest, moved, inputs),
        serves(t[0], ops[0]),
        !reaches(t[0], target),
        forall|i: int| 0 <= i < j ==> !can_reach(#[trigger] ops[i], target),
        0 <= k < t.len(),
        reaches(t[k], target),
    ensures
        forall|i: int| 0 <= i < j ==> carried_out(#[trigger] ops[i], t, k),
    decreases inputs.len(), rest.len(), 1int,
{
    let later = trace(rest, moved, inputs);
    assert(t[k] == later[k - 1]);
    assert forall|i: int| 0 <= i < j - 1 implies !can_reach(#[trigger] rest[i], target) by {
        assert(rest[i] == ops[i + 1]);
    }
    lemma_in_order(rest, moved, inputs, j - 1, target, k - 1);
    assert forall|i: int| 0 <= i < j implies carried_out(#[trigger] ops[i], t, k) by {
        if i > 0 {
            assert(rest[i - 1] == ops[i]);
            lemma_carried_later(ops[i], t, later, k);
        }
    }
}

proof fn lemma_carried_later(op: Op, t: Seq<Action>, later: Seq<Action>, k: int)
    requires
        t.len() == later.len() + 1,
        t.drop_first() =~= later,
        0 < k <= t.len(),
        carried_out(op, later, k - 1),
    ensures
        carried_out(op, t, k),
{
    let p = choose|p: int| 0 <= p < k - 1 && serves(#[trigger] later[p], op);
    assert(t[p + 1] == later[p]);
    assert(serves(t[p + 1], op));
}

} // verus!
