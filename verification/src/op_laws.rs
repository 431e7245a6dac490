//! What each operation and each update means, in numbers and bits.
use crate::buffer::EndpointBuffer;
use crate::entry::{entry, Update};
use crate::kinds::{EndpointType, UsbError};
use crate::trace_laws::{lemma_unroll, lemma_unroll_clear, lemma_unroll_plain};
use crate::transfer::{trace, Action, Op, Progress};
use vstd::prelude::*;

verus! {

/// A word of the list is the sum of its fields, each at its place and within its width.
pub proof fn law_fields_make_word(word: u32)
    ensures
        entry(word).addroff < 0x1_0000,
        entry(word).nbytes < 0x400,
        entry(word).kept < 8,
        word == entry(word).addroff + entry(word).nbytes * 0x1_0000 + entry(word).kept * 0x400_0000
            + (if entry(word).stalled { 0x2000_0000int } else { 0 }) + (if entry(word).disabled {
            0x4000_0000int
        } else {
            0
        }) + (if entry(word).active { 0x8000_0000int } else { 0 }),
{
    reveal(entry);
    let (s, d, a) = ((word / 0x2000_0000) % 2, (word / 0x4000_0000) % 2, (word / 0x8000_0000) % 2);
    assert(word == word % 0x1_0000 + ((word / 0x1_0000) % 0x400) * 0x1_0000 + ((word / 0x400_0000)
        % 8) * 0x400_0000 + s * 0x2000_0000 + d * 0x4000_0000 + a * 0x8000_0000 && s <= 1 && d <= 1
        && a <= 1) by (bit_vector)
        requires
            s == (word / 0x2000_0000) % 2,
            d == (word / 0x4000_0000) % 2,
            a == (word / 0x8000_0000) % 2,
    ;
}

/// An update writes each bit of its bits as one, each other bit of its mask as zero, and leaves
/// the others as they are.
pub proof fn law_update_by_bit(update: Update, word: u32, i: u32)
    requires
        i < 32,
    ensures
        (update.apply(word) >> i) & 1 == (if (update.bits >> i) & 1 == 1 {
            1u32
        } else if (update.mask >> i) & 1 == 1 {
            0u32
        } else {
            (word >> i) & 1
        }),
{
    let (m, b) = (update.mask, update.bits);
    assert((((word & !m) | b) >> i) & 1 == (if (b >> i) & 1 == 1 {
        1u32
    } else if (m >> i) & 1 == 1 {
        0u32
    } else {
        (word >> i) & 1
    })) by (bit_vector)
        requires
            i < 32,
    ;
}

/// Setting bits writes them as ones beside what was loaded, whatever that was.
pub proof fn law_set_writes_ones(bits: u32, word: u32)
    ensures
        Update::set(bits).apply(word) == word | bits,
        Update::set(bits).mask == bits,
        Update::set(bits).bits == bits,
{
    assert((word & !bits) | bits == word | bits) by (bit_vector);
}

/// A value added to an update is what the bits of its mask become; the other bits become what
/// they became before.
pub proof fn law_with_by_bit(update: Update, mask: u32, bits: u32, word: u32, i: u32)
    requires
        i < 32,
    ensures
        (update.with(mask, bits).apply(word) >> i) & 1 == (if (mask >> i) & 1 == 1 {
            (bits >> i) & 1
        } else {
            (update.apply(word) >> i) & 1
        }),
        (update.with(mask, bits).mask >> i) & 1 == (if (mask >> i) & 1 == 1 {
            1u32
        } else {
            (update.mask >> i) & 1
        }),
{
    let (m, b) = (update.mask, update.bits);
    assert({
        &&& (((word & !(m | mask)) | ((b & !mask) | (bits & mask))) >> i) & 1 == (if (mask >> i) & 1
            == 1 {
            (bits >> i) & 1
        } else {
            (((word & !m) | b) >> i) & 1
        })
        &&& ((m | mask) >> i) & 1 == (if (mask >> i) & 1 == 1 {
            1u32
        } else {
            (m >> i) & 1
        })
    }) by (bit_vector)
        requires
            i < 32,
    ;
}

/// What each field update makes of a word, next to what the update before it made: the field is
/// new, the rest of the number is the same.
pub proof fn law_field_updates(update: Update, word: u32, count: usize, offset: u32, active: bool)
    ensures
        ({
            let old = update.apply(word);
            let new = update.nbytes(count).apply(word);
            new % 0x1_0000 == old % 0x1_0000 && (new / 0x1_0000) % 0x400 == count as int % 0x400
                && new / 0x400_0000 == old / 0x400_0000
        }),
        ({
            let old = update.apply(word);
            let new = update.addroff(offset).apply(word);
            new % 0x1_0000 == offset % 0x1_0000 && new / 0x1_0000 == old / 0x1_0000
        }),
        ({
            let old = update.apply(word);
            let new = update.active(active).apply(word);
            new % 0x8000_0000 == old % 0x8000_0000 && (new >= 0x8000_0000) == active
        }),
        update.enabled().apply(word) == update.apply(word) & 0xbfff_ffff,
        update.not_stalled().apply(word) == update.apply(word) & 0xdfff_ffff,
        Update::none().apply(word) == word,
        Update::none().mask == 0,
        update.nbytes(count).mask == update.mask | 0x03ff_0000,
        update.addroff(offset).mask == update.mask | 0x0000_ffff,
        update.active(active).mask == update.mask | 0x8000_0000,
        update.enabled().mask == update.mask | 0x4000_0000,
        update.not_stalled().mask == update.mask | 0x2000_0000,
{
    let (m, b, n) = (update.mask, update.bits, count as u32);
    assert(n % 0x400 == count % 0x400) by (bit_vector)
        requires
            n == count as u32,
    ;
    let old: u32 = (word & !m) | b;
    let counted: u32 = (word & !(m | 0x03ff_0000)) | ((b & !0x03ff_0000) | ((n << 16u32)
        & 0x03ff_0000));
    assert(counted % 0x1_0000 == old % 0x1_0000 && (counted / 0x1_0000) % 0x400 == n % 0x400
        && counted / 0x400_0000 == old / 0x400_0000) by (bit_vector)
        requires
            old == (word & !m) | b,
            counted == (word & !(m | 0x03ff_0000)) | ((b & !0x03ff_0000) | ((n << 16u32)
                & 0x03ff_0000)),
    ;
    let placed: u32 = (word & !(m | 0xffff)) | ((b & !0xffff) | (offset & 0xffff));
    assert(placed % 0x1_0000 == offset % 0x1_0000 && placed / 0x1_0000 == old / 0x1_0000)
        by (bit_vector)
        requires
            old == (word & !m) | b,
            placed == (word & !(m | 0xffff)) | ((b & !0xffff) | (offset & 0xffff)),
    ;
    let a: u32 = if active { 0x8000_0000 } else { 0 };
    let owned: u32 = (word & !(m | 0x8000_0000)) | ((b & !0x8000_0000) | (a & 0x8000_0000));
    assert(owned % 0x8000_0000 == old % 0x8000_0000 && (owned >= 0x8000_0000) == (a != 0))
        by (bit_vector)
        requires
            a == 0 || a == 0x8000_0000,
            old == (word & !m) | b,
            owned == (word & !(m | 0x8000_0000)) | ((b & !0x8000_0000) | (a & 0x8000_0000)),
    ;
    assert({
        &&& (word & !(m | 0x4000_0000)) | ((b & !0x4000_0000) | (0u32 & 0x4000_0000)) == ((word
            & !m) | b) & 0xbfff_ffff
        &&& (word & !(m | 0x2000_0000)) | ((b & !0x2000_0000) | (0u32 & 0x2000_0000)) == ((word
            & !m) | b) & 0xdfff_ffff
        &&& (word & !0u32) | 0u32 == word
    }) by (bit_vector);
}

/// A buffer is aligned if and only if the lowest six bits of its address are zero. The offset of
/// such a buffer and the ten bits above it make up its address.
pub proof fn law_alignment(buffer: EndpointBuffer)
    ensures
        buffer.is_aligned() == (buffer.addr & 0x3f == 0),
        buffer.spec_addroff() < 0x1_0000,
        buffer.addr & 0x3f == 0 ==> buffer.addr == (buffer.addr & 0xffc0_0000)
            + buffer.spec_addroff() * 64,
{
    let addr = buffer.addr;
    assert({
        &&& (addr % 64 == 0) == (addr & 0x3f == 0)
        &&& addr & 0x3f == 0 ==> addr == (addr & 0xffc0_0000) + ((addr / 64) % 0x1_0000) * 64
    }) by (bit_vector);
}

/// The encoding of the transfer types: the number of a type's encoding is its own.
pub proof fn law_type_numbers(t: EndpointType)
    ensures
        t.bits() == 0 <==> t is Bulk,
        t.bits() == 1 <==> t is Control,
        t.bits() == 2 <==> t is Isochronous,
        t.bits() == 3 <==> t is Interrupt,
{
}

/// A transfer starts with all its operations to do, nothing to wait for and nothing moved.
pub proof fn law_start(ops: Seq<Op>)
    ensures
        Progress::start(ops).waiting is None,
        Progress::start(ops).ops == ops,
        Progress::start(ops).moved == 0,
{
}

/// A value that nothing waits for changes nothing.
pub proof fn law_unawaited_value(progress: Progress, a: u32, b: u32)
    requires
        progress.waiting is None,
    ensures
        progress.advance(a) == progress.advance(b),
{
}

/// Once a transfer has ended, every step gives its end again.
pub proof fn law_end_stays(progress: Progress, a: u32, b: u32)
    ensures
        ({
            let (ended, action) = progress.advance(a);
            action is Done || action is Failed || action is Fault ==> ended.advance(b) == (
                ended,
                action,
            )
        }),
{
}

/// What an operation does before the others, for every value that its register can have.
pub proof fn law_op_meaning(op: Op, rest: Seq<Op>, moved: usize, inputs: Seq<u32>)
    requires
        inputs.len() >= 3,
    ensures
        ({
            let t = trace(seq![op] + rest, moved, inputs);
            let v = inputs[0];
            let after = trace(rest, moved, inputs.skip(1));
            match op {
                Op::Sample(r) => t == seq![Action::Load(r)] + after,
                Op::Modify(r, u) => t == seq![
                    Action::Load(r),
                    Action::Store(r, (v & !u.mask) | u.bits),
                ] + after,
                Op::Store(r, value) => t == seq![Action::Store(r, value)] + trace(
                    rest,
                    moved,
                    inputs,
                ),
                Op::ExpectClear(r, bits) => t == seq![Action::Load(r)] + if v & bits == 0 {
                    after
                } else {
                    seq![Action::Fault]
                },
                Op::ClearIfSet(r, bits) => t == if v & bits == 0 {
                    seq![Action::Load(r)] + after
                } else {
                    seq![
                        Action::Load(r),
                        Action::Load(r),
                        Action::Store(r, inputs[1] | bits),
                        Action::Load(r),
                    ] + if inputs[2] & bits == 0 {
                        trace(rest, moved, inputs.skip(3))
                    } else {
                        seq![Action::Fault]
                    }
                },
                Op::ExpectIdle(r) => t == seq![Action::Load(r)] + if v < 0x8000_0000 {
                    after
                } else {
                    seq![Action::Failed(UsbError::WouldBlock)]
                },
                Op::Receive(b, n) => t == seq![Action::Receive(b, n)] + trace(rest, n, inputs),
                Op::ReceiveRest(r, b, limit) => {
                    let left = b.len - (v as int / 0x1_0000) % 0x400;
                    let count = (if left < limit { left } else { limit as int }) as usize;
                    t == seq![Action::Load(r)] + if left < 0 {
                        seq![Action::Fault]
                    } else {
                        seq![Action::Receive(b, count)] + trace(rest, count, inputs.skip(1))
                    }
                },
                Op::Transmit(b, n) => t == seq![Action::Transmit(b, n)] + trace(rest, n, inputs),
                Op::Fail(error) => t == seq![Action::Failed(error)],
                Op::Halt => t == seq![Action::Fault],
            }
        }),
        trace(seq![], moved, inputs) == seq![Action::Done(moved)],
{
    let ops = seq![op] + rest;
    assert(ops.skip(0) =~= ops);
    assert(ops.skip(1) =~= rest);
    assert(inputs.skip(0) =~= inputs);
    reveal(entry);
    lemma_unroll_plain(ops, 0, moved, inputs, 0);
    lemma_unroll(ops, 0, moved, inputs, 0);
    match op {
        Op::ClearIfSet(_, bits) => {
            law_set_writes_ones(bits, inputs[1]);
            if inputs[0] & bits != 0 {
                lemma_unroll_clear(ops, 0, moved, inputs, 0);
            }
        },
        _ => {},
    }
}

/// A transfer that has had fewer values has done the first of the actions that it does with more
/// of them, and waits after a load.
pub proof fn law_fewer_inputs(ops: Seq<Op>, moved: usize, inputs: Seq<u32>, n: int)
    requires
        0 <= n <= inputs.len(),
    ensures
        ({
            let part = trace(ops, moved, inputs.take(n));
            let all = trace(ops, moved, inputs);
            &&& part.len() <= all.len()
            &&& part == all.take(part.len() as int)
            &&& part.len() < all.len() ==> part.len() > 0 && part.last() is Load
        }),
    decreases inputs.len(), ops.len(),
{
    let some = inputs.take(n);
    let part = trace(ops, moved, some);
    let all = trace(ops, moved, inputs);
    if ops.len() > 0 {
        let rest = ops.drop_first();
        match ops[0] {
            Op::Store(_, _) => {
                law_fewer_inputs(rest, moved, inputs, n);
                lemma_same_first(part, all, trace(rest, moved, some), trace(rest, moved, inputs));
            },
            Op::Receive(_, count) => {
                law_fewer_inputs(rest, count, inputs, n);
                lemma_same_first(part, all, trace(rest, count, some), trace(rest, count, inputs));
            },
            Op::Transmit(_, count) => {
                law_fewer_inputs(rest, count, inputs, n);
                lemma_same_first(part, all, trace(rest, count, some), trace(rest, count, inputs));
            },
            Op::Fail(_) => {
                assert(part =~= all.take(1));
            },
            Op::Halt => {
                assert(part =~= all.take(1));
            },
            op => {
                if n > 0 {
                    let now = op.answer(inputs[0]) + rest;
                    let later = inputs.drop_first();
                    assert(some.drop_first() =~= later.take(n - 1));
                    law_fewer_inputs(now, moved, later, n - 1);
                    lemma_same_first(
                        part,
                        all,
                        trace(now, moved, later.take(n - 1)),
                        trace(now, moved, later),
                    );
                } else {
                    assert(part =~= all.take(1));
                }
            },
        }
    } else {
        assert(part =~= all.take(1));
    }
}

proof fn lemma_same_first(
    part: Seq<Action>,
    all: Seq<Action>,
    part_rest: Seq<Action>,
    all_rest: Seq<Action>,
)
    requires
        part.len() > 0,
        all.len() > 0,
        part[0] == all[0],
        part.drop_first() =~= part_rest,
        all.drop_first() =~= all_rest,
        part_rest.len() <= all_rest.len(),
        part_rest == all_rest.take(part_rest.len() as int),
        part_rest.len() < all_rest.len() ==> part_rest.len() > 0 && part_rest.last() is Load,
    ensures
        part.len() <= all.len(),
        part == all.take(part.len() as int),
        part.len() < all.len() ==> part.len() > 0 && part.last() is Load,
{
    assert forall|i: int| 0 <= i < part.len() implies part[i] == all[i] by {
        if i > 0 {
            assert(part[i] == part_rest[i - 1]);
            assert(all[i] == all_rest[i - 1]);
            assert(all_rest.take(part_rest.len() as int)[i - 1] == all_rest[i - 1]);
        }
    }
    assert(part =~= all.take(part.len() as int));
}

} // verus!
