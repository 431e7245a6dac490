use std::collections::VecDeque;

use usbfs_endpoint::{deliver, Action, EndpointBuffer, Op, Register, Transfer, Update, UsbError};

const BUFFER: EndpointBuffer = EndpointBuffer { addr: 0x4010_0040, len: 64, capacity: 64 };

fn run(ops: &[Op], inputs: &[u32]) -> Vec<Action> {
    let mut transfer = Transfer::new(VecDeque::from(ops.to_vec()));
    let mut inputs = inputs.iter();
    let mut actions = Vec::new();
    let mut loaded = 0;
    loop {
        let action = transfer.step(loaded);
        actions.push(action);
        match action {
            Action::Load(_) => match inputs.next() {
                Some(value) => loaded = *value,
                None => return actions,
            },
            Action::Done(_) | Action::Failed(_) | Action::Fault => {
                assert_eq!(transfer.step(loaded), action);
                return actions;
            }
            _ => {}
        }
    }
}

#[test]
fn no_operations() {
    assert_eq!(run(&[], &[]), vec![Action::Done(0)]);
}

#[test]
fn a_register_is_modified() {
    let ops = [Op::Modify(Register::Ep0In, Update::none().nbytes(3).active(true))];
    assert_eq!(
        run(&ops, &[0x1234_5678]),
        vec![
            Action::Load(Register::Ep0In),
            Action::Store(Register::Ep0In, 0x9003_5678),
            Action::Done(0),
        ]
    );
}

#[test]
fn a_transfer_waits_for_what_it_loads() {
    let ops = [Op::Modify(Register::Ep0In, Update::none())];
    assert_eq!(run(&ops, &[]), vec![Action::Load(Register::Ep0In)]);
}

#[test]
fn bits_that_stay_set_are_a_fault() {
    let ops = [Op::ExpectClear(Register::IntStat, 0x3), Op::Store(Register::IntStat, 1)];
    assert_eq!(
        run(&ops, &[0xfffc]),
        vec![
            Action::Load(Register::IntStat),
            Action::Store(Register::IntStat, 1),
            Action::Done(0),
        ]
    );
    assert_eq!(run(&ops, &[0x2]), vec![Action::Load(Register::IntStat), Action::Fault]);
}

#[test]
fn set_bits_are_cleared() {
    let ops = [Op::ClearIfSet(Register::IntStat, 0x1)];
    let load = Action::Load(Register::IntStat);
    assert_eq!(run(&ops, &[0x6]), vec![load, Action::Done(0)]);
    assert_eq!(
        run(&ops, &[0x1, 0x4, 0x4]),
        vec![load, load, Action::Store(Register::IntStat, 0x5), load, Action::Done(0)]
    );
    assert_eq!(
        run(&ops, &[0x1, 0x1, 0x1]),
        vec![load, load, Action::Store(Register::IntStat, 0x1), load, Action::Fault]
    );
}

#[test]
fn an_active_buffer_ends_a_transfer() {
    let ops = [Op::ExpectIdle(Register::Ep0Out), Op::Receive(BUFFER, 5)];
    let load = Action::Load(Register::Ep0Out);
    assert_eq!(run(&ops, &[0x8000_0000]), vec![load, Action::Failed(UsbError::WouldBlock)]);
    assert_eq!(
        run(&ops, &[0x7fff_ffff]),
        vec![load, Action::Receive(BUFFER, 5), Action::Done(5)]
    );
}

#[test]
fn what_has_arrived_is_received() {
    let load = Action::Load(Register::Ep0Out);
    let ops = |limit: usize| [Op::ReceiveRest(Register::Ep0Out, BUFFER, limit)];
    assert_eq!(
        run(&ops(100), &[54 << 16]),
        vec![load, Action::Receive(BUFFER, 10), Action::Done(10)]
    );
    assert_eq!(
        run(&ops(9), &[54 << 16]),
        vec![load, Action::Receive(BUFFER, 9), Action::Done(9)]
    );
    assert_eq!(
        run(&ops(9), &[64 << 16]),
        vec![load, Action::Receive(BUFFER, 0), Action::Done(0)]
    );
    assert_eq!(run(&ops(9), &[65 << 16]), vec![load, Action::Fault]);
}

#[test]
fn the_last_copy_counts() {
    let ops = [
        Op::Receive(BUFFER, 8),
        Op::Sample(Register::DevCmdStat),
        Op::Transmit(BUFFER, 3),
        Op::Store(Register::IntStat, 4),
    ];
    assert_eq!(
        run(&ops, &[77]),
        vec![
            Action::Receive(BUFFER, 8),
            Action::Load(Register::DevCmdStat),
            Action::Transmit(BUFFER, 3),
            Action::Store(Register::IntStat, 4),
            Action::Done(3),
        ]
    );
}

#[test]
fn errors_and_halts_end_a_transfer() {
    assert_eq!(
        run(&[Op::Fail(UsbError::BufferOverflow), Op::Halt], &[]),
        vec![Action::Failed(UsbError::BufferOverflow)]
    );
    assert_eq!(run(&[Op::Halt, Op::Receive(BUFFER, 1)], &[]), vec![Action::Fault]);
}

#[test]
fn a_packet_is_delivered() {
    let mut buf = [9u8; 5];
    deliver(&[1, 2, 3], &mut buf);
    assert_eq!(buf, [1, 2, 3, 9, 9]);
    deliver(&[], &mut buf);
    assert_eq!(buf, [1, 2, 3, 9, 9]);
    deliver(&[5, 6, 7, 8, 9], &mut buf);
    assert_eq!(buf, [5, 6, 7, 8, 9]);
}
