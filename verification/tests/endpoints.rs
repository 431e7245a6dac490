use usbfs_endpoint::{
    Action, Direction, Endpoint, EndpointBuffer, EndpointConfig, EndpointType, Op, Register,
    Transfer, Update, UsbError,
};

const OUT: EndpointBuffer = EndpointBuffer { addr: 0x4010_0040, len: 64, capacity: 64 };
const SETUP: EndpointBuffer = EndpointBuffer { addr: 0x4010_0080, len: 8, capacity: 8 };
const IN: EndpointBuffer = EndpointBuffer { addr: 0x4010_00c0, len: 64, capacity: 32 };
const ASKEW: EndpointBuffer = EndpointBuffer { addr: 0x4010_0044, len: 64, capacity: 64 };

fn control() -> EndpointConfig {
    EndpointConfig {
        index: 0,
        ep_type: Some(EndpointType::Control),
        out_buf: Some(OUT),
        setup_buf: Some(SETUP),
        in_buf: Some(IN),
    }
}

fn bulk(index: u8) -> EndpointConfig {
    EndpointConfig {
        index,
        ep_type: Some(EndpointType::Bulk),
        out_buf: Some(OUT),
        setup_buf: None,
        in_buf: Some(IN),
    }
}

fn run(mut transfer: Transfer, inputs: &[u32]) -> Vec<Action> {
    let mut inputs = inputs.iter();
    let mut actions = Vec::new();
    let mut loaded = 0;
    loop {
        let action = transfer.step(loaded);
        actions.push(action);
        match action {
            Action::Load(_) => match inputs.next() {
                Some(value) => loaded = *value,
                None => return actions,
            },
            Action::Done(_) | Action::Failed(_) | Action::Fault => return actions,
            _ => {}
        }
    }
}

fn load(register: Register) -> Action {
    Action::Load(register)
}

fn store(register: Register, value: u32) -> Action {
    Action::Store(register, value)
}

#[test]
fn a_new_endpoint_has_nothing_set() {
    let endpoint = Endpoint::new(3);
    assert_eq!(endpoint.index(), 3);
    assert_eq!(endpoint.ep_type(), None);
    assert!(!endpoint.is_out_buf_set());
    assert!(!endpoint.is_setup_buf_set());
    assert!(!endpoint.is_in_buf_set());
    assert_eq!(Endpoint::default().index(), 0);
    assert!(!Endpoint::default().is_out_buf_set());
}

#[test]
fn settings_are_independent() {
    let mut endpoint = Endpoint::new(1);
    endpoint.set_ep_type(EndpointType::Interrupt);
    assert_eq!(endpoint.ep_type(), Some(EndpointType::Interrupt));
    endpoint.set_in_buf(IN);
    assert!(endpoint.is_in_buf_set());
    assert!(!endpoint.is_out_buf_set());
    endpoint.set_out_buf(OUT);
    assert!(endpoint.is_out_buf_set());
    assert!(!endpoint.is_setup_buf_set());
    endpoint.set_setup_buf(SETUP);
    assert!(endpoint.is_setup_buf_set());
    assert_eq!(endpoint.index(), 1);
    assert_eq!(endpoint.ep_type(), Some(EndpointType::Interrupt));
}

#[test]
fn offset_of_a_buffer() {
    assert_eq!(Endpoint::new(0).buf_addroff(&OUT), 0x4001);
    assert_eq!(Endpoint::new(0).buf_addroff(&IN), 0x4003);
}

#[test]
fn reset_out() {
    assert_eq!(
        control().reset_out_buf(),
        Some(Op::Modify(Register::Ep0Out, Update { mask: 0xa3ff_ffff, bits: 0x8040_4001 }))
    );
    assert_eq!(
        bulk(2).reset_out_buf(),
        Some(Op::Modify(
            Register::Endpoint(2, Direction::Out),
            Update { mask: 0xe3ff_ffff, bits: 0x8040_4001 }
        ))
    );
    assert_eq!(EndpointConfig { out_buf: None, ..bulk(2) }.reset_out_buf(), None);
}

#[test]
fn reset_setup() {
    assert_eq!(
        control().reset_setup_buf(),
        Some(Op::Modify(Register::Setup, Update { mask: 0x0000_ffff, bits: 0x4002 }))
    );
    assert_eq!(bulk(1).reset_setup_buf(), None);
}

#[test]
fn reset_in() {
    assert_eq!(
        control().reset_in_buf(),
        Some(Op::Modify(Register::Ep0In, Update { mask: 0xe3ff_ffff, bits: 0x4003 }))
    );
    assert_eq!(
        bulk(4).reset_in_buf(),
        Some(Op::Modify(
            Register::Endpoint(4, Direction::In),
            Update { mask: 0x63ff_ffff, bits: 0x4003 }
        ))
    );
    assert_eq!(EndpointConfig { in_buf: None, ..bulk(4) }.reset_in_buf(), None);
}

#[test]
fn a_reset_undoes_what_the_controller_did() {
    let update = match bulk(2).reset_out_buf() {
        Some(Op::Modify(_, update)) => update,
        other => panic!("{:?}", other),
    };
    let armed = update.apply(0x1400_0000);
    assert_eq!(armed, 0x9440_4001);
    // 40 bytes have arrived, the offset has moved on, the buffer is released.
    assert_eq!(update.apply(0x1418_4007), armed);
}

#[test]
fn configure_without_a_type_does_nothing() {
    let endpoint = EndpointConfig { ep_type: None, ..control() };
    assert_eq!(run(endpoint.configure(), &[]), vec![Action::Done(0)]);
}

#[test]
fn configure_the_control_endpoint() {
    let int = Register::IntStat;
    assert_eq!(
        run(control().configure(), &[0x8, 0, 0x4, 0, 0x4000_0000, 0xffff_ffff, 0xffff_ffff]),
        vec![
            load(int),
            store(int, 0x9),
            load(int),
            load(int),
            store(int, 0x6),
            load(int),
            load(Register::Ep0Out),
            store(Register::Ep0Out, 0xc040_4001),
            load(Register::Setup),
            store(Register::Setup, 0xffff_4002),
            load(Register::Ep0In),
            store(Register::Ep0In, 0x1c00_4003),
            Action::Done(0),
        ]
    );
}

#[test]
fn configure_another_endpoint() {
    let int = Register::IntStat;
    let endpoint = EndpointConfig { setup_buf: Some(SETUP), out_buf: None, ..bulk(1) };
    assert_eq!(
        run(endpoint.configure(), &[0, 0, 0, 0, 0xffff_ffff]),
        vec![
            load(int),
            store(int, 0x1),
            load(int),
            load(int),
            store(int, 0x2),
            load(int),
            load(Register::Endpoint(1, Direction::In)),
            store(Register::Endpoint(1, Direction::In), 0x9c00_4003),
            Action::Done(0),
        ]
    );
}

#[test]
fn configure_faults() {
    let int = Register::IntStat;
    assert_eq!(
        run(control().configure(), &[0, 1]),
        vec![load(int), store(int, 1), load(int), Action::Fault]
    );
    let askew = EndpointConfig { out_buf: Some(ASKEW), ..control() };
    assert_eq!(
        run(askew.configure(), &[0, 0, 0, 0]),
        vec![
            load(int),
            store(int, 1),
            load(int),
            load(int),
            store(int, 2),
            load(int),
            Action::Fault,
        ]
    );
}

#[test]
fn write_needs_a_buffer() {
    let endpoint = EndpointConfig { in_buf: None, ..bulk(1) };
    assert_eq!(endpoint.write(&[1, 2, 3]).err(), Some(UsbError::WouldBlock));
}

#[test]
fn write_needs_a_large_enough_buffer() {
    assert_eq!(bulk(1).write(&[0; 33]).err(), Some(UsbError::BufferOverflow));
    assert!(bulk(1).write(&[0; 32]).is_ok());
}

#[test]
fn write_on_the_control_endpoint() {
    let transfer = control().write(&[1, 2, 3]).unwrap();
    assert_eq!(
        run(transfer, &[0x100, 0xf7ff_ffff, 0x1400_4003]),
        vec![
            load(Register::DevCmdStat),
            load(Register::Ep0In),
            store(Register::Ep0In, 0x1400_4003),
            Action::Transmit(IN, 3),
            load(Register::Ep0In),
            store(Register::Ep0In, 0x9403_4003),
            Action::Done(3),
        ]
    );
}

#[test]
fn an_empty_control_packet_readies_the_out_buffer() {
    let transfer = control().write(&[]).unwrap();
    assert_eq!(
        run(transfer, &[0, 0, 0x4003, 0x0018_4007]),
        vec![
            load(Register::DevCmdStat),
            load(Register::Ep0In),
            store(Register::Ep0In, 0x4003),
            Action::Transmit(IN, 0),
            load(Register::Ep0In),
            store(Register::Ep0In, 0x8000_4003),
            load(Register::Ep0Out),
            store(Register::Ep0Out, 0x8040_4001),
            Action::Done(0),
        ]
    );
    let without = EndpointConfig { out_buf: None, ..control() };
    let actions = run(without.write(&[]).unwrap(), &[0, 0, 0x4003]);
    assert_eq!(actions.last(), Some(&Action::Done(0)));
    assert_eq!(actions.len(), 7);
}

#[test]
fn write_on_another_endpoint() {
    let word = Register::Endpoint(3, Direction::In);
    let transfer = bulk(3).write(&[0; 32]).unwrap();
    assert_eq!(
        run(transfer, &[0, 0x8000_0000, 0x8020_4003, 0x8000_4003]),
        vec![
            load(Register::DevCmdStat),
            load(word),
            load(word),
            store(word, 0x8000_4003),
            Action::Transmit(IN, 32),
            load(word),
            store(word, 0x8020_4003),
            Action::Done(32),
        ]
    );
    let actions = run(bulk(3).write(&[]).unwrap(), &[0, 0, 0, 0x4003]);
    assert_eq!(actions[6], store(word, 0x8000_4003));
    assert_eq!(actions.len(), 8);
}

#[test]
fn write_with_a_buffer_off_the_grid_faults() {
    let endpoint = EndpointConfig { in_buf: Some(ASKEW), ..control() };
    assert_eq!(
        run(endpoint.write(&[1]).unwrap(), &[0]),
        vec![load(Register::DevCmdStat), Action::Fault]
    );
}

#[test]
fn read_needs_a_buffer() {
    let endpoint = EndpointConfig { out_buf: None, ..control() };
    assert_eq!(endpoint.read(64, 0x100, 0x1).err(), Some(UsbError::WouldBlock));
}

#[test]
fn read_needs_a_packet() {
    assert_eq!(control().read(64, 0, 0).err(), Some(UsbError::WouldBlock));
    assert_eq!(control().read(64, !0x100, !0x1).err(), Some(UsbError::WouldBlock));
    assert_eq!(bulk(2).read(64, !0, !0x10).err(), Some(UsbError::WouldBlock));
    assert!(bulk(2).read(64, 0, 0x10).is_ok());
    assert!(bulk(15).read(64, 0, 0x4000_0000).is_ok());
}

#[test]
fn read_of_setup_needs_its_buffer_and_room() {
    let endpoint = EndpointConfig { setup_buf: None, ..control() };
    assert_eq!(endpoint.read(64, 0x100, 0x1).err(), Some(UsbError::WouldBlock));
    assert_eq!(control().read(7, 0x100, 0x1).err(), Some(UsbError::WouldBlock));
    assert!(control().read(8, 0x100, 0x0).is_ok());
}

#[test]
fn read_setup_packet() {
    let (int, dev) = (Register::IntStat, Register::DevCmdStat);
    let transfer = control().read(64, 0x100, 0x1).unwrap();
    assert_eq!(
        run(
            transfer,
            &[0x1, 0x5, 0x0, 0xffff_ffff, 0xffff_ffff, 0x8, 0x1, 0x80, 0x80, 0x0400_0000],
        ),
        vec![
            Action::Receive(SETUP, 8),
            load(int),
            load(int),
            store(int, 0x5),
            load(int),
            load(Register::Ep0Out),
            store(Register::Ep0Out, 0x5fff_ffff),
            load(Register::Ep0In),
            store(Register::Ep0In, 0x5fff_ffff),
            load(int),
            store(int, 0xa),
            load(int),
            load(dev),
            store(dev, 0x180),
            load(dev),
            load(Register::Ep0Out),
            store(Register::Ep0Out, 0x8440_4001),
            Action::Done(8),
        ]
    );
}

#[test]
fn read_setup_packet_without_interrupt() {
    let (int, dev) = (Register::IntStat, Register::DevCmdStat);
    let transfer = control().read(8, 0x180, 0).unwrap();
    assert_eq!(
        run(transfer, &[0, 0, 0, 0, 0, 0x180, 0x80, 0]),
        vec![
            Action::Receive(SETUP, 8),
            load(int),
            load(Register::Ep0Out),
            store(Register::Ep0Out, 0),
            load(Register::Ep0In),
            store(Register::Ep0In, 0),
            load(int),
            store(int, 0x2),
            load(int),
            load(dev),
            store(dev, 0x180),
            load(dev),
            load(Register::Ep0Out),
            store(Register::Ep0Out, 0x8040_4001),
            Action::Done(8),
        ]
    );
}

#[test]
fn read_setup_packet_faults_where_a_bit_stays() {
    let transfer = || control().read(8, 0x100, 0).unwrap();
    assert_eq!(run(transfer(), &[1, 1, 1]).last(), Some(&Action::Fault));
    assert_eq!(run(transfer(), &[0, 0, 0, 0, 2]).last(), Some(&Action::Fault));
    assert_eq!(run(transfer(), &[0, 0, 0, 0, 0, 0, 0x100]).last(), Some(&Action::Fault));
}

#[test]
fn read_control_packet() {
    let transfer = control().read(64, 0, 0x1).unwrap();
    assert_eq!(
        run(transfer, &[0x0018_4002, 0x0018_4002, 0x5]),
        vec![
            load(Register::Ep0Out),
            Action::Receive(OUT, 40),
            load(Register::Ep0Out),
            store(Register::Ep0Out, 0x8040_4001),
            load(Register::IntStat),
            store(Register::IntStat, 0x5),
            Action::Done(40),
        ]
    );
}

#[test]
fn read_takes_what_there_is_room_for() {
    let actions = run(control().read(12, 0, 0x1).unwrap(), &[0x0018_4002, 0, 0]);
    assert_eq!(actions[1], Action::Receive(OUT, 12));
    assert_eq!(actions.last(), Some(&Action::Done(12)));
}

#[test]
fn read_faults_on_a_byte_count_beyond_the_buffer() {
    assert_eq!(
        run(control().read(12, 0, 0x1).unwrap(), &[0x0041_0000]),
        vec![load(Register::Ep0Out), Action::Fault]
    );
    let word = Register::Endpoint(1, Direction::Out);
    assert_eq!(
        run(bulk(1).read(12, 0, 0x4).unwrap(), &[0, 0x0041_0000]),
        vec![load(word), load(word), Action::Fault]
    );
}

#[test]
fn read_data_packet() {
    let word = Register::Endpoint(2, Direction::Out);
    let transfer = bulk(2).read(64, 0, 0xff).unwrap();
    assert_eq!(
        run(transfer, &[0x0018_4002, 0x0038_4002, 0x5c38_4002]),
        vec![
            load(word),
            load(word),
            Action::Receive(OUT, 8),
            store(Register::IntStat, 0x10),
            load(word),
            store(word, 0x9c40_4001),
            Action::Done(8),
        ]
    );
}

#[test]
fn read_waits_for_the_controller() {
    let word = Register::Endpoint(2, Direction::Out);
    assert_eq!(
        run(bulk(2).read(64, 0, 0x10).unwrap(), &[0x8000_0000]),
        vec![load(word), Action::Failed(UsbError::WouldBlock)]
    );
    let askew = EndpointConfig { out_buf: Some(ASKEW), ..bulk(2) };
    assert_eq!(
        run(askew.read(64, 0, 0x10).unwrap(), &[0x8000_0000]),
        vec![load(word), Action::Failed(UsbError::WouldBlock)]
    );
    assert_eq!(run(askew.read(64, 0, 0x10).unwrap(), &[0, 0]).last(), Some(&Action::Fault));
}

#[test]
fn endpoints_keep_to_their_own_words() {
    let inputs = [0, 0, 0, 0, 0, 0, 0, 0];
    for transfer in [bulk(1).configure(), bulk(1).write(&[1]).unwrap(), bulk(1).read(9, 0, 4).unwrap()] {
        for action in run(transfer, &inputs) {
            let register = match action {
                Action::Load(register) => register,
                Action::Store(register, _) => register,
                _ => continue,
            };
            assert!(matches!(
                register,
                Register::IntStat | Register::DevCmdStat | Register::Endpoint(1, _)
            ));
        }
    }
}
