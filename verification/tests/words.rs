use usbfs_endpoint::entry::{is_active, nbytes};
use usbfs_endpoint::{EndpointBuffer, EndpointStatus, EndpointType, Update};

#[test]
fn status_is_decoded() {
    assert_eq!(EndpointStatus::from(0), EndpointStatus::Disabled);
    assert_eq!(EndpointStatus::from(1), EndpointStatus::Stall);
    assert_eq!(EndpointStatus::from(2), EndpointStatus::Nak);
    assert_eq!(EndpointStatus::from(3), EndpointStatus::Valid);
    assert_eq!(EndpointStatus::from(4), EndpointStatus::Disabled);
    assert_eq!(EndpointStatus::from(255), EndpointStatus::Disabled);
}

#[test]
fn status_numbers_are_those_it_is_decoded_from() {
    for v in 0u8..4 {
        assert_eq!(EndpointStatus::from(v) as u8, v);
    }
}

#[test]
fn type_bits() {
    assert_eq!(EndpointType::Control.bits(), 0b01);
    assert_eq!(EndpointType::Isochronous.bits(), 0b10);
    assert_eq!(EndpointType::Bulk.bits(), 0b00);
    assert_eq!(EndpointType::Interrupt.bits(), 0b11);
}

#[test]
fn fields_of_a_word() {
    assert_eq!(nbytes(0x0000_ffff), 0);
    assert_eq!(nbytes(0x0040_4001), 64);
    assert_eq!(nbytes(0xffff_ffff), 1023);
    assert!(is_active(0x8000_0000));
    assert!(!is_active(0x7fff_ffff));
}

#[test]
fn updates_replace_their_fields_only() {
    assert_eq!(Update::none().apply(0x1234_5678), 0x1234_5678);
    assert_eq!(Update::set(0x2).apply(0x8000_0001), 0x8000_0003);
    assert_eq!(Update::none().nbytes(64).apply(0xffff_ffff), 0xfc40_ffff);
    assert_eq!(Update::none().addroff(0x4001).apply(0xffff_ffff), 0xffff_4001);
    assert_eq!(Update::none().active(true).apply(0), 0x8000_0000);
    assert_eq!(Update::none().active(false).apply(0xffff_ffff), 0x7fff_ffff);
    assert_eq!(Update::none().enabled().apply(0xffff_ffff), 0xbfff_ffff);
    assert_eq!(Update::none().not_stalled().apply(0xffff_ffff), 0xdfff_ffff);
}

#[test]
fn fields_keep_their_lowest_bits() {
    assert_eq!(Update::none().nbytes(1023).apply(0), 0x03ff_0000);
    assert_eq!(Update::none().nbytes(1024).apply(0), 0);
    assert_eq!(Update::none().nbytes(1025).apply(0), 0x0001_0000);
    assert_eq!(Update::none().addroff(0x1_0003).apply(0), 0x0000_0003);
}

#[test]
fn a_later_value_replaces_an_earlier_one() {
    let update = Update::none().active(true).nbytes(7).active(false);
    assert_eq!(update, Update { mask: 0x83ff_0000, bits: 0x0007_0000 });
}

#[test]
fn offsets_of_buffers() {
    let at = |addr: u32| EndpointBuffer { addr, len: 64, capacity: 64 };
    assert!(at(0x4010_0040).is_aligned());
    assert!(!at(0x4010_0041).is_aligned());
    assert!(!at(0x4010_0020).is_aligned());
    assert_eq!(at(0x4010_0040).addroff(), 0x4001);
    assert_eq!(at(0x0000_0000).addroff(), 0);
    assert_eq!(at(0x003f_ffc0).addroff(), 0xffff);
    assert_eq!(at(0x0040_0000).addroff(), 0);
}

#[test]
fn an_offset_and_the_bits_above_it_are_the_address() {
    let addr: u32 = 0x2001_4c80;
    let buffer = EndpointBuffer { addr, len: 8, capacity: 8 };
    assert_eq!((addr & 0xffc0_0000) + buffer.addroff() * 64, addr);
}
