use sched_core::driver::RegDriver;
use sched_core::protocol::{frame_command, ADDR_MASK, BURST_FLAG, REG_COUNT, WRITE_FLAG};
use sched_core::transport::{BridgeLink, DirectLink, SimHost, SpiBus};

fn blank_regs() -> Vec<u8> {
    vec![0u8; REG_COUNT]
}

#[test]
fn command_bytes_encode_direction_burst_and_address() {
    let w = frame_command(0x12, true, false);
    assert_eq!(w & WRITE_FLAG, WRITE_FLAG);
    assert_eq!(w & BURST_FLAG, 0);
    assert_eq!(w & ADDR_MASK, 0x12);

    let r = frame_command(0x12, false, false);
    assert_eq!(r & WRITE_FLAG, 0);
    assert_eq!(r & BURST_FLAG, 0);
    assert_eq!(r & ADDR_MASK, 0x12);

    let b = frame_command(0x3F, false, true);
    assert_eq!(b & WRITE_FLAG, 0);
    assert_eq!(b & BURST_FLAG, BURST_FLAG);
    assert_eq!(b & ADDR_MASK, 0x3F);
}

#[test]
fn round_trip_over_the_direct_transport() {
    let mut drv = RegDriver::new(DirectLink::new(blank_regs()));
    assert_eq!(drv.write_register(0x12, 0xAB), Ok(()));
    assert_eq!(drv.read_register(0x12), Ok(0xAB));
    assert_eq!(drv.read_register(0x13), Ok(0));
    assert_eq!(drv.write_then_read(0x2A, 0x55), Ok(0x55));
}

#[test]
fn round_trip_over_the_bridge_transport() {
    let host = SimHost::new(blank_regs());
    let mut drv = RegDriver::new(BridgeLink::new(host, 1_000));
    assert_eq!(drv.write_register(0x12, 0xAB), Ok(()));
    assert_eq!(drv.read_register(0x12), Ok(0xAB));
    assert_eq!(drv.write_then_read(0x2A, 0x55), Ok(0x55));
}

#[test]
fn burst_read_returns_consecutive_registers() {
    let mut drv = RegDriver::new(DirectLink::new(blank_regs()));
    assert_eq!(drv.write_register(0x10, 1), Ok(()));
    assert_eq!(drv.write_register(0x11, 2), Ok(()));
    assert_eq!(drv.write_register(0x12, 3), Ok(()));
    assert_eq!(drv.read_burst(0x10, 3), Ok(vec![1, 2, 3]));
    // Works over the bridge too.
    let host = SimHost::new(blank_regs());
    let mut drv2 = RegDriver::new(BridgeLink::new(host, 10));
    assert_eq!(drv2.write_register(0x00, 9), Ok(()));
    assert_eq!(drv2.write_register(0x01, 8), Ok(()));
    assert_eq!(drv2.read_burst(0x00, 2), Ok(vec![9, 8]));
}

#[test]
fn misframed_single_command_does_not_stream_a_burst() {
    // Conformance check on the byte stream itself: prepare distinct
    // registers, then clock a frame whose command byte lacks the burst
    // flag. The device must repeat the single addressed register instead
    // of streaming consecutive ones.
    let mut regs = blank_regs();
    regs[0x20] = 0xA0;
    regs[0x21] = 0xA1;
    regs[0x22] = 0xA2;
    let mut link = DirectLink::new(regs);

    let single = frame_command(0x20, false, false);
    assert_eq!(single & BURST_FLAG, 0);
    let resp = link.transact(&vec![single, 0, 0, 0]).unwrap();
    assert_eq!(resp, vec![0, 0xA0, 0xA0, 0xA0]);

    let burst = frame_command(0x20, false, true);
    assert_eq!(burst & BURST_FLAG, BURST_FLAG);
    let resp = link.transact(&vec![burst, 0, 0, 0]).unwrap();
    assert_eq!(resp, vec![0, 0xA0, 0xA1, 0xA2]);
}
