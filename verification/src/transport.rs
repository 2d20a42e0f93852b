//! Transports for the register driver.
//!
//! The driver is generic over [`SpiBus`]: a capability that selects the
//! device, exchanges a frame of bytes full-duplex, and deselects — one
//! transaction per call. What the transaction does to the device is
//! pinned to the protocol model in [`crate::protocol`], so every
//! conforming transport gives the driver the same register-file
//! semantics.
//!
//! Two transports are provided. [`DirectLink`] drives a device on a
//! direct synchronous bus. [`BridgeLink`] reaches the device through a
//! bridge chip on an addressed bus ([`AddressedHost`]): the frame is
//! written to the bridge, which performs the transfer and latches the
//! response; after a configurable settling pause the response is read
//! back in a second, split transaction. The pause length is a
//! configuration parameter of the bridge link, never hardcoded — a
//! bridge without settling time between the two phases returns garbage,
//! which is why the link will not be built without one.
//!
//! Both concrete hosts here simulate the device itself (a register file
//! obeying the protocol model), which is what lets the whole driver
//! stack be checked; a hardware-backed transport implements the same
//! trait at the system's edge.

use vstd::prelude::*;
use crate::protocol::{device_next_regs, device_response, device_response_byte, is_burst_command,
    is_write_command, command_addr};

verus! {

/// A transport-level failure, propagated to the driver's caller without
/// retry.
#[derive(Clone, Copy, PartialEq, Eq, Structural, Debug)]
pub enum TransportError {
    /// The addressed device did not acknowledge.
    Nack,
    /// The transfer itself failed.
    Transfer,
}

/// The byte-transfer capability the driver is generic over: select,
/// exchange one frame full-duplex, deselect. A frame carries at most a
/// command byte plus the full register file.
pub trait SpiBus: Sized {
    /// The 64-byte register file of the device behind this transport.
    spec fn regs(&self) -> Seq<u8>;

    /// The transport is usable.
    spec fn inv(&self) -> bool;

    /// Whether this transport can never report a failure. True of the
    /// simulated links here; a hardware-backed transport says false and
    /// keeps the error path.
    spec fn infallible(&self) -> bool;

    /// One select–transfer–deselect transaction: shifts `out` to the
    /// device and, on success, returns the bytes shifted back, with the
    /// device's registers updated as the protocol model says. An
    /// infallible transport must succeed.
    fn transact(&mut self, out: &Vec<u8>) -> (r: Result<Vec<u8>, TransportError>)
        requires
            old(self).inv(),
            1 <= out@.len() <= 65,
        ensures
            final(self).inv(),
            final(self).infallible() == old(self).infallible(),
            old(self).infallible() ==> r is Ok,
            r matches Ok(resp) ==> resp@ == device_response(old(self).regs(), out@)
                && final(self).regs() == device_next_regs(old(self).regs(), out@),
    ;
}

/// Clocks one frame through a simulated device: applies the protocol
/// model to the register file and produces the response bytes.
fn exchange(regs: &mut Vec<u8>, out: &Vec<u8>) -> (resp: Vec<u8>)
    requires
        old(regs)@.len() == 64,
        1 <= out@.len() <= 65,
    ensures
        final(regs)@.len() == 64,
        final(regs)@ == device_next_regs(old(regs)@, out@),
        resp@ == device_response(old(regs)@, out@),
{
    let ghost regs0 = regs@;
    let cmd = out[0];
    proof {
        assert(cmd & 0x3F < 64) by (bit_vector);
    }
    let addr = (cmd & 0x3F) as usize;
    let is_wr = (cmd & 0x80) == 0x80;
    let is_bu = (cmd & 0x40) == 0x40;
    if is_wr && out.len() >= 2 {
        let slot = &mut regs[addr];
        *slot = out[1];
    }
    let mut resp: Vec<u8> = Vec::new();
    resp.push(0);
    let mut i: usize = 1;
    while i < out.len()
        invariant
            1 <= i <= out@.len(),
            out@.len() <= 65,
            regs@.len() == 64,
            resp@.len() == i,
            cmd == out@[0],
            addr == command_addr(cmd),
            addr < 64,
            is_wr == is_write_command(cmd),
            is_bu == is_burst_command(cmd),
            regs@ == device_next_regs(regs0, out@),
            !is_wr ==> regs@ == regs0,
            forall|j: int| 0 <= j < i ==> resp@[j] == device_response_byte(regs0, cmd, j),
        decreases out@.len() - i,
    {
        if is_wr {
            resp.push(0);
        } else if is_bu {
            let k = addr + (i - 1);
            if k < 64 {
                let b = regs[k];
                resp.push(b);
            } else {
                resp.push(0);
            }
        } else {
            let b = regs[addr];
            resp.push(b);
        }
        i = i + 1;
    }
    proof {
        assert(resp@ =~= device_response(regs0, out@));
    }
    resp
}

/// A device on a direct synchronous bus; the device itself is the
/// simulated register file.
pub struct DirectLink {
    regs: Vec<u8>,
}

impl DirectLink {
    /// A direct link to a device holding the given 64 registers.
    pub fn new(initial: Vec<u8>) -> (link: DirectLink)
        requires
            initial@.len() == 64,
        ensures
            link.inv(),
            link.infallible(),
            link.regs() == initial@,
    {
        DirectLink { regs: initial }
    }
}

impl SpiBus for DirectLink {
    closed spec fn regs(&self) -> Seq<u8> {
        self.regs@
    }

    closed spec fn inv(&self) -> bool {
        self.regs@.len() == 64
    }

    closed spec fn infallible(&self) -> bool {
        true
    }

    fn transact(&mut self, out: &Vec<u8>) -> (r: Result<Vec<u8>, TransportError>) {
        let resp = exchange(&mut self.regs, out);
        Ok(resp)
    }
}

/// The capability of a bridge chip on an addressed bus: write a frame
/// (the bridge performs the transfer and latches the response), pause
/// for settling, read the latched response back.
pub trait AddressedHost: Sized {
    /// The 64-byte register file of the device behind the bridge.
    spec fn regs(&self) -> Seq<u8>;

    /// The response bytes the bridge latched during the last transfer.
    spec fn latched(&self) -> Seq<u8>;

    /// The bridge is usable.
    spec fn inv(&self) -> bool;

    /// Whether this bridge can never report a failure; true of the
    /// simulated host, false of a hardware-backed one.
    spec fn infallible(&self) -> bool;

    /// Writes one frame through the bridge: the bridge clocks it into
    /// the device and latches the response. An infallible bridge must
    /// succeed.
    fn write_frame(&mut self, bytes: &Vec<u8>) -> (r: Result<(), TransportError>)
        requires
            old(self).inv(),
            1 <= bytes@.len() <= 65,
        ensures
            final(self).inv(),
            final(self).infallible() == old(self).infallible(),
            old(self).infallible() ==> r is Ok,
            r is Ok ==> final(self).regs() == device_next_regs(old(self).regs(), bytes@)
                && final(self).latched() == device_response(old(self).regs(), bytes@),
    ;

    /// Reads back the first `n` latched response bytes. An infallible
    /// bridge must succeed.
    fn read_frame(&mut self, n: usize) -> (r: Result<Vec<u8>, TransportError>)
        requires
            old(self).inv(),
            n <= old(self).latched().len(),
        ensures
            final(self).inv(),
            final(self).infallible() == old(self).infallible(),
            old(self).infallible() ==> r is Ok,
            final(self).regs() == old(self).regs(),
            final(self).latched() == old(self).latched(),
            r matches Ok(resp) ==> resp@ == old(self).latched().take(n as int),
    ;

    /// Waits for the bridge's settling time; changes nothing observable.
    fn pause(&mut self, ticks: u32)
        requires
            old(self).inv(),
        ensures
            final(self).inv(),
            final(self).infallible() == old(self).infallible(),
            final(self).regs() == old(self).regs(),
            final(self).latched() == old(self).latched(),
    ;
}

/// A device reached through a bridge chip on an addressed bus: each
/// transaction is split into a write phase, a settling pause, and a read
/// phase.
pub struct BridgeLink<A> {
    host: A,
    settle_ticks: u32,
}

impl<A: AddressedHost> BridgeLink<A> {
    /// A bridged link with the given settling time between the write and
    /// read halves of each split transaction.
    pub fn new(host: A, settle_ticks: u32) -> (link: BridgeLink<A>)
        requires
            host.inv(),
        ensures
            link.inv(),
            link.infallible() == host.infallible(),
            link.regs() == host.regs(),
    {
        BridgeLink { host, settle_ticks }
    }
}

impl<A: AddressedHost> SpiBus for BridgeLink<A> {
    closed spec fn regs(&self) -> Seq<u8> {
        self.host.regs()
    }

    closed spec fn inv(&self) -> bool {
        self.host.inv()
    }

    closed spec fn infallible(&self) -> bool {
        self.host.infallible()
    }

    fn transact(&mut self, out: &Vec<u8>) -> (r: Result<Vec<u8>, TransportError>) {
        match self.host.write_frame(out) {
            Ok(()) => {},
            Err(e) => {
                return Err(e);
            },
        }
        self.host.pause(self.settle_ticks);
        match self.host.read_frame(out.len()) {
            Ok(resp) => {
                proof {
                    assert(resp@ =~= device_response(old(self).regs(), out@));
                }
                Ok(resp)
            },
            Err(e) => Err(e),
        }
    }
}

/// A simulated bridge chip with the device's register file behind it:
/// performs the transfer on write, latches the response, and answers
/// read-backs from the latch.
pub struct SimHost {
    regs: Vec<u8>,
    latch: Vec<u8>,
}

impl SimHost {
    /// A simulated bridge over a device holding the given 64 registers.
    pub fn new(initial: Vec<u8>) -> (h: SimHost)
        requires
            initial@.len() == 64,
        ensures
            h.inv(),
            h.infallible(),
            h.regs() == initial@,
    {
        SimHost { regs: initial, latch: Vec::new() }
    }
}

impl AddressedHost for SimHost {
    closed spec fn regs(&self) -> Seq<u8> {
        self.regs@
    }

    closed spec fn latched(&self) -> Seq<u8> {
        self.latch@
    }

    closed spec fn inv(&self) -> bool {
        self.regs@.len() == 64
    }

    closed spec fn infallible(&self) -> bool {
        true
    }

    fn write_frame(&mut self, bytes: &Vec<u8>) -> (r: Result<(), TransportError>) {
        let resp = exchange(&mut self.regs, bytes);
        self.latch = resp;
        Ok(())
    }

    fn read_frame(&mut self, n: usize) -> (r: Result<Vec<u8>, TransportError>) {
        let mut v: Vec<u8> = Vec::new();
        let mut i: usize = 0;
        while i < n
            invariant
                i <= n,
                n <= self.latch@.len(),
                self.regs@ == old(self).regs@,
                self.latch@ == old(self).latch@,
                v@ == self.latch@.take(i as int),
            decreases n - i,
        {
            let b = self.latch[i];
            v.push(b);
            proof {
                assert(v@ =~= self.latch@.take(i + 1));
            }
            i = i + 1;
        }
        Ok(v)
    }

    fn pause(&mut self, ticks: u32) {
    }
}

} // verus!
