//! The generic register-access driver.
//!
//! [`RegDriver`] owns its transport (injected at construction, never
//! global) and performs byte-oriented register reads, writes and burst
//! reads against the device behind it, framing each access with the
//! command-byte protocol of [`crate::protocol`]. It is oblivious to
//! whether the transport is a direct bus or a bridge: it depends only on
//! the [`SpiBus`] capability. Transport errors propagate to the caller
//! as they are — the driver never retries silently.

use vstd::prelude::*;
use crate::protocol::{device_response, frame_command, lemma_command_bits, spec_command};
use crate::transport::{SpiBus, TransportError};

verus! {

/// A register-access driver over an injected transport.
pub struct RegDriver<T: SpiBus> {
    link: T,
}

impl<T: SpiBus> RegDriver<T> {
    /// The register file of the device behind the driver's transport.
    pub closed spec fn regs(&self) -> Seq<u8> {
        self.link.regs()
    }

    /// The driver is usable: its transport is.
    pub closed spec fn inv(&self) -> bool {
        self.link.inv()
    }

    /// Whether the driver's transport can never report a failure.
    pub closed spec fn infallible(&self) -> bool {
        self.link.infallible()
    }

    /// Takes ownership of the transport.
    pub fn new(link: T) -> (d: RegDriver<T>)
        requires
            link.inv(),
        ensures
            d.inv(),
            d.infallible() == link.infallible(),
            d.regs() == link.regs(),
    {
        RegDriver { link }
    }

    /// Writes `value` to the register at `addr`: frames a write command
    /// plus the value byte, performs one transaction, discards the
    /// response. On success — owed whenever the transport cannot fail —
    /// the device holds the new value; a transport error is handed back
    /// untouched.
    pub fn write_register(&mut self, addr: u8, value: u8) -> (r: Result<(), TransportError>)
        requires
            old(self).inv(),
            addr < 0x40,
        ensures
            final(self).inv(),
            final(self).infallible() == old(self).infallible(),
            old(self).infallible() ==> r is Ok,
            r is Ok ==> final(self).regs() == old(self).regs().update(addr as int, value),
    {
        let cmd = frame_command(addr, true, false);
        let mut frame: Vec<u8> = Vec::new();
        frame.push(cmd);
        frame.push(value);
        match self.link.transact(&frame) {
            Ok(_) => {
                proof {
                    assert(frame@[0] == cmd && frame@[1] == value && frame@.len() == 2);
                }
                Ok(())
            },
            Err(e) => Err(e),
        }
    }

    /// Reads the register at `addr`: frames a read command, performs one
    /// transaction, and returns the byte the device shifted back after
    /// the command — owed whenever the transport cannot fail. The
    /// register file is left untouched.
    pub fn read_register(&mut self, addr: u8) -> (r: Result<u8, TransportError>)
        requires
            old(self).inv(),
            addr < 0x40,
        ensures
            final(self).inv(),
            final(self).infallible() == old(self).infallible(),
            old(self).infallible() ==> r is Ok,
            r matches Ok(v) ==> v == old(self).regs()[addr as int]
                && final(self).regs() == old(self).regs(),
    {
        let cmd = frame_command(addr, false, false);
        let mut frame: Vec<u8> = Vec::new();
        frame.push(cmd);
        frame.push(0);
        match self.link.transact(&frame) {
            Ok(resp) => {
                proof {
                    assert(frame@[0] == cmd && frame@.len() == 2);
                    assert(resp@.len() == 2);
                    assert(resp@[1] == old(self).regs()[addr as int]);
                }
                Ok(resp[1])
            },
            Err(e) => Err(e),
        }
    }

    /// Burst-reads `len` registers starting at `start`: frames the start
    /// address with the burst flag set, performs one transaction, and
    /// returns the `len` bytes the device streamed back — the registers
    /// `start`, `start + 1`, … in order. The burst must fit the register
    /// file; that is the caller's contract.
    pub fn read_burst(&mut self, start: u8, len: usize) -> (r: Result<Vec<u8>, TransportError>)
        requires
            old(self).inv(),
            start < 0x40,
            start + len <= 64,
        ensures
            final(self).inv(),
            final(self).infallible() == old(self).infallible(),
            old(self).infallible() ==> r is Ok,
            r matches Ok(data) ==> data@.len() == len
                && (forall|i: int| 0 <= i < len
                    ==> #[trigger] data@[i] == old(self).regs()[start + i])
                && final(self).regs() == old(self).regs(),
    {
        let cmd = frame_command(start, false, true);
        let mut frame: Vec<u8> = Vec::new();
        frame.push(cmd);
        let mut k: usize = 0;
        while k < len
            invariant
                k <= len,
                len <= 64,
                frame@.len() == k + 1,
                frame@[0] == cmd,
            decreases len - k,
        {
            frame.push(0);
            k = k + 1;
        }
        match self.link.transact(&frame) {
            Ok(resp) => {
                proof {
                    assert(resp@.len() == len + 1);
                }
                let mut data: Vec<u8> = Vec::new();
                let mut i: usize = 0;
                while i < len
                    invariant
                        i <= len,
                        len <= 64,
                        start < 0x40,
                        start + len <= 64,
                        resp@.len() == len + 1,
                        resp@ == device_response(old(self).regs(), frame@),
                        frame@[0] == cmd,
                        cmd == spec_command(start, false, true),
                        data@.len() == i,
                        forall|j: int| 0 <= j < i
                            ==> #[trigger] data@[j] == old(self).regs()[start + j],
                    decreases len - i,
                {
                    let b = resp[i + 1];
                    proof {
                        lemma_command_bits(start, false, true);
                        assert(resp@[i + 1] == device_response(old(self).regs(), frame@)[i + 1]);
                        assert(start + (i + 1) - 1 < 64);
                        assert(b == old(self).regs()[start + i]);
                    }
                    data.push(b);
                    i = i + 1;
                }
                Ok(data)
            },
            Err(e) => Err(e),
        }
    }

    /// Round trip through a live driver: writing a register and then
    /// reading the same address yields the written value, whichever
    /// conforming transport carries the accesses — unconditionally so on
    /// a transport that cannot fail.
    pub fn write_then_read(&mut self, addr: u8, value: u8) -> (r: Result<u8, TransportError>)
        requires
            old(self).inv(),
            addr < 0x40,
            old(self).regs().len() == 64,
        ensures
            final(self).inv(),
            final(self).infallible() == old(self).infallible(),
            r matches Ok(v) ==> v == value,
            old(self).infallible() ==> r == Result::<u8, TransportError>::Ok(value),
    {
        match self.write_register(addr, value) {
            Ok(()) => {},
            Err(e) => {
                return Err(e);
            },
        }
        self.read_register(addr)
    }
}

} // verus!
