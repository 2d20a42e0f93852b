//! Command-byte framing of the register protocol, and the register-file
//! semantics a conforming device gives to one framed transaction.
//!
//! Every transaction starts with a command byte: the high bit gives the
//! direction (set for a write), the second-highest bit marks a burst
//! access, and the low six bits address one of 64 registers. A write
//! frame carries the value in its second byte. During a read frame the
//! device shifts the addressed register back on every byte after the
//! command — the same register for a single read, consecutive registers
//! for a burst.

use vstd::prelude::*;

verus! {

/// Size of the register file: the six address bits reach 64 registers.
pub const REG_COUNT: usize = 64;

/// Command-byte bit 7: set for a write, clear for a read.
pub const WRITE_FLAG: u8 = 0x80;

/// Command-byte bit 6: set for a burst access.
pub const BURST_FLAG: u8 = 0x40;

/// The low six bits of a command byte: the register address.
pub const ADDR_MASK: u8 = 0x3F;

/// Whether a command byte asks for a write.
pub open spec fn is_write_command(c: u8) -> bool {
    c & 0x80 == 0x80
}

/// Whether a command byte asks for a burst access.
pub open spec fn is_burst_command(c: u8) -> bool {
    c & 0x40 == 0x40
}

/// The register address carried by a command byte.
pub open spec fn command_addr(c: u8) -> u8 {
    c & 0x3F
}

/// The command byte for the given address, direction and burst flag.
pub open spec fn spec_command(addr: u8, write: bool, burst: bool) -> u8 {
    (addr & 0x3F) | (if write { 0x80u8 } else { 0u8 }) | (if burst { 0x40u8 } else { 0u8 })
}

/// A well-formed command byte decodes back into the pieces it was framed
/// from.
pub proof fn lemma_command_bits(addr: u8, write: bool, burst: bool)
    requires
        addr < 0x40,
    ensures
        command_addr(spec_command(addr, write, burst)) == addr,
        is_write_command(spec_command(addr, write, burst)) == write,
        is_burst_command(spec_command(addr, write, burst)) == burst,
{
    if write {
        if burst {
            assert(((addr & 0x3F) | 0x80u8 | 0x40u8) & 0x3F == addr
                && ((addr & 0x3F) | 0x80u8 | 0x40u8) & 0x80 == 0x80
                && ((addr & 0x3F) | 0x80u8 | 0x40u8) & 0x40 == 0x40) by (bit_vector)
                requires addr < 0x40;
        } else {
            assert(((addr & 0x3F) | 0x80u8 | 0u8) & 0x3F == addr
                && ((addr & 0x3F) | 0x80u8 | 0u8) & 0x80 == 0x80
                && ((addr & 0x3F) | 0x80u8 | 0u8) & 0x40 == 0) by (bit_vector)
                requires addr < 0x40;
        }
    } else {
        if burst {
            assert(((addr & 0x3F) | 0u8 | 0x40u8) & 0x3F == addr
                && ((addr & 0x3F) | 0u8 | 0x40u8) & 0x80 == 0
                && ((addr & 0x3F) | 0u8 | 0x40u8) & 0x40 == 0x40) by (bit_vector)
                requires addr < 0x40;
        } else {
            assert(((addr & 0x3F) | 0u8 | 0u8) & 0x3F == addr
                && ((addr & 0x3F) | 0u8 | 0u8) & 0x80 == 0
                && ((addr & 0x3F) | 0u8 | 0u8) & 0x40 == 0) by (bit_vector)
                requires addr < 0x40;
        }
    }
}

/// Frames a command byte.
pub fn frame_command(addr: u8, write: bool, burst: bool) -> (c: u8)
    requires
        addr < 0x40,
    ensures
        c == spec_command(addr, write, burst),
        command_addr(c) == addr,
        is_write_command(c) == write,
        is_burst_command(c) == burst,
{
    proof {
        lemma_command_bits(addr, write, burst);
    }
    let mut c = addr;
    if write {
        c = c | 0x80;
    }
    if burst {
        c = c | 0x40;
    }
    proof {
        if write {
            if burst {
                assert((addr | 0x80) | 0x40 == ((addr & 0x3F) | 0x80u8) | 0x40u8) by (bit_vector)
                    requires addr < 0x40;
            } else {
                assert(addr | 0x80 == ((addr & 0x3F) | 0x80u8) | 0u8) by (bit_vector)
                    requires addr < 0x40;
            }
        } else {
            if burst {
                assert(addr | 0x40 == ((addr & 0x3F) | 0u8) | 0x40u8) by (bit_vector)
                    requires addr < 0x40;
            } else {
                assert(addr == ((addr & 0x3F) | 0u8) | 0u8) by (bit_vector)
                    requires addr < 0x40;
            }
        }
    }
    c
}

/// The register file after a conforming device has clocked through one
/// selected frame: a write command with a value byte stores that value
/// at the addressed register; everything else leaves the file untouched.
pub open spec fn device_next_regs(regs: Seq<u8>, out: Seq<u8>) -> Seq<u8> {
    if out.len() >= 2 && is_write_command(out[0]) {
        regs.update(command_addr(out[0]) as int, out[1])
    } else {
        regs
    }
}

/// Byte `i` of the device's response to a frame led by `cmd`: nothing
/// meaningful while the command itself is shifting out (byte 0) or
/// during a write; the addressed register on every later byte of a
/// single read; consecutive registers from the start address during a
/// burst read.
pub open spec fn device_response_byte(regs: Seq<u8>, cmd: u8, i: int) -> u8 {
    if i == 0 {
        0
    } else if is_write_command(cmd) {
        0
    } else if is_burst_command(cmd) {
        if command_addr(cmd) + i - 1 < 64 {
            regs[command_addr(cmd) + i - 1]
        } else {
            0
        }
    } else {
        regs[command_addr(cmd) as int]
    }
}

/// The full response a conforming device shifts back during one frame:
/// one byte per byte sent.
pub open spec fn device_response(regs: Seq<u8>, out: Seq<u8>) -> Seq<u8> {
    Seq::new(out.len(), |i: int| device_response_byte(regs, out[0], i))
}

/// Round trip over the device model: a write frame for `addr` carrying
/// `v`, followed by a single-read frame for the same address, answers
/// with `v`.
pub proof fn lemma_register_round_trip(regs: Seq<u8>, addr: u8, v: u8)
    requires
        addr < 0x40,
        regs.len() == 64,
    ensures
        ({
            let written = device_next_regs(regs, seq![spec_command(addr, true, false), v]);
            let answer = device_response(written, seq![spec_command(addr, false, false), 0]);
            answer.len() == 2 && answer[1] == v
        }),
{
    lemma_command_bits(addr, true, false);
    lemma_command_bits(addr, false, false);
}

} // verus!
