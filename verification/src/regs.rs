//! Hardware initialization plans.
//!
//! Bringing the controller up is a fixed sequence of irreversible register
//! writes. The functions here compute that sequence as data, bit-exact;
//! the kernel shell performs the writes in order against the I/O base (or
//! the memory-mapped base). Between the reset command and the startup plan
//! the shell must busy-wait until `reset_complete` holds of the command
//! register, and must abort initialization if that state is never reached:
//! enabling interrupts on a device still mid-reset is a fatal error.

use vstd::prelude::*;

verus! {

/// One register write, at an offset from the device's register base.
#[derive(Clone, Copy, PartialEq, Eq, Structural, Debug)]
pub enum RegWrite {
    /// 8-bit write.
    B(u16, u8),
    /// 16-bit write.
    W(u16, u16),
    /// 32-bit write.
    D(u16, u32),
}

/// PCI command-register value with bus mastering enabled (bit 2), to be
/// written back to PCI config offset 0x04.
pub fn bus_master_command(cmd: u32) -> (r: u32)
    ensures
        r == cmd | 4u32,
{
    cmd | 4
}

/// The writes that clear config register 9 and issue the software reset
/// (command register bit 4). After performing them the shell polls the
/// command register until `reset_complete`.
pub fn reset_sequence() -> (w: Vec<RegWrite>)
    ensures
        w@ =~= seq![RegWrite::B(0x52, 0u8), RegWrite::B(0x37, 0x10u8)],
{
    let mut w: Vec<RegWrite> = Vec::new();
    w.push(RegWrite::B(0x52, 0));
    w.push(RegWrite::B(0x37, 0x10));
    w
}

/// Whether a command-register value shows the software reset finished
/// (reset-in-progress bit 4 cleared).
pub fn reset_complete(cmd: u8) -> (b: bool)
    ensures
        b <==> (cmd & 0x10 == 0),
{
    cmd & 0x10 == 0
}

/// The register writes that start the controller once reset completed:
/// program the receive ring's physical start address, the four transmit
/// buffer addresses, unmask the receive-OK and transmit-OK interrupt
/// classes, enable receiver and transmitter, and configure reception to
/// accept physical-match, physical-address, multicast and broadcast frames
/// with ring wraparound.
pub fn startup_plan(rx_ring: u32, tx_bufs: &[u32; 4]) -> (w: Vec<RegWrite>)
    ensures
        w@ =~= seq![
            RegWrite::D(0x30, rx_ring),
            RegWrite::D(0x20, tx_bufs@[0]),
            RegWrite::D(0x24, tx_bufs@[1]),
            RegWrite::D(0x28, tx_bufs@[2]),
            RegWrite::D(0x2C, tx_bufs@[3]),
            RegWrite::W(0x3C, 5u16),
            RegWrite::B(0x37, 0x0Cu8),
            RegWrite::D(0x44, 0x8Fu32),
        ],
{
    let mut w: Vec<RegWrite> = Vec::new();
    w.push(RegWrite::D(0x30, rx_ring));
    w.push(RegWrite::D(0x20, tx_bufs[0]));
    w.push(RegWrite::D(0x24, tx_bufs[1]));
    w.push(RegWrite::D(0x28, tx_bufs[2]));
    w.push(RegWrite::D(0x2C, tx_bufs[3]));
    w.push(RegWrite::W(0x3C, 5));
    w.push(RegWrite::B(0x37, 0x0C));
    w.push(RegWrite::D(0x44, 0x8F));
    w
}

/// A burned-in MAC address, read for diagnostic reporting.
pub struct MacAddr {
    pub bytes: Vec<u8>,
}

/// Decodes the six MAC address bytes from the two 32-bit registers at
/// offsets 0x00 (low four bytes) and 0x04 (high two bytes).
pub fn mac_from_registers(low: u32, high: u32) -> (m: MacAddr)
    ensures
        m.bytes@ =~= seq![
            low as u8,
            (low >> 8u32) as u8,
            (low >> 16u32) as u8,
            (low >> 24u32) as u8,
            high as u8,
            (high >> 8u32) as u8,
        ],
{
    let mut bytes: Vec<u8> = Vec::new();
    bytes.push(#[verifier::truncate] (low as u8));
    bytes.push(#[verifier::truncate] ((low >> 8) as u8));
    bytes.push(#[verifier::truncate] ((low >> 16) as u8));
    bytes.push(#[verifier::truncate] ((low >> 24) as u8));
    bytes.push(#[verifier::truncate] (high as u8));
    bytes.push(#[verifier::truncate] ((high >> 8) as u8));
    MacAddr { bytes }
}

} // verus!
