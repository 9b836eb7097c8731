//! The first serial port: its setup and what is sent for a string.
use vstd::prelude::*;
use vstd::string::StringSliceAdditionalSpecFns;

verus! {

/// Base port of COM1.
pub const COM1: u16 = 0x3F8;

/// Line status bit: the transmitter can take a byte.
pub const TRANSMIT_EMPTY: u8 = 0x20;

/// Writer of text to the serial port.
pub struct Serial;

/// The port writes that set COM1 up: interrupts off, divisor 3 (38400
/// baud), 8 bits without parity and one stop bit, FIFOs on and cleared
/// with a 14-byte threshold, and the modem lines set.
pub fn init() -> (ops: Vec<(u16, u8)>)
    ensures
        ops@ == seq![
            (0x3F9u16, 0x00u8),
            (0x3FBu16, 0x80u8),
            (0x3F8u16, 0x03u8),
            (0x3F9u16, 0x00u8),
            (0x3FBu16, 0x03u8),
            (0x3FAu16, 0xC7u8),
            (0x3FCu16, 0x0Bu8),
        ],
{
    let mut ops: Vec<(u16, u8)> = Vec::new();
    ops.push((COM1 + 1, 0x00));
    ops.push((COM1 + 3, 0x80));
    ops.push((COM1 + 0, 0x03));
    ops.push((COM1 + 1, 0x00));
    ops.push((COM1 + 3, 0x03));
    ops.push((COM1 + 2, 0xC7));
    ops.push((COM1 + 4, 0x0B));
    proof {
        assert(ops@ =~= seq![
            (0x3F9u16, 0x00u8),
            (0x3FBu16, 0x80u8),
            (0x3F8u16, 0x03u8),
            (0x3F9u16, 0x00u8),
            (0x3FBu16, 0x03u8),
            (0x3FAu16, 0xC7u8),
            (0x3FCu16, 0x0Bu8),
        ]);
    }
    ops
}

/// Port of the line status register.
pub fn line_status_port() -> (p: u16)
    ensures
        p == COM1 + 5,
{
    COM1 + 5
}

/// Whether the line status says a byte can be sent.
pub fn transmit_ready(status: u8) -> (r: bool)
    ensures
        r == (status & TRANSMIT_EMPTY != 0),
{
    status & TRANSMIT_EMPTY != 0
}

/// The bytes sent for `s`, in order: its UTF-8 encoding.
pub fn write_str(s: &str) -> (bytes: Vec<u8>)
    ensures
        bytes@ == s.spec_bytes(),
{
    vstd::slice::slice_to_vec(s.as_bytes())
}

impl Serial {
    /// The bytes sent for `s` (see `write_str`).
    pub fn write_str(&mut self, s: &str) -> (bytes: Vec<u8>)
        ensures
            bytes@ == s.spec_bytes(),
    {
        write_str(s)
    }
}

} // verus!
