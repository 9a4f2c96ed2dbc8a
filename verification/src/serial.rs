//! The 16550 UART on COM1: its setup and when it takes a byte.

use vstd::prelude::*;

verus! {

/// Base port of COM1.
pub const COM1: u16 = 0x3f8;
/// Line status register of COM1.
pub const COM1_LSR: u16 = 0x3fd;
/// Line status bit set while the transmit holding register is empty.
pub const LSR_THR_EMPTY: u8 = 0x20;

/// A write to an I/O port, a byte or a 16-bit word wide.
#[derive(Clone, Copy, Debug, PartialEq, Eq, Structural)]
pub enum SerialWrite {
    Byte { port: u16, byte: u8 },
    Word { port: u16, word: u16 },
}

/// The port writes that set COM1 up: divisor latch on (a word write of 0x80
/// to the line control register), divisor 1 for 115200 baud, 8 data bits,
/// no parity, one stop bit, and DTR, RTS and OUT2 raised.
pub fn serial_init() -> (r: Vec<SerialWrite>)
    ensures
        r@ == seq![
            SerialWrite::Word { port: 0x3fb, word: 0x80 },
            SerialWrite::Byte { port: 0x3f8, byte: 1 },
            SerialWrite::Byte { port: 0x3f9, byte: 0 },
            SerialWrite::Byte { port: 0x3fb, byte: 0x03 },
            SerialWrite::Byte { port: 0x3fc, byte: 0x0b },
        ],
{
    let mut r: Vec<SerialWrite> = Vec::new();
    r.push(SerialWrite::Word { port: 0x3fb, word: 0x80 });
    r.push(SerialWrite::Byte { port: 0x3f8, byte: 1 });
    r.push(SerialWrite::Byte { port: 0x3f9, byte: 0 });
    r.push(SerialWrite::Byte { port: 0x3fb, byte: 0x03 });
    r.push(SerialWrite::Byte { port: 0x3fc, byte: 0x0b });
    r
}

/// Whether a line status value says the UART takes the next byte.
pub fn transmit_ready(lsr: u8) -> (r: bool)
    ensures
        r == (lsr & LSR_THR_EMPTY != 0),
{
    (lsr & LSR_THR_EMPTY) != 0
}

} // verus!
