//! The 16550 UART the log is mirrored to: whether it is there, what a write
//! sends, and how its line status register is read.

use vstd::prelude::*;
use vstd::string::StringSliceAdditionalSpecFns;

verus! {

/// I/O port base of the first serial port.
pub const COM1: u16 = 0x3F8;

/// The byte written and read back in loopback mode to detect the UART.
pub const LOOPBACK_PROBE: u8 = 0xAE;

/// A serial port: its I/O base and whether a UART answered there.
pub struct SerialPort {
    pub port: u16,
    pub present: bool,
}

/// The bytes a text becomes on the wire: a carriage return before each
/// line feed.
pub open spec fn crlf(b: Seq<u8>) -> Seq<u8>
    decreases b.len(),
{
    if b.len() == 0 {
        Seq::empty()
    } else {
        crlf(b.drop_last()) + (if b.last() == 10 {
            seq![13u8, 10u8]
        } else {
            seq![b.last()]
        })
    }
}

impl SerialPort {
    /// A port at `port`, not known to be present until probed.
    pub fn new(port: u16) -> (r: SerialPort)
        ensures
            r.port == port,
            !r.present,
    {
        SerialPort { port, present: false }
    }

    /// Records the loopback probe: the UART is present exactly when the
    /// probe byte came back.
    pub fn record_probe(&mut self, echo: u8)
        ensures
            final(self).port == old(self).port,
            final(self).present == (echo == LOOPBACK_PROBE),
    {
        self.present = echo == LOOPBACK_PROBE;
    }

    /// The bytes that writing `s` sends: nothing without a UART, else the
    /// bytes of `s` with a carriage return before each line feed.
    pub fn write_str(&self, s: &str) -> (r: Vec<u8>)
        ensures
            r@ == (if self.present { crlf(s.spec_bytes()) } else { Seq::empty() }),
    {
        let mut out: Vec<u8> = Vec::new();
        if !self.present {
            return out;
        }
        let b = s.as_bytes();
        let mut i: usize = 0;
        while i < b.len()
            invariant
                b@ == s.spec_bytes(),
                i <= b@.len(),
                out@ == crlf(b@.take(i as int)),
            decreases b@.len() - i,
        {
            proof {
                assert(b@.take(i as int + 1).drop_last() =~= b@.take(i as int));
            }
            if b[i] == 10 {
                out.push(13u8);
            }
            out.push(b[i]);
            proof {
                let t = b@.take(i as int + 1);
                assert(t.last() == b@[i as int]);
                if b@[i as int] == 10 {
                    assert(out@ =~= crlf(b@.take(i as int)) + seq![13u8, 10u8]);
                } else {
                    assert(out@ =~= crlf(b@.take(i as int)) + seq![b@[i as int]]);
                }
            }
            i = i + 1;
        }
        proof {
            assert(b@.take(b@.len() as int) =~= b@);
        }
        out
    }

    /// Whether a received byte waits, from the line status register.
    pub fn has_data(&self, line_status: u8) -> (r: bool)
        ensures
            r == (self.present && line_status & 1 != 0),
    {
        self.present && line_status & 1 != 0
    }
}

/// Whether the transmit holding register is empty, from the line status
/// register.
pub fn transmit_ready(line_status: u8) -> (r: bool)
    ensures
        r == (line_status & 0x20 != 0),
{
    line_status & 0x20 != 0
}

} // verus!
