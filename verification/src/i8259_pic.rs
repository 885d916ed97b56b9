//! A stand-in for the 8259 interrupt controller: it claims its two ports,
//! reads as zero and ignores what is written.

use vstd::prelude::*;
use core::ops::Range;
use crate::error::{HyperError, HyperResult};
use crate::port_io::{PortIoDevice, WriteEffect};

verus! {

/// The number of ports of an interrupt controller.
pub const PIC_PORT_COUNT: u16 = 2;

/// An interrupt controller stub.
pub struct I8259Pic {
    port_base: u16,
}

impl View for I8259Pic {
    type V = u16;

    /// The first of the device's ports.
    closed spec fn view(&self) -> u16 {
        self.port_base
    }
}

impl I8259Pic {
    /// A controller on the ports `[port_base, port_base + 2)`.
    pub fn new(port_base: u16) -> (pic: Self)
        requires
            port_base + PIC_PORT_COUNT <= u16::MAX,
        ensures
            pic.wf(),
            pic@ == port_base,
    {
        Self { port_base }
    }
}

impl PortIoDevice for I8259Pic {
    open spec fn wf(&self) -> bool {
        self@ + PIC_PORT_COUNT <= u16::MAX
    }

    open spec fn ports(&self) -> Range<u16> {
        Range { start: self@, end: (self@ + PIC_PORT_COUNT) as u16 }
    }

    fn port_range(&self) -> (range: Range<u16>) {
        self.port_base..self.port_base + PIC_PORT_COUNT
    }

    fn read(&mut self, port: u16, access_size: u8, console: Option<u8>) -> (r: HyperResult<u32>)
        ensures
            r == Ok::<u32, HyperError>(0),
            final(self)@ == old(self)@,
    {
        Ok(0)
    }

    fn write(&mut self, port: u16, access_size: u8, value: u32) -> (r: HyperResult<WriteEffect>)
        ensures
            r == Ok::<WriteEffect, HyperError>(WriteEffect::Done),
            final(self)@ == old(self)@,
    {
        Ok(WriteEffect::Done)
    }
}

} // verus!
