//! What every emulated port-I/O device offers.

use vstd::prelude::*;
use core::ops::Range;
use crate::error::HyperResult;

verus! {

/// What is left to do after a device has taken a write.
#[derive(Clone, Copy, Debug, PartialEq, Eq, Structural)]
pub enum WriteEffect {
    /// Nothing.
    Done,
    /// The byte goes to the host console.
    Console(u8),
    /// The byte is offered, at the writer's baud rate, to the serial devices
    /// of the other guests.
    Forward { baud_rate: usize, byte: u8 },
}

/// Whether `port` lies in the half-open range `range`.
pub open spec fn in_range(range: Range<u16>, port: u16) -> bool {
    range.start <= port < range.end
}

/// A device behind a range of I/O ports.
pub trait PortIoDevice {
    /// The device's state is consistent.
    spec fn wf(&self) -> bool;

    /// The ports that the device answers on.
    spec fn ports(&self) -> Range<u16>;

    /// The ports that the device answers on.
    fn port_range(&self) -> (range: Range<u16>)
        requires
            self.wf(),
        ensures
            range == self.ports(),
            range.start <= range.end,
    ;

    /// Reads `access_size` bytes from `port`. `console` is the byte that the
    /// host console had ready, for a device that polls it.
    fn read(&mut self, port: u16, access_size: u8, console: Option<u8>) -> (r: HyperResult<u32>)
        requires
            old(self).wf(),
            in_range(old(self).ports(), port),
        ensures
            final(self).wf(),
            final(self).ports() == old(self).ports(),
    ;

    /// Writes the low `access_size` bytes of `value` to `port`.
    fn write(&mut self, port: u16, access_size: u8, value: u32) -> (r: HyperResult<WriteEffect>)
        requires
            old(self).wf(),
            in_range(old(self).ports(), port),
        ensures
            final(self).wf(),
            final(self).ports() == old(self).ports(),
    ;
}

} // verus!
