//! Emulated UART 16550. (ref: https://wiki.osdev.org/Serial_Ports)

use vstd::prelude::*;
use core::ops::Range;
use crate::error::{HyperError, HyperResult};
use crate::fifo::Fifo;
use crate::port_io::{in_range, PortIoDevice, WriteEffect};

verus! {

/// Register of received and transmitted data.
pub const DATA_REG: u16 = 0;

/// Interrupt-enable register.
pub const INT_EN_REG: u16 = 1;

/// FIFO-control register.
pub const FIFO_CTRL_REG: u16 = 2;

/// Line-control register.
pub const LINE_CTRL_REG: u16 = 3;

/// Modem-control register.
pub const MODEM_CTRL_REG: u16 = 4;

/// Line-status register.
pub const LINE_STATUS_REG: u16 = 5;

/// Modem-status register.
pub const MODEM_STATUS_REG: u16 = 6;

/// Scratch register.
pub const SCRATCH_REG: u16 = 7;

/// The number of ports of a serial device, one for each register.
pub const UART_PORT_COUNT: u16 = 8;

/// How many received bytes a serial device holds.
pub const UART_FIFO_CAPACITY: usize = 32;

/// Line status: a received byte waits to be read.
pub const LSR_INPUT_FULL: u8 = 0x01;

/// Line status: the device takes another byte to send.
pub const LSR_OUTPUT_EMPTY: u8 = 0x20;

/// The baud rate of a new serial device.
pub const DEFAULT_BAUD_RATE: usize = 115200;

/// The bit of the interrupt-enable byte that selects the mode: set, written
/// bytes go to the other guests; clear, they go to the host console.
pub const INT_EN_FORWARD: u8 = 1;

/// Interrupt-enable value under which the line-status register polls the
/// host console.
pub const INT_EN_CONSOLE: u8 = 0;

/// What a serial device is: where it stands, whose it is, and what it holds.
pub struct UartModel {
    /// The first of its eight ports.
    pub port_base: u16,
    /// The index of the guest that owns it.
    pub id: usize,
    /// Its line speed; two devices exchange bytes only at the same speed.
    pub baud_rate: usize,
    /// The received bytes not yet read, oldest first.
    pub fifo: Seq<u8>,
    /// The interrupt-enable byte as last written.
    pub int_en: u8,
}

impl UartModel {
    /// The ports fit below the top of the port space and the queue within
    /// its capacity.
    pub open spec fn wf(self) -> bool {
        &&& self.port_base + UART_PORT_COUNT <= u16::MAX
        &&& self.fifo.len() <= UART_FIFO_CAPACITY
    }

    /// The ports that the device answers on.
    pub open spec fn ports(self) -> Range<u16> {
        Range { start: self.port_base, end: (self.port_base + UART_PORT_COUNT) as u16 }
    }

    /// The register behind `port`.
    pub open spec fn register(self, port: u16) -> int {
        port - self.port_base
    }

    /// The device with another queue.
    pub open spec fn with_fifo(self, fifo: Seq<u8>) -> UartModel {
        UartModel {
            port_base: self.port_base,
            id: self.id,
            baud_rate: self.baud_rate,
            fifo,
            int_en: self.int_en,
        }
    }

    /// The device with another interrupt-enable byte.
    pub open spec fn with_int_en(self, int_en: u8) -> UartModel {
        UartModel {
            port_base: self.port_base,
            id: self.id,
            baud_rate: self.baud_rate,
            fifo: self.fifo,
            int_en,
        }
    }

    /// Whether the device is in forwarding mode: the low bit of the
    /// interrupt-enable byte is set, whatever the other bits are.
    pub open spec fn forwards(self) -> bool {
        self.int_en % 2 == 1
    }

    /// Whether a one-byte read of `port` takes a byte from the host console
    /// if one is ready: a read of the line-status register, in console mode,
    /// with room in the queue.
    pub open spec fn polls_console(self, port: u16) -> bool {
        &&& self.register(port) == LINE_STATUS_REG
        &&& self.int_en == INT_EN_CONSOLE
        &&& self.fifo.len() < UART_FIFO_CAPACITY
    }

    /// The device after a one-byte read of `port`, with `console` ready on
    /// the host console.
    pub open spec fn after_read(self, port: u16, console: Option<u8>) -> UartModel {
        if self.register(port) == DATA_REG && self.fifo.len() > 0 {
            self.with_fifo(self.fifo.drop_first())
        } else if self.polls_console(port) && console is Some {
            self.with_fifo(self.fifo.push(console->Some_0))
        } else {
            self
        }
    }

    /// What a one-byte read of `port` returns, with `console` ready on the
    /// host console.
    pub open spec fn read_value(self, port: u16, console: Option<u8>) -> u32 {
        if self.register(port) == DATA_REG {
            if self.fifo.len() > 0 {
                self.fifo[0] as u32
            } else {
                0
            }
        } else if self.register(port) == LINE_STATUS_REG {
            if self.after_read(port, console).fifo.len() > 0 {
                (LSR_OUTPUT_EMPTY + LSR_INPUT_FULL) as u32
            } else {
                LSR_OUTPUT_EMPTY as u32
            }
        } else {
            0
        }
    }

    /// The device after a one-byte write of `value` to `port`.
    pub open spec fn after_write(self, port: u16, value: u32) -> UartModel {
        if self.register(port) == INT_EN_REG {
            self.with_int_en((value % 256) as u8)
        } else {
            self
        }
    }

    /// What is left to do after a one-byte write of `value` to `port`.
    pub open spec fn write_effect(self, port: u16, value: u32) -> WriteEffect {
        if self.register(port) == DATA_REG {
            if self.forwards() {
                WriteEffect::Forward { baud_rate: self.baud_rate, byte: (value % 256) as u8 }
            } else {
                WriteEffect::Console((value % 256) as u8)
            }
        } else {
            WriteEffect::Done
        }
    }

    /// Whether the device takes a byte offered at `baud_rate`: its own rate
    /// is the same and its queue has room.
    pub open spec fn accepts(self, baud_rate: usize) -> bool {
        self.baud_rate == baud_rate && self.fifo.len() < UART_FIFO_CAPACITY
    }

    /// The device after `byte` was offered to it at `baud_rate`.
    pub open spec fn after_offer(self, baud_rate: usize, byte: u8) -> UartModel {
        if self.accepts(baud_rate) {
            self.with_fifo(self.fifo.push(byte))
        } else {
            self
        }
    }
}

/// An emulated serial device.
pub struct Uart16550 {
    port_base: u16,
    fifo: Fifo<UART_FIFO_CAPACITY>,
    id: usize,
    int_en: u8,
    pub baud_rate: usize,
}

impl View for Uart16550 {
    type V = UartModel;

    closed spec fn view(&self) -> UartModel {
        UartModel {
            port_base: self.port_base,
            id: self.id,
            baud_rate: self.baud_rate,
            fifo: self.fifo@,
            int_en: self.int_en,
        }
    }
}

impl Uart16550 {
    /// What `wf` says of the model.
    pub proof fn lemma_wf_model(&self)
        requires
            self.wf(),
        ensures
            self@.wf(),
    {
        self.fifo.lemma_len_bounded();
    }

    /// A serial device of guest `id` on the ports `[port_base, port_base + 8)`,
    /// in console mode, with nothing received.
    pub fn new(port_base: u16, id: usize) -> (uart: Self)
        requires
            port_base + UART_PORT_COUNT <= u16::MAX,
        ensures
            uart.wf(),
            uart@ == (UartModel {
                port_base,
                id,
                baud_rate: DEFAULT_BAUD_RATE,
                fifo: Seq::empty(),
                int_en: 0,
            }),
    {
        Self { port_base, fifo: Fifo::new(), id: id, int_en: 0, baud_rate: DEFAULT_BAUD_RATE }
    }

    /// The index of the guest that owns the device.
    pub fn id(&self) -> (id: usize)
        ensures
            id == self@.id,
    {
        self.id
    }

    /// The device's line speed.
    pub fn baud_rate(&self) -> (baud_rate: usize)
        ensures
            baud_rate == self@.baud_rate,
    {
        self.baud_rate
    }

    /// Whether a read of `access_size` bytes from `port` wants the byte that
    /// the host console has ready.
    pub fn polls_console(&self, port: u16, access_size: u8) -> (polls: bool)
        requires
            self.wf(),
            in_range(self.ports(), port),
        ensures
            polls == (access_size == 1 && self@.polls_console(port)),
    {
        access_size == 1 && port - self.port_base == LINE_STATUS_REG && self.int_en
            == INT_EN_CONSOLE && !self.fifo.is_full()
    }

    /// Takes `byte`, offered by another guest's device at `baud_rate`, into
    /// the queue if the rates agree and there is room. Says whether it did.
    pub fn offer(&mut self, baud_rate: usize, byte: u8) -> (taken: bool)
        requires
            old(self).wf(),
        ensures
            final(self).wf(),
            taken == old(self)@.accepts(baud_rate),
            final(self)@ == old(self)@.after_offer(baud_rate, byte),
    {
        if self.baud_rate == baud_rate && !self.fifo.is_full() {
            self.fifo.push(byte);
            true
        } else {
            false
        }
    }
}

impl PortIoDevice for Uart16550 {
    closed spec fn wf(&self) -> bool {
        &&& self.port_base + UART_PORT_COUNT <= u16::MAX
        &&& self.fifo.wf()
    }

    open spec fn ports(&self) -> Range<u16> {
        self@.ports()
    }

    fn port_range(&self) -> (range: Range<u16>) {
        self.port_base..self.port_base + UART_PORT_COUNT
    }

    /// A read of any size but one byte fails and changes nothing. The data
    /// register gives the oldest received byte, or zero when there is none.
    /// The line-status register first takes `console` into the queue, in
    /// console mode and with room for it, then reports that output is
    /// possible and whether input waits. Every other register reads as zero.
    fn read(&mut self, port: u16, access_size: u8, console: Option<u8>) -> (r: HyperResult<u32>)
        ensures
            access_size != 1 ==> r == Err::<u32, HyperError>(HyperError::InvalidParam)
                && final(self)@ == old(self)@,
            access_size == 1 ==> r == Ok::<u32, HyperError>(
                old(self)@.read_value(port, console),
            ) && final(self)@ == old(self)@.after_read(port, console),
    {
        if access_size != 1 {
            return Err(HyperError::InvalidParam);
        }
        let reg: u16 = port - self.port_base;
        let ret: u8 = if reg == DATA_REG {
            if self.fifo.is_empty() {
                0
            } else {
                self.fifo.pop()
            }
        } else if reg == LINE_STATUS_REG {
            if self.int_en == INT_EN_CONSOLE {
                if !self.fifo.is_full() {
                    if let Some(c) = console {
                        self.fifo.push(c);
                    }
                }
            }
            let mut lsr: u8 = LSR_OUTPUT_EMPTY;
            if !self.fifo.is_empty() {
                assert(0x20u8 | 0x01u8 == 0x21u8) by (bit_vector);
                lsr |= LSR_INPUT_FULL;
            }
            lsr
        } else {
            0
        };
        Ok(ret as u32)
    }

    /// A write of any size but one byte fails and changes nothing. A byte
    /// written to the data register is to be forwarded when the low bit of
    /// the interrupt-enable byte is set, and to go to the console when it is
    /// clear; it never enters the device's own queue. The interrupt-enable
    /// register keeps the byte written. Every other register ignores it.
    fn write(&mut self, port: u16, access_size: u8, value: u32) -> (r: HyperResult<WriteEffect>)
        ensures
            access_size != 1 ==> r == Err::<WriteEffect, HyperError>(HyperError::InvalidParam)
                && final(self)@ == old(self)@,
            access_size == 1 ==> r == Ok::<WriteEffect, HyperError>(
                old(self)@.write_effect(port, value),
            ) && final(self)@ == old(self)@.after_write(port, value),
    {
        if access_size != 1 {
            return Err(HyperError::InvalidParam);
        }
        assert(value & 0xff == value % 256) by (bit_vector);
        let byte: u8 = (value & 0xff) as u8;
        let reg: u16 = port - self.port_base;
        if reg == DATA_REG {
            let mode: u8 = self.int_en;
            assert((mode & 1 == 1) == (mode % 2 == 1)) by (bit_vector);
            if self.int_en & INT_EN_FORWARD == INT_EN_FORWARD {
                Ok(WriteEffect::Forward { baud_rate: self.baud_rate, byte })
            } else {
                Ok(WriteEffect::Console(byte))
            }
        } else if reg == INT_EN_REG {
            self.int_en = byte;
            Ok(WriteEffect::Done)
        } else {
            Ok(WriteEffect::Done)
        }
    }
}

} // verus!
