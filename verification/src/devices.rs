//! The emulated devices of each guest, and the way from a port to its device.

use vstd::prelude::*;
use core::ops::Range;
use crate::error::{HyperError, HyperResult};
use crate::i8259_pic::{I8259Pic, PIC_PORT_COUNT};
use crate::port_io::{in_range, PortIoDevice, WriteEffect};
use crate::uart16550::{
    Uart16550, UartModel, DATA_REG, DEFAULT_BAUD_RATE, INT_EN_CONSOLE,
};

verus! {

/// How many guests there are devices for.
pub const MAX_VMS: usize = 2;

/// First port of the first serial line.
pub const COM1_BASE: u16 = 0x3f8;

/// First port of the first interrupt controller.
pub const PIC1_BASE: u16 = 0x20;

/// First port of the second interrupt controller.
pub const PIC2_BASE: u16 = 0xa0;

/// What a device is.
pub enum DeviceModel {
    /// A serial device.
    Uart(UartModel),
    /// An interrupt controller stub, by its first port.
    Pic(u16),
}

impl DeviceModel {
    /// The ports that the device answers on.
    pub open spec fn ports(self) -> Range<u16> {
        match self {
            DeviceModel::Uart(uart) => uart.ports(),
            DeviceModel::Pic(base) => Range { start: base, end: (base + PIC_PORT_COUNT) as u16 },
        }
    }

    /// Whether the device answers on `port`.
    pub open spec fn claims(self, port: u16) -> bool {
        in_range(self.ports(), port)
    }

    /// Whether a read of `access_size` bytes from `port` takes a byte from
    /// the host console if one is ready.
    pub open spec fn polls_console(self, port: u16, access_size: u8) -> bool {
        self matches DeviceModel::Uart(uart) && access_size == 1 && uart.polls_console(port)
    }

    /// What a read of `access_size` bytes from `port` returns.
    pub open spec fn read_result(self, port: u16, access_size: u8, console: Option<u8>)
        -> HyperResult<u32> {
        match self {
            DeviceModel::Uart(uart) => if access_size != 1 {
                Err(HyperError::InvalidParam)
            } else {
                Ok(uart.read_value(port, console))
            },
            DeviceModel::Pic(_) => Ok(0),
        }
    }

    /// The device after a read of `access_size` bytes from `port`.
    pub open spec fn after_read(self, port: u16, access_size: u8, console: Option<u8>)
        -> DeviceModel {
        match self {
            DeviceModel::Uart(uart) => if access_size != 1 {
                self
            } else {
                DeviceModel::Uart(uart.after_read(port, console))
            },
            DeviceModel::Pic(_) => self,
        }
    }

    /// What a write of `access_size` bytes to `port` returns.
    pub open spec fn write_result(self, port: u16, access_size: u8, value: u32) -> HyperResult<
        WriteEffect,
    > {
        match self {
            DeviceModel::Uart(uart) => if access_size != 1 {
                Err(HyperError::InvalidParam)
            } else {
                Ok(uart.write_effect(port, value))
            },
            DeviceModel::Pic(_) => Ok(WriteEffect::Done),
        }
    }

    /// The device after a write of `access_size` bytes to `port`.
    pub open spec fn after_write(self, port: u16, access_size: u8, value: u32) -> DeviceModel {
        match self {
            DeviceModel::Uart(uart) => if access_size != 1 {
                self
            } else {
                DeviceModel::Uart(uart.after_write(port, value))
            },
            DeviceModel::Pic(_) => self,
        }
    }

    /// The device after `byte` was offered to it at `baud_rate`: a serial
    /// device may take it, any other device is as before.
    pub open spec fn after_offer(self, baud_rate: usize, byte: u8) -> DeviceModel {
        match self {
            DeviceModel::Uart(uart) => DeviceModel::Uart(uart.after_offer(baud_rate, byte)),
            DeviceModel::Pic(_) => self,
        }
    }
}

/// An emulated device, one of the kinds there are.
pub enum Device {
    /// A serial device.
    Uart(Uart16550),
    /// An interrupt controller stub.
    Pic(I8259Pic),
}

impl View for Device {
    type V = DeviceModel;

    open spec fn view(&self) -> DeviceModel {
        match self {
            Device::Uart(uart) => DeviceModel::Uart(uart@),
            Device::Pic(pic) => DeviceModel::Pic(pic@),
        }
    }
}

impl Device {
    /// The serial device that this device is, if it is one.
    pub fn as_uart(&self) -> (r: Option<&Uart16550>)
        ensures
            match r {
                Some(uart) => *self == Device::Uart(*uart),
                None => self is Pic,
            },
    {
        match self {
            Device::Uart(uart) => Some(uart),
            Device::Pic(_) => None,
        }
    }

    /// Whether a read of `access_size` bytes from `port` wants the byte that
    /// the host console has ready.
    pub fn polls_console(&self, port: u16, access_size: u8) -> (polls: bool)
        requires
            self.wf(),
            self@.claims(port),
        ensures
            polls == self@.polls_console(port, access_size),
    {
        match self {
            Device::Uart(uart) => uart.polls_console(port, access_size),
            Device::Pic(_) => false,
        }
    }

    /// Offers `byte` to the device at `baud_rate`.
    pub fn offer(&mut self, baud_rate: usize, byte: u8)
        requires
            old(self).wf(),
        ensures
            final(self).wf(),
            final(self)@ == old(self)@.after_offer(baud_rate, byte),
    {
        match self {
            Device::Uart(uart) => {
                uart.offer(baud_rate, byte);
            },
            Device::Pic(_) => {},
        }
    }
}

impl PortIoDevice for Device {
    open spec fn wf(&self) -> bool {
        match self {
            Device::Uart(uart) => uart.wf(),
            Device::Pic(pic) => pic.wf(),
        }
    }

    open spec fn ports(&self) -> Range<u16> {
        self@.ports()
    }

    fn port_range(&self) -> (range: Range<u16>) {
        match self {
            Device::Uart(uart) => uart.port_range(),
            Device::Pic(pic) => pic.port_range(),
        }
    }

    fn read(&mut self, port: u16, access_size: u8, console: Option<u8>) -> (r: HyperResult<u32>)
        ensures
            r == old(self)@.read_result(port, access_size, console),
            final(self)@ == old(self)@.after_read(port, access_size, console),
    {
        match self {
            Device::Uart(uart) => uart.read(port, access_size, console),
            Device::Pic(pic) => pic.read(port, access_size, console),
        }
    }

    fn write(&mut self, port: u16, access_size: u8, value: u32) -> (r: HyperResult<WriteEffect>)
        ensures
            r == old(self)@.write_result(port, access_size, value),
            final(self)@ == old(self)@.after_write(port, access_size, value),
    {
        match self {
            Device::Uart(uart) => uart.write(port, access_size, value),
            Device::Pic(pic) => pic.write(port, access_size, value),
        }
    }
}

/// The position, at or after `from`, of the first device that answers on
/// `port`; the number of devices if there is none.
pub open spec fn scan(devices: Seq<DeviceModel>, port: u16, from: int) -> int
    decreases devices.len() - from,
{
    if from < 0 || from >= devices.len() {
        devices.len() as int
    } else if devices[from].claims(port) {
        from
    } else {
        scan(devices, port, from + 1)
    }
}

/// The position of the first device that answers on `port`; the number of
/// devices if there is none.
pub open spec fn position(devices: Seq<DeviceModel>, port: u16) -> int {
    scan(devices, port, 0)
}

/// `scan` finds the first device at or after `from` that answers on `port`.
pub proof fn lemma_scan(devices: Seq<DeviceModel>, port: u16, from: int)
    requires
        0 <= from <= devices.len(),
    ensures
        from <= scan(devices, port, from) <= devices.len(),
        scan(devices, port, from) < devices.len() ==> devices[scan(devices, port, from)].claims(
            port,
        ),
        forall|i: int| from <= i < scan(devices, port, from) ==> !(#[trigger] devices[i]).claims(port),
    decreases devices.len() - from,
{
    if from < devices.len() && !devices[from].claims(port) {
        lemma_scan(devices, port, from + 1);
    }
}

/// The serial device among `devices` that answers on `port`: the first
/// device on that port, if there is one and it is a serial device.
pub open spec fn serial_on(devices: Seq<DeviceModel>, port: u16) -> Option<UartModel> {
    let at = position(devices, port);
    if 0 <= at < devices.len() {
        match devices[at] {
            DeviceModel::Uart(uart) => Some(uart),
            DeviceModel::Pic(_) => None,
        }
    } else {
        None
    }
}

/// What a read on behalf of a guest with the devices `devices` returns:
/// what the first device on `port` returns, or that no device was found.
pub open spec fn list_read_result(
    devices: Seq<DeviceModel>,
    port: u16,
    access_size: u8,
    console: Option<u8>,
) -> HyperResult<u32> {
    let at = position(devices, port);
    if at < devices.len() {
        devices[at].read_result(port, access_size, console)
    } else {
        Err(HyperError::NotFound)
    }
}

/// The devices after that read.
pub open spec fn list_after_read(
    devices: Seq<DeviceModel>,
    port: u16,
    access_size: u8,
    console: Option<u8>,
) -> Seq<DeviceModel> {
    let at = position(devices, port);
    if at < devices.len() {
        devices.update(at, devices[at].after_read(port, access_size, console))
    } else {
        devices
    }
}

/// What a write on behalf of a guest with the devices `devices` returns:
/// what the first device on `port` returns, or that no device was found.
pub open spec fn list_write_result(
    devices: Seq<DeviceModel>,
    port: u16,
    access_size: u8,
    value: u32,
) -> HyperResult<WriteEffect> {
    let at = position(devices, port);
    if at < devices.len() {
        devices[at].write_result(port, access_size, value)
    } else {
        Err(HyperError::NotFound)
    }
}

/// The devices after that write.
pub open spec fn list_after_write(
    devices: Seq<DeviceModel>,
    port: u16,
    access_size: u8,
    value: u32,
) -> Seq<DeviceModel> {
    let at = position(devices, port);
    if at < devices.len() {
        devices.update(at, devices[at].after_write(port, access_size, value))
    } else {
        devices
    }
}

/// The devices after `byte` was offered at `baud_rate` to the first device
/// on `port`.
pub open spec fn list_after_offer(
    devices: Seq<DeviceModel>,
    port: u16,
    baud_rate: usize,
    byte: u8,
) -> Seq<DeviceModel> {
    let at = position(devices, port);
    if at < devices.len() {
        devices.update(at, devices[at].after_offer(baud_rate, byte))
    } else {
        devices
    }
}

/// The devices of one guest, in the order they were registered.
pub struct VirtDeviceList {
    port_io_devices: Vec<Device>,
}

impl View for VirtDeviceList {
    type V = Seq<DeviceModel>;

    closed spec fn view(&self) -> Seq<DeviceModel> {
        Seq::new(self.port_io_devices@.len(), |i: int| self.port_io_devices@[i]@)
    }
}

impl VirtDeviceList {
    /// Every device is consistent.
    pub closed spec fn wf(&self) -> bool {
        forall|i: int|
            0 <= i < self.port_io_devices@.len() ==> (#[trigger] self.port_io_devices@[i]).wf()
    }

    /// The list of `devices`, in their order.
    pub fn new(devices: Vec<Device>) -> (list: Self)
        requires
            forall|i: int| 0 <= i < devices@.len() ==> (#[trigger] devices@[i]).wf(),
        ensures
            list.wf(),
            list@ == Seq::new(devices@.len(), |i: int| devices@[i]@),
    {
        Self { port_io_devices: devices }
    }

    /// The position of the first device that answers on `port`, or the
    /// number of devices.
    fn find_index(&self, port: u16) -> (at: usize)
        requires
            self.wf(),
        ensures
            at == position(self@, port),
            at <= self@.len(),
            at < self@.len() ==> self@[at as int].claims(port),
    {
        proof {
            lemma_scan(self@, port, 0);
        }
        let mut i: usize = 0;
        while i < self.port_io_devices.len()
            invariant
                self.wf(),
                i <= self@.len(),
                position(self@, port) == scan(self@, port, i as int),
            decreases self@.len() - i,
        {
            assert(self@[i as int] == self.port_io_devices@[i as int]@);
            let range = self.port_io_devices[i].port_range();
            if range.start <= port && port < range.end {
                return i;
            }
            i += 1;
        }
        i
    }

    /// The first device, in registration order, that answers on `port`.
    pub fn find_port_io_device(&self, port: u16) -> (r: Option<&Device>)
        requires
            self.wf(),
        ensures
            0 <= position(self@, port) <= self@.len(),
            match r {
                Some(device) => position(self@, port) < self@.len() && device@
                    == self@[position(self@, port)] && device.wf() && device@.claims(port),
                None => position(self@, port) == self@.len(),
            },
    {
        let at = self.find_index(port);
        if at < self.port_io_devices.len() {
            assert(self@[at as int] == self.port_io_devices@[at as int]@);
            Some(&self.port_io_devices[at])
        } else {
            None
        }
    }

    /// The serial device that answers on `port`: the first device on that
    /// port, if there is one and it is a serial device.
    pub fn find_uart(&self, port: u16) -> (r: Option<&Uart16550>)
        requires
            self.wf(),
        ensures
            match r {
                Some(uart) => serial_on(self@, port) == Some(uart@) && uart.wf(),
                None => serial_on(self@, port) is None,
            },
    {
        if let Some(dev) = self.find_port_io_device(port) {
            return dev.as_uart();
        }
        None
    }

    /// Whether a read of `access_size` bytes from `port` wants the byte that
    /// the host console has ready.
    pub fn polls_console(&self, port: u16, access_size: u8) -> (polls: bool)
        requires
            self.wf(),
        ensures
            polls == (position(self@, port) < self@.len() && self@[position(
                self@,
                port,
            )].polls_console(port, access_size)),
    {
        match self.find_port_io_device(port) {
            Some(device) => device.polls_console(port, access_size),
            None => false,
        }
    }

    /// Reads from the first device on `port`.
    pub fn read(&mut self, port: u16, access_size: u8, console: Option<u8>) -> (r: HyperResult<
        u32,
    >)
        requires
            old(self).wf(),
        ensures
            final(self).wf(),
            r == list_read_result(old(self)@, port, access_size, console),
            final(self)@ == list_after_read(old(self)@, port, access_size, console),
    {
        let at = self.find_index(port);
        if at >= self.port_io_devices.len() {
            return Err(HyperError::NotFound);
        }
        assert(self@[at as int] == self.port_io_devices@[at as int]@);
        let r = self.port_io_devices[at].read(port, access_size, console);
        proof {
            assert(self@ =~= list_after_read(old(self)@, port, access_size, console));
        }
        r
    }

    /// Writes to the first device on `port`.
    pub fn write(&mut self, port: u16, access_size: u8, value: u32) -> (r: HyperResult<
        WriteEffect,
    >)
        requires
            old(self).wf(),
        ensures
            final(self).wf(),
            r == list_write_result(old(self)@, port, access_size, value),
            final(self)@ == list_after_write(old(self)@, port, access_size, value),
    {
        let at = self.find_index(port);
        if at >= self.port_io_devices.len() {
            return Err(HyperError::NotFound);
        }
        assert(self@[at as int] == self.port_io_devices@[at as int]@);
        let r = self.port_io_devices[at].write(port, access_size, value);
        proof {
            assert(self@ =~= list_after_write(old(self)@, port, access_size, value));
        }
        r
    }

    /// Offers `byte` at `baud_rate` to the first device on `port`.
    pub fn offer(&mut self, port: u16, baud_rate: usize, byte: u8)
        requires
            old(self).wf(),
        ensures
            final(self).wf(),
            final(self)@ == list_after_offer(old(self)@, port, baud_rate, byte),
    {
        let at = self.find_index(port);
        if at < self.port_io_devices.len() {
            assert(self@[at as int] == self.port_io_devices@[at as int]@);
            self.port_io_devices[at].offer(baud_rate, byte);
            proof {
                assert(self@ =~= list_after_offer(old(self)@, port, baud_rate, byte));
            }
        }
    }
}

/// Every serial device belongs to the guest whose devices it is among.
pub open spec fn owned(guests: Seq<Seq<DeviceModel>>) -> bool {
    forall|vm: int, i: int|
        0 <= vm < guests.len() && 0 <= i < guests[vm].len() ==> (
        #[trigger] guests[vm][i] matches DeviceModel::Uart(uart) ==> uart.id == vm)
}

/// The devices that every guest starts with: the first serial line and the
/// two interrupt controllers.
pub open spec fn default_devices(vm: int) -> Seq<DeviceModel> {
    seq![
        DeviceModel::Uart(
            UartModel {
                port_base: COM1_BASE,
                id: vm as usize,
                baud_rate: DEFAULT_BAUD_RATE,
                fifo: Seq::empty(),
                int_en: 0,
            },
        ),
        DeviceModel::Pic(PIC1_BASE),
        DeviceModel::Pic(PIC2_BASE),
    ]
}

/// The devices of all guests after `byte` was offered at `baud_rate` to the
/// device on `port` of every guest but `from`.
pub open spec fn forwarded(
    guests: Seq<Seq<DeviceModel>>,
    from: int,
    port: u16,
    baud_rate: usize,
    byte: u8,
) -> Seq<Seq<DeviceModel>> {
    Seq::new(
        guests.len(),
        |vm: int|
            if vm == from {
                guests[vm]
            } else {
                list_after_offer(guests[vm], port, baud_rate, byte)
            },
    )
}

/// The devices of all guests after guest `vm` wrote `access_size` bytes of
/// `value` to `port`: the write goes to the guest's own device, and a byte
/// to be forwarded is offered to the other guests.
pub open spec fn guests_after_write(
    guests: Seq<Seq<DeviceModel>>,
    vm: int,
    port: u16,
    access_size: u8,
    value: u32,
) -> Seq<Seq<DeviceModel>> {
    let written = guests.update(vm, list_after_write(guests[vm], port, access_size, value));
    match list_write_result(guests[vm], port, access_size, value) {
        Ok(WriteEffect::Forward { baud_rate, byte }) => forwarded(
            written,
            vm,
            port,
            baud_rate,
            byte,
        ),
        _ => written,
    }
}

/// What that write leaves for its caller: the byte to put on the host
/// console, if there is one, or the error.
pub open spec fn guest_write_result(
    guests: Seq<Seq<DeviceModel>>,
    vm: int,
    port: u16,
    access_size: u8,
    value: u32,
) -> HyperResult<Option<u8>> {
    match list_write_result(guests[vm], port, access_size, value) {
        Ok(WriteEffect::Console(byte)) => Ok(Some(byte)),
        Ok(_) => Ok(None),
        Err(e) => Err(e),
    }
}

/// The devices of every guest, by the guest's index.
pub struct VirtDevices {
    lists: Vec<VirtDeviceList>,
}

impl View for VirtDevices {
    type V = Seq<Seq<DeviceModel>>;

    closed spec fn view(&self) -> Seq<Seq<DeviceModel>> {
        Seq::new(self.lists@.len(), |vm: int| self.lists@[vm]@)
    }
}

impl VirtDevices {
    /// Every list is consistent and every serial device is among the devices
    /// of its own guest.
    pub closed spec fn wf(&self) -> bool {
        &&& forall|vm: int| 0 <= vm < self.lists@.len() ==> (#[trigger] self.lists@[vm]).wf()
        &&& owned(self@)
    }

    /// What `wf` says of the view.
    pub proof fn lemma_wf_owned(&self)
        requires
            self.wf(),
        ensures
            owned(self@),
    {
    }

    /// The devices of `MAX_VMS` guests, each with the first serial line and
    /// the two interrupt controllers.
    pub fn new() -> (devices: Self)
        ensures
            devices.wf(),
            devices@ == Seq::new(MAX_VMS as nat, |vm: int| default_devices(vm)),
    {
        let mut temp: Vec<VirtDeviceList> = Vec::new();
        let mut i: usize = 0;
        while i < MAX_VMS
            invariant
                i <= MAX_VMS,
                temp@.len() == i,
                forall|vm: int| 0 <= vm < i ==> (#[trigger] temp@[vm]).wf(),
                forall|vm: int| 0 <= vm < i ==> (#[trigger] temp@[vm])@ == default_devices(vm),
            decreases MAX_VMS - i,
        {
            let mut list: Vec<Device> = Vec::new();
            list.push(Device::Uart(Uart16550::new(COM1_BASE, i)));
            list.push(Device::Pic(I8259Pic::new(PIC1_BASE)));
            list.push(Device::Pic(I8259Pic::new(PIC2_BASE)));
            let devices = VirtDeviceList::new(list);
            assert(devices@ =~= default_devices(i as int));
            temp.push(devices);
            i += 1;
        }
        let devices = Self { lists: temp };
        assert(devices@ =~= Seq::new(MAX_VMS as nat, |vm: int| default_devices(vm)));
        devices
    }

    /// The devices of as many guests as there are lists, the list at each
    /// index being that guest's.
    pub fn with_lists(lists: Vec<VirtDeviceList>) -> (devices: Self)
        requires
            forall|vm: int| 0 <= vm < lists@.len() ==> (#[trigger] lists@[vm]).wf(),
            owned(Seq::new(lists@.len(), |vm: int| lists@[vm]@)),
        ensures
            devices.wf(),
            devices@ == Seq::new(lists@.len(), |vm: int| lists@[vm]@),
    {
        Self { lists }
    }

    /// For how many guests there are devices.
    pub fn vm_count(&self) -> (n: usize)
        ensures
            n == self@.len(),
    {
        self.lists.len()
    }

    /// Whether a read of `access_size` bytes from `port` by guest `vm_id`
    /// wants the byte that the host console has ready.
    pub fn polls_console(&self, vm_id: usize, port: u16, access_size: u8) -> (polls: bool)
        requires
            self.wf(),
            vm_id < self@.len(),
        ensures
            0 <= position(self@[vm_id as int], port) <= self@[vm_id as int].len(),
            polls == (position(self@[vm_id as int], port) < self@[vm_id as int].len()
                && self@[vm_id as int][position(self@[vm_id as int], port)].polls_console(
                port,
                access_size,
            )),
    {
        assert(self@[vm_id as int] == self.lists@[vm_id as int]@);
        proof {
            lemma_scan(self@[vm_id as int], port, 0);
        }
        self.lists[vm_id].polls_console(port, access_size)
    }

    /// Reads `access_size` bytes from `port` on behalf of guest `vm_id`.
    /// `console` is the byte that the host console had ready, if it was
    /// polled. Fails with `NotFound` when no device of the guest answers on
    /// the port.
    pub fn read_port(&mut self, vm_id: usize, port: u16, access_size: u8, console: Option<u8>)
        -> (r: HyperResult<u32>)
        requires
            old(self).wf(),
            vm_id < old(self)@.len(),
        ensures
            final(self).wf(),
            r == list_read_result(old(self)@[vm_id as int], port, access_size, console),
            final(self)@ == old(self)@.update(
                vm_id as int,
                list_after_read(old(self)@[vm_id as int], port, access_size, console),
            ),
    {
        assert(self@[vm_id as int] == self.lists@[vm_id as int]@);
        let r = self.lists[vm_id].read(port, access_size, console);
        proof {
            let after = list_after_read(old(self)@[vm_id as int], port, access_size, console);
            assert(self.lists@[vm_id as int]@ == after);
            assert(self@ =~= old(self)@.update(vm_id as int, after));
            lemma_scan(old(self)@[vm_id as int], port, 0);
            lemma_update_owned(
                old(self)@,
                vm_id as int,
                position(old(self)@[vm_id as int], port),
                old(self)@[vm_id as int][position(old(self)@[vm_id as int], port)].after_read(
                    port,
                    access_size,
                    console,
                ),
            );
        }
        r
    }

    /// Writes `access_size` bytes of `value` to `port` on behalf of guest
    /// `vm_id`. A byte that the guest's serial device wants forwarded is
    /// offered to the device on the same port of every other guest; a byte
    /// that it wants on the console is returned. Fails with `NotFound` when
    /// no device of the guest answers on the port.
    pub fn write_port(&mut self, vm_id: usize, port: u16, access_size: u8, value: u32) -> (r:
        HyperResult<Option<u8>>)
        requires
            old(self).wf(),
            vm_id < old(self)@.len(),
        ensures
            final(self).wf(),
            r == guest_write_result(old(self)@, vm_id as int, port, access_size, value),
            final(self)@ == guests_after_write(old(self)@, vm_id as int, port, access_size, value),
    {
        assert(self@[vm_id as int] == self.lists@[vm_id as int]@);
        let written = self.lists[vm_id].write(port, access_size, value);
        proof {
            let after = list_after_write(old(self)@[vm_id as int], port, access_size, value);
            assert(self.lists@[vm_id as int]@ == after);
            assert(self@ =~= old(self)@.update(vm_id as int, after));
            lemma_scan(old(self)@[vm_id as int], port, 0);
            lemma_update_owned(
                old(self)@,
                vm_id as int,
                position(old(self)@[vm_id as int], port),
                old(self)@[vm_id as int][position(old(self)@[vm_id as int], port)].after_write(
                    port,
                    access_size,
                    value,
                ),
            );
        }
        match written {
            Ok(WriteEffect::Forward { baud_rate, byte }) => {
                self.forward(vm_id, port, baud_rate, byte);
                Ok(None)
            },
            Ok(WriteEffect::Console(byte)) => Ok(Some(byte)),
            Ok(WriteEffect::Done) => Ok(None),
            Err(e) => Err(e),
        }
    }

    /// Offers `byte` at `baud_rate` to the device on `port` of every guest
    /// but `from`.
    fn forward(&mut self, from: usize, port: u16, baud_rate: usize, byte: u8)
        requires
            old(self).wf(),
        ensures
            final(self).wf(),
            final(self)@ == forwarded(old(self)@, from as int, port, baud_rate, byte),
    {
        let n = self.lists.len();
        let mut i: usize = 0;
        while i < n
            invariant
                i <= n,
                n == self.lists@.len(),
                n == old(self)@.len(),
                self.wf(),
                forall|vm: int|
                    0 <= vm < n ==> #[trigger] self@[vm] == if vm < i && vm != from {
                        list_after_offer(old(self)@[vm], port, baud_rate, byte)
                    } else {
                        old(self)@[vm]
                    },
            decreases n - i,
        {
            if i != from {
                let ghost before = self@;
                assert(self@[i as int] == self.lists@[i as int]@);
                self.lists[i].offer(port, baud_rate, byte);
                proof {
                    let after = list_after_offer(before[i as int], port, baud_rate, byte);
                    assert(self.lists@[i as int]@ == after);
                    assert(self@ =~= before.update(i as int, after));
                    lemma_scan(before[i as int], port, 0);
                    lemma_update_owned(
                        before,
                        i as int,
                        position(before[i as int], port),
                        before[i as int][position(before[i as int], port)].after_offer(
                            baud_rate,
                            byte,
                        ),
                    );
                }
            }
            i += 1;
        }
        proof {
            assert(self@ =~= forwarded(old(self)@, from as int, port, baud_rate, byte));
        }
    }
}

/// The devices of guest `id`.
pub fn all_virt_devices(devices: &VirtDevices, id: usize) -> (list: &VirtDeviceList)
    requires
        devices.wf(),
        id < devices@.len(),
    ensures
        list.wf(),
        list@ == devices@[id as int],
{
    &devices.lists[id]
}

/// Putting in the place of a device one of the same kind and owner keeps
/// every serial device with its guest.
proof fn lemma_update_owned(
    guests: Seq<Seq<DeviceModel>>,
    vm: int,
    at: int,
    device: DeviceModel,
)
    requires
        owned(guests),
        0 <= vm < guests.len(),
        0 <= at <= guests[vm].len(),
        at < guests[vm].len() ==> match (guests[vm][at], device) {
            (DeviceModel::Uart(old_uart), DeviceModel::Uart(new_uart)) => new_uart.id
                == old_uart.id,
            (DeviceModel::Pic(_), DeviceModel::Pic(_)) => true,
            _ => false,
        },
    ensures
        at < guests[vm].len() ==> owned(guests.update(vm, guests[vm].update(at, device))),
{
    if at < guests[vm].len() {
        let after = guests.update(vm, guests[vm].update(at, device));
        assert forall|g: int, i: int| 0 <= g < after.len() && 0 <= i < after[g].len() implies (
        #[trigger] after[g][i] matches DeviceModel::Uart(uart) ==> uart.id == g) by {
            if g == vm {
                if i != at {
                    assert(after[g][i] == guests[g][i]);
                } else {
                    assert(guests[vm][at] is Uart ==> guests[vm][at]->Uart_0.id == vm);
                }
            } else {
                assert(after[g][i] == guests[g][i]);
            }
        }
    }
}

/// Forwarding between guests: when guest `a` writes a byte to the data
/// register of its serial device `ua` while the low bit of the
/// interrupt-enable byte of `ua` is set, the byte enters the queue of the
/// serial device `ub` that guest `b` has on the same port, at the same baud
/// rate and with room; nothing is left for the console, the devices of `a`
/// are as before, and the devices of a guest `c` whose serial device `uc`
/// has another baud rate are as before.
pub proof fn lemma_forwarding(
    guests: Seq<Seq<DeviceModel>>,
    a: int,
    b: int,
    c: int,
    port: u16,
    value: u32,
    ua: UartModel,
    ub: UartModel,
    uc: UartModel,
)
    requires
        0 <= a < guests.len(),
        0 <= b < guests.len(),
        0 <= c < guests.len(),
        a != b,
        a != c,
        serial_on(guests[a], port) == Some(ua),
        serial_on(guests[b], port) == Some(ub),
        serial_on(guests[c], port) == Some(uc),
        ua.register(port) == DATA_REG,
        ua.forwards(),
        ub.accepts(ua.baud_rate),
        uc.baud_rate != ua.baud_rate,
    ensures
        guest_write_result(guests, a, port, 1, value) == Ok::<Option<u8>, HyperError>(None),
        guests_after_write(guests, a, port, 1, value)[a] == guests[a],
        guests_after_write(guests, a, port, 1, value)[b] == guests[b].update(
            position(guests[b], port),
            DeviceModel::Uart(ub.with_fifo(ub.fifo.push((value % 256) as u8))),
        ),
        guests_after_write(guests, a, port, 1, value)[c] == guests[c],
{
    let at = position(guests[a], port);
    assert(guests[a].update(at, DeviceModel::Uart(ua)) =~= guests[a]);
    let at_c = position(guests[c], port);
    assert(guests[c].update(at_c, guests[c][at_c]) =~= guests[c]);
}

/// Console mode: when guest `a` writes a byte to the data register of its
/// serial device `ua` while the interrupt-enable byte of `ua` is zero, the
/// byte is left for the console and every device of every guest is as
/// before.
pub proof fn lemma_local_echo(
    guests: Seq<Seq<DeviceModel>>,
    a: int,
    port: u16,
    value: u32,
    ua: UartModel,
)
    requires
        0 <= a < guests.len(),
        serial_on(guests[a], port) == Some(ua),
        ua.register(port) == DATA_REG,
        ua.int_en == INT_EN_CONSOLE,
    ensures
        guest_write_result(guests, a, port, 1, value) == Ok::<Option<u8>, HyperError>(
            Some((value % 256) as u8),
        ),
        guests_after_write(guests, a, port, 1, value) == guests,
{
    let at = position(guests[a], port);
    assert(guests[a].update(at, DeviceModel::Uart(ua)) =~= guests[a]);
    assert(guests.update(a, guests[a]) =~= guests);
}

} // verus!
