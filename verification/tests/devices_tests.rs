use hvcore::devices::{all_virt_devices, Device, VirtDeviceList, VirtDevices, MAX_VMS};
use hvcore::error::HyperError;
use hvcore::i8259_pic::I8259Pic;
use hvcore::port_io::{PortIoDevice, WriteEffect};
use hvcore::uart16550::Uart16550;

const COM1: u16 = 0x3f8;

fn serial_list(id: usize, baud_rate: usize) -> VirtDeviceList {
    let mut uart = Uart16550::new(COM1, id);
    uart.baud_rate = baud_rate;
    VirtDeviceList::new(vec![
        Device::Uart(uart),
        Device::Pic(I8259Pic::new(0x20)),
        Device::Pic(I8259Pic::new(0xa0)),
    ])
}

fn three_guests() -> VirtDevices {
    VirtDevices::with_lists(vec![
        serial_list(0, 115200),
        serial_list(1, 115200),
        serial_list(2, 9600),
    ])
}

fn waiting(devices: &mut VirtDevices, vm: usize) -> bool {
    devices.read_port(vm, COM1 + 5, 1, None) == Ok(0x21)
}

#[test]
fn every_guest_starts_with_a_serial_line_and_two_interrupt_controllers() {
    let devices = VirtDevices::new();
    assert_eq!(MAX_VMS, 2);
    assert_eq!(devices.vm_count(), MAX_VMS);
    for vm in 0..MAX_VMS {
        let list = all_virt_devices(&devices, vm);
        for port in 0x3f8..0x400u16 {
            let device = list.find_port_io_device(port).unwrap();
            assert_eq!(device.port_range(), 0x3f8..0x400);
            let uart = list.find_uart(port).unwrap();
            assert_eq!(uart.id(), vm);
            assert_eq!(uart.baud_rate(), 115200);
        }
        for port in [0x20u16, 0x21] {
            assert_eq!(list.find_port_io_device(port).unwrap().port_range(), 0x20..0x22);
        }
        for port in [0xa0u16, 0xa1] {
            assert_eq!(list.find_port_io_device(port).unwrap().port_range(), 0xa0..0xa2);
        }
        for port in [0u16, 0x1f, 0x22, 0x9f, 0xa2, 0x3f7, 0x400, 0xffff] {
            assert!(list.find_port_io_device(port).is_none());
            assert!(list.find_uart(port).is_none());
        }
    }
}

#[test]
fn typed_lookup_gives_nothing_for_another_kind_of_device() {
    let devices = VirtDevices::new();
    let list = all_virt_devices(&devices, 0);
    assert!(list.find_port_io_device(0x20).is_some());
    assert!(list.find_uart(0x20).is_none());
    assert!(list.find_uart(0xa1).is_none());
    assert!(list.find_port_io_device(0x20).unwrap().as_uart().is_none());
    assert!(list.find_port_io_device(COM1).unwrap().as_uart().is_some());
}

#[test]
fn first_registered_device_wins_a_shared_port() {
    let list = VirtDeviceList::new(vec![
        Device::Pic(I8259Pic::new(0x3fe)),
        Device::Uart(Uart16550::new(COM1, 0)),
    ]);
    assert_eq!(list.find_port_io_device(0x3fe).unwrap().port_range(), 0x3fe..0x400);
    assert!(list.find_uart(0x3fe).is_none());
    assert_eq!(list.find_port_io_device(0x3fd).unwrap().port_range(), 0x3f8..0x400);
    assert!(list.find_uart(0x3fd).is_some());
    let list = VirtDeviceList::new(vec![
        Device::Uart(Uart16550::new(COM1, 0)),
        Device::Pic(I8259Pic::new(0x3fe)),
    ]);
    assert!(list.find_uart(0x3fe).is_some());
}

#[test]
fn empty_list_finds_nothing() {
    let mut list = VirtDeviceList::new(vec![]);
    assert!(list.find_port_io_device(COM1).is_none());
    assert!(list.find_uart(COM1).is_none());
    assert!(!list.polls_console(COM1 + 5, 1));
    assert_eq!(list.read(COM1, 1, None), Err(HyperError::NotFound));
    assert_eq!(list.write(COM1, 1, 0), Err(HyperError::NotFound));
}

#[test]
fn interrupt_controller_reads_zero_and_ignores_writes() {
    let mut pic = I8259Pic::new(0x20);
    assert_eq!(pic.port_range(), 0x20..0x22);
    for size in [1u8, 2, 4] {
        assert_eq!(pic.read(0x20, size, None), Ok(0));
        assert_eq!(pic.write(0x21, size, 0xff), Ok(WriteEffect::Done));
        assert_eq!(pic.read(0x21, size, Some(1)), Ok(0));
    }
}

#[test]
fn access_to_an_unclaimed_port_is_reported_as_not_found() {
    let mut devices = VirtDevices::new();
    assert_eq!(devices.read_port(0, 0x80, 1, None), Err(HyperError::NotFound));
    assert_eq!(devices.write_port(0, 0x80, 1, 0), Err(HyperError::NotFound));
    assert!(!devices.polls_console(0, 0x80, 1));
}

#[test]
fn access_of_wrong_size_to_the_serial_line_is_refused() {
    let mut devices = VirtDevices::new();
    assert_eq!(devices.read_port(0, COM1, 4, None), Err(HyperError::InvalidParam));
    assert_eq!(devices.write_port(0, COM1, 2, 0x41), Err(HyperError::InvalidParam));
    assert_eq!(devices.write_port(0, COM1 + 1, 2, 1), Err(HyperError::InvalidParam));
    // The refused write of the interrupt-enable register changed nothing.
    assert_eq!(devices.write_port(0, COM1, 1, 0x41), Ok(Some(0x41)));
}

#[test]
fn console_mode_writes_reach_the_console_and_no_queue() {
    let mut devices = three_guests();
    assert_eq!(devices.write_port(0, COM1, 1, b'A' as u32), Ok(Some(b'A')));
    for vm in 0..3 {
        assert!(!waiting(&mut devices, vm));
        assert_eq!(devices.read_port(vm, COM1, 1, None), Ok(0));
    }
}

#[test]
fn forwarded_byte_reaches_the_guest_with_the_same_baud_rate() {
    let mut devices = three_guests();
    assert_eq!(devices.write_port(0, COM1 + 1, 1, 1), Ok(None));
    assert_eq!(devices.write_port(1, COM1 + 1, 1, 1), Ok(None));
    assert_eq!(devices.write_port(2, COM1 + 1, 1, 1), Ok(None));
    // Not on the console.
    assert_eq!(devices.write_port(0, COM1, 1, b'A' as u32), Ok(None));
    // Not in the writer's own queue.
    assert!(!waiting(&mut devices, 0));
    assert_eq!(devices.read_port(0, COM1, 1, None), Ok(0));
    // Not in the queue of the guest with another baud rate.
    assert!(!waiting(&mut devices, 2));
    assert_eq!(devices.read_port(2, COM1, 1, None), Ok(0));
    // In the queue of the guest with the same baud rate.
    assert!(waiting(&mut devices, 1));
    assert_eq!(devices.read_port(1, COM1, 1, None), Ok(b'A' as u32));
    assert!(!waiting(&mut devices, 1));
}

#[test]
fn interrupt_enable_three_forwards() {
    let mut devices = three_guests();
    assert_eq!(devices.write_port(0, COM1 + 1, 1, 0x03), Ok(None));
    // Nothing is left for the console.
    assert_eq!(devices.write_port(0, COM1, 1, 0x1_5a), Ok(None));
    assert_eq!(devices.read_port(1, COM1, 1, None), Ok(0x5a));
    assert_eq!(devices.read_port(0, COM1, 1, None), Ok(0));
    assert_eq!(devices.read_port(2, COM1, 1, None), Ok(0));
}

#[test]
fn forwarding_goes_both_ways_and_keeps_order() {
    let mut devices = VirtDevices::new();
    assert_eq!(devices.write_port(0, COM1 + 1, 1, 1), Ok(None));
    assert_eq!(devices.write_port(1, COM1 + 1, 1, 1), Ok(None));
    for b in b"COM1 writes OK!!!!\n" {
        assert_eq!(devices.write_port(0, COM1, 1, *b as u32), Ok(None));
    }
    for b in b"pong" {
        assert_eq!(devices.write_port(1, COM1, 1, *b as u32), Ok(None));
    }
    for b in b"COM1 writes OK!!!!\n" {
        assert!(!devices.polls_console(1, COM1 + 5, 1));
        assert_eq!(devices.read_port(1, COM1 + 5, 1, None), Ok(0x21));
        assert_eq!(devices.read_port(1, COM1, 1, None), Ok(*b as u32));
    }
    assert_eq!(devices.read_port(1, COM1 + 5, 1, None), Ok(0x20));
    for b in b"pong" {
        assert_eq!(devices.read_port(0, COM1, 1, None), Ok(*b as u32));
    }
    assert_eq!(devices.read_port(0, COM1, 1, None), Ok(0));
}

#[test]
fn forwarded_bytes_beyond_the_capacity_are_dropped() {
    let mut devices = VirtDevices::new();
    assert_eq!(devices.write_port(0, COM1 + 1, 1, 1), Ok(None));
    for b in 0..40u32 {
        assert_eq!(devices.write_port(0, COM1, 1, b), Ok(None));
    }
    for b in 0..32u32 {
        assert_eq!(devices.read_port(1, COM1, 1, None), Ok(b));
    }
    assert_eq!(devices.read_port(1, COM1, 1, None), Ok(0));
}

#[test]
fn forwarded_byte_is_lost_where_the_port_has_no_serial_device() {
    let mut devices = VirtDevices::with_lists(vec![
        serial_list(0, 115200),
        VirtDeviceList::new(vec![Device::Pic(I8259Pic::new(COM1))]),
        VirtDeviceList::new(vec![]),
    ]);
    assert_eq!(devices.write_port(0, COM1 + 1, 1, 1), Ok(None));
    assert_eq!(devices.write_port(0, COM1, 1, b'A' as u32), Ok(None));
    assert_eq!(devices.read_port(0, COM1, 1, None), Ok(0));
    assert_eq!(devices.read_port(1, COM1, 1, None), Ok(0));
    assert_eq!(devices.read_port(2, COM1, 1, None), Err(HyperError::NotFound));
}

#[test]
fn forwarded_byte_reaches_a_serial_device_with_another_base_on_the_same_port() {
    let mut devices = VirtDevices::with_lists(vec![
        serial_list(0, 115200),
        VirtDeviceList::new(vec![Device::Uart(Uart16550::new(COM1 - 3, 1))]),
    ]);
    assert_eq!(devices.write_port(0, COM1 + 1, 1, 1), Ok(None));
    assert_eq!(devices.write_port(0, COM1, 1, b'A' as u32), Ok(None));
    assert_eq!(devices.read_port(1, COM1 - 3, 1, None), Ok(b'A' as u32));
}

#[test]
fn console_byte_enters_the_queue_of_the_polling_guest_only() {
    let mut devices = VirtDevices::new();
    assert!(devices.polls_console(0, COM1 + 5, 1));
    assert_eq!(devices.read_port(0, COM1 + 5, 1, Some(b'k')), Ok(0x21));
    assert_eq!(devices.read_port(1, COM1 + 5, 1, None), Ok(0x20));
    assert_eq!(devices.read_port(0, COM1, 1, None), Ok(b'k' as u32));
    assert_eq!(devices.read_port(1, COM1, 1, None), Ok(0));
}
