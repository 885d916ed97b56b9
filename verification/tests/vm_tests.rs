use hvcore::error::HyperError;
use hvcore::vm::{init_hv_runtime, VCpu, VM};

#[test]
fn fresh_vm_has_its_id_and_no_vcpu() {
    let mut vm = VM::new(3);
    assert_eq!(vm.get_vm_id(), 3);
    assert_eq!(vm.get_vcpu(0).map(|v| v.vcpu_id()), Err(HyperError::NotFound));
}

#[test]
fn vcpu_ids_follow_insertion_order() {
    let mut vm = VM::new(0);
    for expected in 0..16 {
        assert_eq!(vm.add_vcpu(1, 0x8000, 0x1000), Ok(expected));
    }
    for id in 0..16 {
        let vcpu = vm.get_vcpu(id).unwrap();
        assert_eq!(vcpu.vcpu_id(), id);
        assert_eq!(vcpu.vm_id(), 0);
    }
    assert_eq!(vm.get_vcpu(16).map(|v| v.vcpu_id()), Err(HyperError::NotFound));
    assert_eq!(vm.get_vcpu(usize::MAX).map(|v| v.vcpu_id()), Err(HyperError::NotFound));
}

#[test]
fn vm_seven_with_two_vcpus() {
    let mut vm = VM::new(7);
    assert_eq!(vm.add_vcpu(0x12, 0x8000, 0x5000), Ok(0));
    assert_eq!(vm.add_vcpu(0x12, 0x8000, 0x5000), Ok(1));
    assert_eq!(vm.get_vcpu(0).map(|v| (v.vm_id(), v.vcpu_id())), Ok((7, 0)));
    assert_eq!(vm.get_vcpu(1).map(|v| (v.vm_id(), v.vcpu_id())), Ok((7, 1)));
    assert_eq!(vm.get_vcpu(2).map(|v| v.vcpu_id()), Err(HyperError::NotFound));
    assert_eq!(vm.get_vm_id(), 7);
}

#[test]
fn vcpu_keeps_what_it_was_bound_to() {
    let vcpu = VCpu::new(4, 9, 0x12, 0x8000, 0x5000).unwrap();
    assert_eq!(vcpu.vm_id(), 4);
    assert_eq!(vcpu.vcpu_id(), 9);
    assert_eq!(vcpu.vmcs_revision_id(), 0x12);
    assert_eq!(vcpu.entry(), 0x8000);
    assert_eq!(vcpu.npt_root(), 0x5000);
}

#[test]
fn added_vcpu_is_bound_to_what_was_given() {
    let mut vm = VM::new(2);
    assert_eq!(vm.vcpu_count(), 0);
    assert_eq!(vm.add_vcpu(7, 0x8000, 0x1000), Ok(0));
    assert_eq!(vm.add_vcpu(8, 0x20_0000, 0x2000), Ok(1));
    assert_eq!(vm.vcpu_count(), 2);
    let first = vm.get_vcpu(0).unwrap();
    assert_eq!(
        (first.vm_id(), first.vcpu_id(), first.vmcs_revision_id(), first.entry(), first.npt_root()),
        (2, 0, 7, 0x8000, 0x1000)
    );
    let second = vm.get_vcpu(1).unwrap();
    assert_eq!(
        (second.vm_id(), second.vcpu_id(), second.vmcs_revision_id(), second.entry(), second.npt_root()),
        (2, 1, 8, 0x20_0000, 0x2000)
    );
}

#[test]
fn failed_construction_is_handed_on_and_takes_no_id() {
    let mut vm = VM::new(5);
    assert_eq!(vm.add_vcpu(1, 0x8000, 0x1000), Ok(0));
    assert_eq!(vm.next_vcpu_id(), 1);
    assert_eq!(vm.add_constructed(Err(HyperError::NoMemory)), Err(HyperError::NoMemory));
    assert_eq!(vm.add_constructed(Err(HyperError::BadState)), Err(HyperError::BadState));
    assert_eq!(vm.vcpu_count(), 1);
    assert_eq!(vm.next_vcpu_id(), 1);
    assert_eq!(vm.get_vcpu(1).map(|v| v.vcpu_id()), Err(HyperError::NotFound));
    let id = vm.next_vcpu_id();
    assert_eq!(vm.add_constructed(VCpu::new(5, id, 2, 0x9000, 0x2000)), Ok(1));
    assert_eq!(vm.get_vcpu(1).map(|v| (v.vm_id(), v.vcpu_id(), v.entry())), Ok((5, 1, 0x9000)));
    assert_eq!(vm.add_vcpu(1, 0x8000, 0x1000), Ok(2));
}

#[test]
fn runtime_starts_where_the_hardware_is_there() {
    init_hv_runtime(true);
}
