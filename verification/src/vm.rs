//! A virtual machine as the owner of its virtual CPUs.

use vstd::prelude::*;
use crate::addr::{GuestPhysAddr, HostPhysAddr};
use crate::error::{HyperError, HyperResult};

verus! {

/// What a virtual CPU is bound to from its creation on.
pub struct VCpuModel {
    /// The id of the VM that owns it.
    pub vm_id: usize,
    /// Its id within that VM.
    pub vcpu_id: usize,
    /// The revision of the control structure that the processor expects.
    pub vmcs_revision_id: u32,
    /// The guest physical address that the guest is entered at.
    pub entry: GuestPhysAddr,
    /// The host physical address of the guest's top-level nested page table.
    pub npt_root: HostPhysAddr,
}

/// A virtual CPU: what it is bound to. Running the guest on it is the
/// platform's part.
pub struct VCpu {
    vm_id: usize,
    vcpu_id: usize,
    vmcs_revision_id: u32,
    entry: GuestPhysAddr,
    npt_root: HostPhysAddr,
}

impl View for VCpu {
    type V = VCpuModel;

    closed spec fn view(&self) -> VCpuModel {
        VCpuModel {
            vm_id: self.vm_id,
            vcpu_id: self.vcpu_id,
            vmcs_revision_id: self.vmcs_revision_id,
            entry: self.entry,
            npt_root: self.npt_root,
        }
    }
}

impl VCpu {
    /// Binds a vCPU to its VM, its id within the VM, the guest entry point
    /// and the root of the nested page table.
    pub fn new(
        vm_id: usize,
        vcpu_id: usize,
        vmcs_revision_id: u32,
        entry: GuestPhysAddr,
        npt_root: HostPhysAddr,
    ) -> (r: HyperResult<VCpu>)
        ensures
            r is Ok,
            r->Ok_0@ == (VCpuModel { vm_id, vcpu_id, vmcs_revision_id, entry, npt_root }),
    {
        Ok(VCpu { vm_id, vcpu_id, vmcs_revision_id, entry, npt_root })
    }

    /// The id of the VM that owns this vCPU.
    pub fn vm_id(&self) -> (r: usize)
        ensures
            r == self@.vm_id,
    {
        self.vm_id
    }

    /// Get the vcpu id.
    pub fn vcpu_id(&self) -> (r: usize)
        ensures
            r == self@.vcpu_id,
    {
        self.vcpu_id
    }

    /// The revision of the control structure that the processor expects.
    pub fn vmcs_revision_id(&self) -> (r: u32)
        ensures
            r == self@.vmcs_revision_id,
    {
        self.vmcs_revision_id
    }

    /// The guest physical address that the guest is entered at.
    pub fn entry(&self) -> (r: GuestPhysAddr)
        ensures
            r == self@.entry,
    {
        self.entry
    }

    /// The host physical address of the guest's top-level nested page table.
    pub fn npt_root(&self) -> (r: HostPhysAddr)
        ensures
            r == self@.npt_root,
    {
        self.npt_root
    }
}

/// Initialize the hypervisor runtime. There is nothing to set up; the call
/// is in order only where the processor offers hardware virtualization.
pub fn init_hv_runtime(hardware_support: bool)
    requires
        hardware_support,
{
}

/// VM exit information.
pub struct VmExitInfo {}

/// Whether every vCPU of `vcpus` carries `vm_id` and, as its own id, the
/// position it stands at.
pub open spec fn numbered(vm_id: usize, vcpus: Seq<VCpuModel>) -> bool {
    forall|i: int|
        0 <= i < vcpus.len() ==> (#[trigger] vcpus[i]).vcpu_id == i && vcpus[i].vm_id == vm_id
}

/// A virtual machine: an id and its vCPUs in the order they were added.
pub struct VM {
    id: usize,
    vcpu_count: usize,
    vcpu: Vec<VCpu>,
}

impl View for VM {
    type V = Seq<VCpuModel>;

    /// The vCPUs, in the order they were added.
    closed spec fn view(&self) -> Seq<VCpuModel> {
        Seq::new(self.vcpu@.len(), |i: int| self.vcpu@[i]@)
    }
}

impl VM {
    /// The id that the VM was created with.
    pub closed spec fn spec_vm_id(&self) -> usize {
        self.id
    }

    /// The count of vCPUs is kept right, and every vCPU carries the VM's id
    /// and its own position as its id.
    pub closed spec fn wf(&self) -> bool {
        &&& self.vcpu_count == self.vcpu@.len()
        &&& numbered(self.id, self@)
    }

    /// In a well-formed VM the id of a vCPU is its position.
    pub proof fn lemma_wf_numbered(&self)
        requires
            self.wf(),
        ensures
            numbered(self.spec_vm_id(), self@),
    {
    }

    /// create new VM
    pub fn new(id: usize) -> (vm: Self)
        ensures
            vm.wf(),
            vm.spec_vm_id() == id,
            vm@ == Seq::<VCpuModel>::empty(),
    {
        let vm = Self { id: id, vcpu_count: 0, vcpu: Vec::new() };
        assert(vm@ =~= Seq::<VCpuModel>::empty());
        vm
    }

    /// add a new vcpu to VM
    pub fn add_vcpu(
        &mut self,
        vmcs_revision_id: u32,
        entry: GuestPhysAddr,
        npt_root: HostPhysAddr,
    ) -> (r: HyperResult<usize>)
        requires
            old(self).wf(),
        ensures
            final(self).wf(),
            final(self).spec_vm_id() == old(self).spec_vm_id(),
            r == Ok::<usize, HyperError>(old(self)@.len() as usize),
            final(self)@ == old(self)@.push(
                VCpuModel {
                    vm_id: old(self).spec_vm_id(),
                    vcpu_id: old(self)@.len() as usize,
                    vmcs_revision_id,
                    entry,
                    npt_root,
                },
            ),
    {
        let constructed = VCpu::new(self.id, self.vcpu_count, vmcs_revision_id, entry, npt_root);
        self.add_constructed(constructed)
    }

    /// Takes a vCPU as its construction ended. A vCPU that was made for this
    /// VM and for the next id is appended, and that id is returned. A
    /// construction that failed is handed on, and the VM is left as it was:
    /// the id is given to the next vCPU.
    pub fn add_constructed(&mut self, constructed: HyperResult<VCpu>) -> (r: HyperResult<usize>)
        requires
            old(self).wf(),
            constructed matches Ok(vcpu) ==> vcpu@.vm_id == old(self).spec_vm_id() && vcpu@.vcpu_id
                == old(self)@.len(),
        ensures
            final(self).wf(),
            final(self).spec_vm_id() == old(self).spec_vm_id(),
            match constructed {
                Ok(vcpu) => r == Ok::<usize, HyperError>(old(self)@.len() as usize)
                    && final(self)@ == old(self)@.push(vcpu@),
                Err(e) => r == Err::<usize, HyperError>(e) && final(self)@ == old(self)@,
            },
    {
        let vcpu = match constructed {
            Ok(vcpu) => vcpu,
            Err(e) => {
                return Err(e);
            },
        };
        let ghost added = vcpu@;
        self.vcpu.push(vcpu);
        let count: usize = self.vcpu.len();
        let assigned: usize = self.vcpu_count;
        self.vcpu_count = count;
        assert(self@ =~= old(self)@.push(added));
        Ok(assigned)
    }

    /// The id that the next vCPU gets.
    pub fn next_vcpu_id(&self) -> (id: usize)
        requires
            self.wf(),
        ensures
            id == self@.len(),
    {
        self.vcpu_count
    }

    /// Returns a reference to the vCPU with `vcpu_id` if it exists. The VM
    /// stays as it was for as long as the vCPU is left bound as it was.
    pub fn get_vcpu(&mut self, vcpu_id: usize) -> (r: HyperResult<&mut VCpu>)
        requires
            old(self).wf(),
        ensures
            final(self).spec_vm_id() == old(self).spec_vm_id(),
            r is Ok <==> vcpu_id < old(self)@.len(),
            r is Err ==> r->Err_0 == HyperError::NotFound && final(self).wf() && final(self)@
                == old(self)@,
            r is Ok ==> (*r->Ok_0)@ == old(self)@[vcpu_id as int],
            r is Ok ==> final(self)@ =~= old(self)@.update(vcpu_id as int, (*final(r->Ok_0))@),
            r is Ok && (*final(r->Ok_0))@ == (*r->Ok_0)@ ==> final(self).wf(),
    {
        if vcpu_id < self.vcpu_count {
            let ghost before = self@;
            let ghost vcpus = self.vcpu@;
            assert(forall|i: int| 0 <= i < vcpus.len() ==> before[i] == (#[trigger] vcpus[i])@);
            let vcpu = &mut self.vcpu[vcpu_id];
            Ok(vcpu)
        } else {
            Err(HyperError::NotFound)
        }
    }

    /// get vm id
    pub fn get_vm_id(&self) -> (r: usize)
        ensures
            r == self.spec_vm_id(),
    {
        self.id
    }

    /// The number of vCPUs.
    pub fn vcpu_count(&self) -> (r: usize)
        requires
            self.wf(),
        ensures
            r == self@.len(),
    {
        self.vcpu_count
    }
}

} // verus!
