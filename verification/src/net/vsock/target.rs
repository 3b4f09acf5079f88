//! Where a socket leads.

use super::guid::{
    fields, law_guid_read_back, law_uuid_read_back, number, uuid_to_guid, Guid, ToServiceId, Uuid,
    HV_GUID_CHILDREN, HV_GUID_LOOPBACK, HV_GUID_PARENT, HV_GUID_ZERO,
};
use vstd::prelude::*;

verus! {

/// The context identifier of the machine itself.
pub const CID_LOCAL: u32 = 1;

/// The address family of Hyper-V sockets.
pub const AF_HYPERV: u16 = 34;

/// What is said where a machine cannot be named by its identifier.
pub const NO_UUID_ON_UNIX: &'static str = "UUID not supported on Unix";

/// A machine.
#[derive(Debug, Clone, Copy, PartialEq, Eq, Structural)]
pub enum VsockTarget {
    /// By its context identifier.
    Cid(u32),
    /// By its Hyper-V identifier.
    Guid(Uuid),
}

/// A Hyper-V socket address.
#[derive(Debug, Clone, Copy)]
pub struct HvAddress {
    pub family: u16,
    pub reserved: u16,
    pub vm_id: Guid,
    pub service_id: Guid,
}

impl HvAddress {
    /// Whether this is the address of a service on a machine.
    pub open spec fn leads_to(self, machine: u128, service: (nat, nat, nat, Seq<u8>)) -> bool {
        &&& self.family == AF_HYPERV
        &&& self.reserved == 0
        &&& self.vm_id@ == fields(machine as nat)
        &&& self.service_id@ == service
    }
}

/// The address of a service on a machine.
pub fn create_hv_sockaddr(vm_guid: Guid, service_id: Guid) -> (address: HvAddress)
    ensures
        address == (HvAddress { family: AF_HYPERV, reserved: 0, vm_id: vm_guid, service_id }),
{
    HvAddress { family: AF_HYPERV, reserved: 0, vm_id: vm_guid, service_id }
}

impl VsockTarget {
    /// The machine itself.
    pub fn loopback() -> (target: Self)
        ensures
            target == VsockTarget::Cid(CID_LOCAL),
    {
        VsockTarget::Cid(CID_LOCAL)
    }

    /// The context identifier to connect to. Machines cannot be told apart by anything else
    /// outside Hyper-V.
    pub fn cid(self) -> (cid: Result<u32, &'static str>)
        ensures
            match self {
                VsockTarget::Cid(number) => cid == Ok::<u32, &'static str>(number),
                VsockTarget::Guid(uuid) => cid matches Err(text) && text@ == NO_UUID_ON_UNIX@,
            },
    {
        match self {
            VsockTarget::Cid(number) => Ok(number),
            VsockTarget::Guid(_) => Err(NO_UUID_ON_UNIX),
        }
    }

    /// The Hyper-V identifier of the machine to connect to. The well-known context identifiers
    /// are the machine itself and its host; any other stands for the virtual machines.
    pub open spec fn machine(self) -> u128 {
        match self {
            VsockTarget::Cid(number) => if number == 0 || number == 1 {
                HV_GUID_LOOPBACK
            } else if number == 2 {
                HV_GUID_PARENT
            } else {
                HV_GUID_CHILDREN
            },
            VsockTarget::Guid(uuid) => uuid.0,
        }
    }

    /// The Hyper-V identifier of the machines to listen for. They can be told apart by their
    /// Hyper-V identifier only.
    pub open spec fn callers(self) -> u128 {
        match self {
            VsockTarget::Cid(number) => HV_GUID_CHILDREN,
            VsockTarget::Guid(uuid) => uuid.0,
        }
    }

    /// The Hyper-V address to connect to.
    pub fn connect_address(self, port: u32) -> (address: HvAddress)
        ensures
            address.leads_to(self.machine(), port.service()),
    {
        let machine: u128 = match self {
            VsockTarget::Cid(number) => {
                if number == 0 || number == 1 {
                    HV_GUID_LOOPBACK
                } else if number == 2 {
                    HV_GUID_PARENT
                } else {
                    HV_GUID_CHILDREN
                }
            },
            VsockTarget::Guid(uuid) => uuid.0,
        };
        create_hv_sockaddr(uuid_to_guid(Uuid(machine)), port.to_guid())
    }

    /// The Hyper-V address to listen on.
    pub fn bind_address(self, port: u32) -> (address: HvAddress)
        ensures
            address.leads_to(self.callers(), port.service()),
    {
        let machine: u128 = match self {
            VsockTarget::Cid(_) => HV_GUID_CHILDREN,
            VsockTarget::Guid(uuid) => uuid.0,
        };
        create_hv_sockaddr(uuid_to_guid(Uuid(machine)), port.to_guid())
    }
}

/// The Hyper-V address that a connecting socket has itself.
pub fn local_address() -> (address: HvAddress)
    ensures
        address.leads_to(HV_GUID_ZERO, fields(HV_GUID_ZERO as nat)),
{
    let zero = uuid_to_guid(Uuid(HV_GUID_ZERO));
    create_hv_sockaddr(zero, zero)
}

/// Where a listening socket waits: for the virtual machines whatever the context identifier, and
/// for one machine where that is named by its Hyper-V identifier.
pub proof fn law_listening_waits_for_the_virtual_machines(number: u32, uuid: Uuid)
    ensures
        VsockTarget::Cid(number).callers() == 0x90db8b89_0d35_4f79_8ce9_49ea0ac8b7cd,
        VsockTarget::Guid(uuid).callers() == uuid.0,
{
}

/// Where a connecting socket leads: the two lowest context identifiers to the machine itself, the
/// next to its host, all others to the virtual machines, and a Hyper-V identifier to its machine.
pub proof fn law_connecting_leads_to_the_machine(number: u32, uuid: Uuid)
    ensures
        number < 2 ==> VsockTarget::Cid(number).machine() == 0xe0e16197_dd56_4a10_9195_5ee7a155a838,
        number == 2 ==> VsockTarget::Cid(number).machine()
            == 0xa42e7cda_d03f_480c_9cc2_a4de20abb878,
        number > 2 ==> VsockTarget::Cid(number).machine() == 0x90db8b89_0d35_4f79_8ce9_49ea0ac8b7cd,
        VsockTarget::Guid(uuid).machine() == uuid.0,
{
}

/// An address that leads somewhere names the machine and the service in full: putting the fields
/// together again gives the machine's identifier.
pub proof fn law_address_names_machine_and_service(
    address: HvAddress,
    machine: u128,
    service: (nat, nat, nat, Seq<u8>),
)
    ensures
        address.leads_to(machine, service) ==> {
            &&& address.family == 34
            &&& address.reserved == 0
            &&& number(address.vm_id@) == machine
            &&& address.service_id@ == service
        },
        address.family == 34 && address.reserved == 0 && number(address.vm_id@) == machine
            && address.service_id@ == service ==> address.leads_to(machine, service),
{
    law_uuid_read_back(machine);
    law_guid_read_back(address.vm_id);
}

/// The context identifier of the machine itself.
pub proof fn law_local_number()
    ensures
        CID_LOCAL == 1,
{
}

} // verus!
