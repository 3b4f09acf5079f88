//! Identifiers of machines and services.
//!
//! A [`Uuid`] is one 128-bit number. A [`Guid`] is the same number in four fields, the most
//! significant first; the last field is eight bytes, the most significant first.

use crate::bytes::{
    get_le, law_le_read_back, law_le_value_of_few, law_le_write_back, le_bytes, le_value,
    lemma_le_len, lemma_le_spans, lemma_le_value_bound, put_le,
};
use vstd::prelude::*;

verus! {

/// A universally unique identifier.
#[derive(Debug, Clone, Copy, PartialEq, Eq, Structural)]
pub struct Uuid(pub u128);

/// A universally unique identifier in fields.
#[derive(Debug, Clone, Copy)]
pub struct Guid {
    pub data1: u32,
    pub data2: u16,
    pub data3: u16,
    pub data4: [u8; 8],
}

/// The fields of an identifier.
pub open spec fn fields(number: nat) -> (nat, nat, nat, Seq<u8>) {
    (
        number / 0x1_0000_0000_0000_0000_0000_0000,
        number / 0x1_0000_0000_0000_0000_0000 % 0x1_0000,
        number / 0x1_0000_0000_0000_0000 % 0x1_0000,
        le_bytes(number % 0x1_0000_0000_0000_0000, 8).reverse(),
    )
}

impl View for Guid {
    type V = (nat, nat, nat, Seq<u8>);

    open spec fn view(&self) -> (nat, nat, nat, Seq<u8>) {
        (self.data1 as nat, self.data2 as nat, self.data3 as nat, self.data4@)
    }
}

/// The identifier that fields make up.
pub open spec fn number(fields: (nat, nat, nat, Seq<u8>)) -> nat {
    fields.0 * 0x1_0000_0000_0000_0000_0000_0000 + fields.1 * 0x1_0000_0000_0000_0000_0000
        + fields.2 * 0x1_0000_0000_0000_0000 + le_value(fields.3.reverse())
}

/// Splits an identifier into fields.
pub fn uuid_to_guid(uuid: Uuid) -> (guid: Guid)
    ensures
        guid@ == fields(uuid.0 as nat),
{
    let high: u64 = (uuid.0 / 0x1_0000_0000_0000_0000) as u64;
    let low: u64 = (uuid.0 % 0x1_0000_0000_0000_0000) as u64;
    let mut bytes: Vec<u8> = Vec::new();
    put_le(&mut bytes, low, 8);
    proof {
        lemma_le_len(low as nat, 8);
        assert(bytes@ =~= le_bytes(low as nat, 8));
    }
    let guid = Guid {
        data1: (high / 0x1_0000_0000) as u32,
        data2: (high / 0x1_0000 % 0x1_0000) as u16,
        data3: (high % 0x1_0000) as u16,
        data4: [bytes[7], bytes[6], bytes[5], bytes[4], bytes[3], bytes[2], bytes[1], bytes[0]],
    };
    assert(guid.data4@ =~= bytes@.reverse());
    guid
}

/// Puts the fields of an identifier together.
pub fn guid_to_uuid(guid: Guid) -> (uuid: Uuid)
    ensures
        uuid.0 == number(guid@),
{
    let mut bytes: Vec<u8> = Vec::new();
    let mut at: usize = 8;
    while at > 0
        invariant
            at <= 8,
            bytes@ == guid.data4@.reverse().take(8 - at),
        decreases at,
    {
        at = at - 1;
        bytes.push(guid.data4[at]);
        assert(bytes@ =~= guid.data4@.reverse().take(8 - at));
    }
    assert(bytes@ =~= guid.data4@.reverse());
    let low: u64 = get_le(bytes.as_slice(), 0, 8);
    assert(bytes@.subrange(0, 8) =~= bytes@);
    let high: u64 = guid.data1 as u64 * 0x1_0000_0000 + guid.data2 as u64 * 0x1_0000
        + guid.data3 as u64;
    Uuid(high as u128 * 0x1_0000_0000_0000_0000 + low as u128)
}

/// Splitting an identifier and putting it together again gives the identifier.
pub proof fn law_uuid_read_back(uuid: u128)
    ensures
        number(fields(uuid as nat)) == uuid,
{
    let low = uuid as nat % 0x1_0000_0000_0000_0000;
    lemma_le_spans();
    lemma_le_len(low, 8);
    law_le_read_back(low, 8);
    assert(le_bytes(low, 8).reverse().reverse() =~= le_bytes(low, 8));
}

/// Putting fields together and splitting the identifier again gives the fields.
pub proof fn law_guid_read_back(guid: Guid)
    ensures
        fields(number(guid@)) == guid@,
{
    let low = le_value(guid.data4@.reverse());
    lemma_le_spans();
    lemma_le_value_bound(guid.data4@.reverse());
    law_le_write_back(guid.data4@.reverse());
    assert(guid.data4@.reverse().reverse() =~= guid.data4@);
    assert(number(guid@) % 0x1_0000_0000_0000_0000 == low);
}

/// The Hyper-V identifier that every service of a socket port is made from.
pub const HV_GUID_VSOCK_TEMPLATE: u128 = 0x00000000_facb_11e6_bd58_64006a7986d3;

/// The Hyper-V identifier of no machine.
pub const HV_GUID_ZERO: u128 = 0;

/// The Hyper-V identifier of all virtual machines of a host.
pub const HV_GUID_CHILDREN: u128 = 0x90db8b89_0d35_4f79_8ce9_49ea0ac8b7cd;

/// The Hyper-V identifier of the machine itself.
pub const HV_GUID_LOOPBACK: u128 = 0xe0e16197_dd56_4a10_9195_5ee7a155a838;

/// The Hyper-V identifier of the host of a virtual machine.
pub const HV_GUID_PARENT: u128 = 0xa42e7cda_d03f_480c_9cc2_a4de20abb878;

/// What a Hyper-V service can be named by.
pub trait ToServiceId {
    /// The identifier of the service.
    spec fn service(&self) -> (nat, nat, nat, Seq<u8>);

    /// The identifier of the service.
    fn to_guid(&self) -> (guid: Guid)
        ensures
            guid@ == self.service(),
    ;
}

impl ToServiceId for u32 {
    open spec fn service(&self) -> (nat, nat, nat, Seq<u8>) {
        let template = fields(HV_GUID_VSOCK_TEMPLATE as nat);
        (*self as nat, template.1, template.2, template.3)
    }

    fn to_guid(&self) -> (guid: Guid) {
        let mut guid = uuid_to_guid(Uuid(HV_GUID_VSOCK_TEMPLATE));
        guid.data1 = *self;
        guid
    }
}

/// The fields of an identifier are its digits: 32, 16 and 16 bits from the most significant on, and
/// then eight bytes. Nothing of it is lost and nothing is added.
pub proof fn law_fields_are_the_digits(uuid: u128)
    ensures
        ({
            let (first, second, third, last) = fields(uuid as nat);
            &&& first < 0x1_0000_0000
            &&& second < 0x1_0000
            &&& third < 0x1_0000
            &&& last.len() == 8
            &&& uuid == first * 0x1_0000_0000_0000_0000_0000_0000 + second
                * 0x1_0000_0000_0000_0000_0000 + third * 0x1_0000_0000_0000_0000 + last[0]
                * 0x100_0000_0000_0000 + last[1] * 0x1_0000_0000_0000 + last[2] * 0x100_0000_0000
                + last[3] * 0x1_0000_0000 + last[4] * 0x100_0000 + last[5] * 0x1_0000 + last[6]
                * 0x100 + last[7]
        }),
{
    let low = uuid as nat % 0x1_0000_0000_0000_0000;
    let bytes = le_bytes(low, 8);
    lemma_le_spans();
    lemma_le_len(low, 8);
    law_le_read_back(low, 8);
    law_le_value_of_few(bytes);
    let last = bytes.reverse();
    assert(forall|i: int| 0 <= i < 8 ==> #[trigger] last[i] == bytes[7 - i]);
}

/// The identifier that fields make up, byte for byte.
pub proof fn law_number_of_fields(guid: Guid)
    ensures
        number(guid@) == guid.data1 * 0x1_0000_0000_0000_0000_0000_0000 + guid.data2
            * 0x1_0000_0000_0000_0000_0000 + guid.data3 * 0x1_0000_0000_0000_0000 + guid.data4@[0]
            * 0x100_0000_0000_0000 + guid.data4@[1] * 0x1_0000_0000_0000 + guid.data4@[2]
            * 0x100_0000_0000 + guid.data4@[3] * 0x1_0000_0000 + guid.data4@[4] * 0x100_0000
            + guid.data4@[5] * 0x1_0000 + guid.data4@[6] * 0x100 + guid.data4@[7],
{
    let bytes = guid.data4@.reverse();
    law_le_value_of_few(bytes);
}

/// The service of a port: the port is the first field, and the others are those that all ports
/// share. So ports are told apart by their services.
pub proof fn law_service_of_a_port(port: u32)
    ensures
        port.service().0 == port,
        port.service().1 == 0xfacb,
        port.service().2 == 0x11e6,
        port.service().3 == seq![0xbdu8, 0x58, 0x64, 0x00, 0x6a, 0x79, 0x86, 0xd3],
{
    let low = HV_GUID_VSOCK_TEMPLATE as nat % 0x1_0000_0000_0000_0000;
    let bytes = seq![0xd3u8, 0x86, 0x79, 0x6a, 0x00, 0x64, 0x58, 0xbd];
    law_le_value_of_few(bytes);
    law_le_write_back(bytes);
    assert(le_value(bytes) == low);
    assert(bytes.reverse() =~= seq![0xbdu8, 0x58, 0x64, 0x00, 0x6a, 0x79, 0x86, 0xd3]);
}

} // verus!
