//! Finding a virtual machine to talk to.

use super::guid::{fields, uuid_to_guid, Guid, Uuid};
use crate::text::same;
use vstd::prelude::*;

verus! {

/// A virtual machine or container, as the host lists it. What the host leaves out is empty.
#[derive(Debug)]
pub struct ComputeSystem {
    pub id: String,
    pub owner: String,
    pub runtime_id: String,
}

/// What `uuid::Uuid` reads a text as.
pub uninterp spec fn parsed_uuid(text: Seq<char>) -> Option<u128>;

/// `<uuid::Uuid as FromStr>::from_str` and `uuid::Uuid::as_u128`: the identifier that a text
/// spells in one of the notations of the crate.
#[verifier::external_body]
fn parse_uuid(text: &str) -> (uuid: Option<u128>)
    ensures
        uuid == parsed_uuid(text@),
{
    match text.parse::<uuid::Uuid>() {
        Ok(uuid) => Some(uuid.as_u128()),
        Err(_) => None,
    }
}

/// Which of two readings addresses a machine: its runtime identifier, or else its identifier.
pub open spec fn preferred(runtime_id: Option<u128>, id: Option<u128>) -> Option<u128> {
    if runtime_id is Some {
        runtime_id
    } else {
        id
    }
}

impl ComputeSystem {
    /// The identifier that addresses the machine, where it has one.
    pub open spec fn address(&self) -> Option<u128> {
        preferred(parsed_uuid(self.runtime_id@), parsed_uuid(self.id@))
    }

    /// Whether the machine is the one that runs the Linux subsystem.
    pub open spec fn is_wsl(&self) -> bool {
        self.owner@ == "WSL"@
    }

    /// The identifier that addresses the machine, where it has one.
    pub fn vm_id(&self) -> (uuid: Option<Uuid>)
        ensures
            uuid == match self.address() {
                Some(number) => Some(Uuid(number)),
                None => None,
            },
    {
        match prefer(parse_uuid(self.runtime_id.as_str()), parse_uuid(self.id.as_str())) {
            Some(number) => Some(Uuid(number)),
            None => None,
        }
    }
}

/// The reading that addresses a machine.
pub fn prefer(runtime_id: Option<u128>, id: Option<u128>) -> (uuid: Option<u128>)
    ensures
        uuid == preferred(runtime_id, id),
{
    match runtime_id {
        Some(number) => Some(number),
        None => id,
    }
}

/// Where a machine stands: whether it runs the Linux subsystem, and the identifier that addresses
/// it.
#[derive(Debug, Clone, Copy, PartialEq, Eq, Structural)]
pub struct Candidate {
    pub wsl: bool,
    pub address: Option<u128>,
}

/// The first address among the candidates from `from` on, of those with the Linux subsystem or of
/// all.
pub open spec fn first_address(candidates: Seq<Candidate>, only_wsl: bool, from: int) -> Option<
    u128,
>
    decreases candidates.len() - from,
{
    if from < 0 || from >= candidates.len() {
        None
    } else if candidates[from].address is Some && (candidates[from].wsl || !only_wsl) {
        candidates[from].address
    } else {
        first_address(candidates, only_wsl, from + 1)
    }
}

/// The address of the best machine: the first with the Linux subsystem that has one, or else the
/// first of all that has one.
pub open spec fn best_address(candidates: Seq<Candidate>) -> Option<u128> {
    match first_address(candidates, true, 0) {
        Some(number) => Some(number),
        None => first_address(candidates, false, 0),
    }
}

/// Whether there is an address and it is the first: no candidate before it would do.
pub open spec fn is_first(candidates: Seq<Candidate>, only_wsl: bool, place: int) -> bool {
    &&& 0 <= place < candidates.len()
    &&& candidates[place].address is Some
    &&& candidates[place].wsl || !only_wsl
    &&& forall|i: int|
        0 <= i < place ==> (#[trigger] candidates[i]).address is None || (only_wsl
            && !candidates[i].wsl)
}

/// What stands for the listed machines in the choice among them.
pub open spec fn candidates_of(systems: Seq<ComputeSystem>) -> Seq<Candidate> {
    Seq::new(
        systems.len(),
        |i: int| Candidate { wsl: systems[i].is_wsl(), address: systems[i].address() },
    )
}

/// What stands for the listed machines in the choice among them.
fn candidates(systems: &[ComputeSystem]) -> (list: Vec<Candidate>)
    ensures
        list@ == candidates_of(systems@),
{
    let mut list: Vec<Candidate> = Vec::new();
    let mut at: usize = 0;
    while at < systems.len()
        invariant
            at <= systems@.len(),
            list@ == candidates_of(systems@).take(at as int),
        decreases systems@.len() - at,
    {
        let system = &systems[at];
        let address = match system.vm_id() {
            Some(uuid) => Some(uuid.0),
            None => None,
        };
        list.push(Candidate { wsl: same(system.owner.as_str(), "WSL"), address });
        assert(list@ =~= candidates_of(systems@).take(at + 1));
        at = at + 1;
    }
    assert(list@ =~= candidates_of(systems@));
    list
}

/// The first address among the candidates, of those with the Linux subsystem or of all.
pub fn find_address(candidates: &[Candidate], only_wsl: bool) -> (address: Option<u128>)
    ensures
        address == first_address(candidates@, only_wsl, 0),
{
    let mut at: usize = 0;
    while at < candidates.len()
        invariant
            at <= candidates@.len(),
            first_address(candidates@, only_wsl, at as int) == first_address(
                candidates@,
                only_wsl,
                0,
            ),
        decreases candidates@.len() - at,
    {
        let candidate = candidates[at];
        if candidate.wsl || !only_wsl {
            if let Some(number) = candidate.address {
                return Some(number);
            }
        }
        at = at + 1;
    }
    None
}

/// The address of the best machine among the candidates.
pub fn choose_address(candidates: &[Candidate]) -> (address: Option<u128>)
    ensures
        address == best_address(candidates@),
{
    match find_address(candidates, true) {
        Some(number) => Some(number),
        None => find_address(candidates, false),
    }
}

/// The best machine among those listed.
pub fn best_vm(systems: &[ComputeSystem]) -> (uuid: Option<Uuid>)
    ensures
        uuid == match best_address(candidates_of(systems@)) {
            Some(number) => Some(Uuid(number)),
            None => None,
        },
{
    match choose_address(candidates(systems).as_slice()) {
        Some(number) => Some(Uuid(number)),
        None => None,
    }
}

/// The first machine with the Linux subsystem among those listed.
pub fn wsl_vm(systems: &[ComputeSystem]) -> (uuid: Option<Uuid>)
    ensures
        uuid == match first_address(candidates_of(systems@), true, 0) {
            Some(number) => Some(Uuid(number)),
            None => None,
        },
{
    match find_address(candidates(systems).as_slice(), true) {
        Some(number) => Some(Uuid(number)),
        None => None,
    }
}

proof fn lemma_first_address(candidates: Seq<Candidate>, only_wsl: bool, from: int, place: int)
    requires
        is_first(candidates, only_wsl, place),
        0 <= from <= place,
    ensures
        first_address(candidates, only_wsl, from) == candidates[place].address,
    decreases place - from,
{
    if from < place {
        lemma_first_address(candidates, only_wsl, from + 1, place);
    }
}

proof fn lemma_no_address(candidates: Seq<Candidate>, only_wsl: bool, from: int)
    requires
        0 <= from <= candidates.len(),
        forall|i: int|
            0 <= i < candidates.len() ==> (#[trigger] candidates[i]).address is None || (only_wsl
                && !candidates[i].wsl),
    ensures
        first_address(candidates, only_wsl, from) is None,
    decreases candidates.len() - from,
{
    if from < candidates.len() {
        lemma_no_address(candidates, only_wsl, from + 1);
    }
}

/// The machine with the Linux subsystem wins wherever it is listed: the best machine is the first
/// of these that has an address.
pub proof fn law_wsl_wins_wherever_it_is_listed(candidates: Seq<Candidate>, place: int)
    requires
        is_first(candidates, true, place),
    ensures
        best_address(candidates) == candidates[place].address,
{
    lemma_first_address(candidates, true, 0, place);
}

/// Without the Linux subsystem the first machine that has an address is the best; machines without
/// one are passed over.
pub proof fn law_without_wsl_the_first_address_wins(candidates: Seq<Candidate>, place: int)
    requires
        is_first(candidates, false, place),
        forall|i: int|
            0 <= i < candidates.len() ==> (#[trigger] candidates[i]).address is None
                || !candidates[i].wsl,
    ensures
        best_address(candidates) == candidates[place].address,
{
    lemma_no_address(candidates, true, 0);
    lemma_first_address(candidates, false, 0, place);
}

/// Where no machine has an address there is no best one.
pub proof fn law_no_address_no_machine(candidates: Seq<Candidate>)
    requires
        forall|i: int| 0 <= i < candidates.len() ==> (#[trigger] candidates[i]).address is None,
    ensures
        best_address(candidates) is None,
{
    lemma_no_address(candidates, true, 0);
    lemma_no_address(candidates, false, 0);
}

/// What came of asking the host for its machines.
pub enum Listing {
    Systems(Vec<ComputeSystem>),
    /// The host does not let us list them.
    PermissionDenied,
    Failed,
}

/// What to do about a machine to talk to.
pub enum VmChoice {
    /// Talk to this one.
    Use(Guid),
    /// Look for one in the registry and go on with [`choose_registered`].
    AskRegistry,
    /// There is none, for this reason.
    NotFound(&'static str),
    /// Report the failure to list the machines.
    Fail,
}

/// What to do about a machine to talk to, given what came of listing them. The registry is asked
/// only where listing is not permitted.
pub fn get_best_vmid(listing: &Listing) -> (choice: VmChoice)
    ensures
        match listing {
            Listing::Systems(systems) => match best_address(candidates_of(systems@)) {
                Some(number) => choice matches VmChoice::Use(guid) && guid@ == fields(
                    number as nat,
                ),
                None => choice matches VmChoice::NotFound(reason) && reason@
                    == "No compute system with a usable VM id found"@,
            },
            Listing::PermissionDenied => choice is AskRegistry,
            Listing::Failed => choice is Fail,
        },
{
    match listing {
        Listing::Systems(systems) => match best_vm(systems.as_slice()) {
            Some(uuid) => VmChoice::Use(uuid_to_guid(uuid)),
            None => VmChoice::NotFound("No compute system with a usable VM id found"),
        },
        Listing::PermissionDenied => VmChoice::AskRegistry,
        Listing::Failed => VmChoice::Fail,
    }
}

/// What to do about a machine to talk to, given what the registry holds.
pub fn choose_registered(found: Option<Uuid>) -> (choice: VmChoice)
    ensures
        match found {
            Some(uuid) => choice matches VmChoice::Use(guid) && guid@ == fields(uuid.0 as nat),
            None => choice matches VmChoice::NotFound(reason) && reason@
                == "No VM found in registry"@,
        },
{
    match found {
        Some(uuid) => VmChoice::Use(uuid_to_guid(uuid)),
        None => VmChoice::NotFound("No VM found in registry"),
    }
}

/// What to do about the machine with the Linux subsystem.
pub enum WslChoice {
    /// This is it, if there is one.
    Answer(Option<Uuid>),
    /// The registry says.
    AskRegistry,
    /// Report the failure to list the machines.
    Fail,
}

/// What to do about the machine with the Linux subsystem, given what came of listing machines.
pub fn get_wsl_vmid(listing: &Listing) -> (choice: WslChoice)
    ensures
        choice == match listing {
            Listing::Systems(systems) => WslChoice::Answer(
                match first_address(candidates_of(systems@), true, 0) {
                    Some(number) => Some(Uuid(number)),
                    None => None,
                },
            ),
            Listing::PermissionDenied => WslChoice::AskRegistry,
            Listing::Failed => WslChoice::Fail,
        },
{
    match listing {
        Listing::Systems(systems) => WslChoice::Answer(wsl_vm(systems.as_slice())),
        Listing::PermissionDenied => WslChoice::AskRegistry,
        Listing::Failed => WslChoice::Fail,
    }
}

/// The kind of registry entry that is a virtual machine.
pub const VIRTUAL_MACHINE: u32 = 2;

/// The machine that an entry of the registry is, given its name and its kind, where it has one.
pub fn get_wsl_vmid_by_reg(name: &str, kind: Option<u32>) -> (uuid: Option<Uuid>)
    ensures
        uuid == match (kind, parsed_uuid(name@)) {
            (Some(kind), Some(number)) if kind == VIRTUAL_MACHINE => Some(Uuid(number)),
            _ => None,
        },
{
    registered(kind, parse_uuid(name))
}

/// The machine that an entry of the registry is, given its kind and what its name was read as.
pub fn registered(kind: Option<u32>, named: Option<u128>) -> (uuid: Option<Uuid>)
    ensures
        uuid == match (kind, named) {
            (Some(kind), Some(number)) if kind == VIRTUAL_MACHINE => Some(Uuid(number)),
            _ => None,
        },
{
    match (kind, named) {
        (Some(VIRTUAL_MACHINE), Some(number)) => Some(Uuid(number)),
        _ => None,
    }
}

/// How the host answered a request to list machines.
#[derive(Debug, Clone, Copy, PartialEq, Eq, Structural)]
pub enum HcsStatus {
    Done,
    PermissionDenied,
    Failed,
}

/// The answer of a host that does not let us list its machines.
pub const HCS_ACCESS_DENIED: i32 = -2143878885;

/// How the host answered a request to list machines, by the number it returned.
pub fn hcs_status(result: i32) -> (status: HcsStatus)
    ensures
        status == if result == 0 {
            HcsStatus::Done
        } else if result == HCS_ACCESS_DENIED {
            HcsStatus::PermissionDenied
        } else {
            HcsStatus::Failed
        },
{
    if result == 0 {
        HcsStatus::Done
    } else if result == HCS_ACCESS_DENIED {
        HcsStatus::PermissionDenied
    } else {
        HcsStatus::Failed
    }
}

/// Whether a character is white space: has the Unicode property `White_Space`.
pub open spec fn is_space(character: char) -> bool {
    ||| '\u{9}' <= character <= '\u{d}'
    ||| character == ' '
    ||| character == '\u{85}'
    ||| character == '\u{a0}'
    ||| character == '\u{1680}'
    ||| '\u{2000}' <= character <= '\u{200a}'
    ||| character == '\u{2028}'
    ||| character == '\u{2029}'
    ||| character == '\u{202f}'
    ||| character == '\u{205f}'
    ||| character == '\u{3000}'
}

fn is_whitespace(character: char) -> (space: bool)
    ensures
        space <==> is_space(character),
{
    ('\u{9}' <= character && character <= '\u{d}') || character == ' ' || character == '\u{85}'
        || character == '\u{a0}' || character == '\u{1680}' || ('\u{2000}' <= character && character
        <= '\u{200a}') || character == '\u{2028}' || character == '\u{2029}' || character
        == '\u{202f}' || character == '\u{205f}' || character == '\u{3000}'
}

/// Whether a listing is blank. A host without machines may answer with nothing at all.
pub fn is_blank(listing: &str) -> (blank: bool)
    ensures
        blank <==> forall|i: int| 0 <= i < listing@.len() ==> is_space(#[trigger] listing@[i]),
{
    for character in iter: listing.chars()
        invariant
            iter.seq() == listing@,
            forall|i: int| 0 <= i < iter.index() ==> is_space(#[trigger] listing@[i]),
    {
        if !is_whitespace(character) {
            assert(!is_space(listing@[iter.index() as int]));
            return false;
        }
    }
    true
}

/// Where the runtime identifier reads as a number, that number is the address, whatever the
/// identifier reads as; the identifier is the address only where the runtime identifier reads as
/// none.
pub proof fn law_runtime_identifier_comes_first(runtime_id: u128, id: Option<u128>)
    ensures
        preferred(Some(runtime_id), id) == Some(runtime_id),
        preferred(None, id) == id,
{
}

/// A listed machine stands in the choice for what it is: it is addressed by its runtime identifier
/// where that reads as a number and by its identifier otherwise, and it runs the Linux subsystem
/// exactly where its owner is `WSL`.
pub proof fn law_machine_stands_for_itself(systems: Seq<ComputeSystem>, place: int)
    requires
        0 <= place < systems.len(),
    ensures
        candidates_of(systems).len() == systems.len(),
        ({
            let system = systems[place];
            let candidate = candidates_of(systems)[place];
            &&& parsed_uuid(system.runtime_id@) is Some ==> candidate.address == parsed_uuid(
                system.runtime_id@,
            )
            &&& parsed_uuid(system.runtime_id@) is None ==> candidate.address == parsed_uuid(
                system.id@,
            )
            &&& candidate.wsl <==> system.owner@ == "WSL"@
            &&& candidate.address == system.address()
        }),
{
}

/// Where one machine is listed, its runtime identifier is the address of the best machine whatever
/// else is known of it; where that reads as no number, its identifier is.
pub proof fn law_only_machine_is_addressed_by_its_runtime_identifier(system: ComputeSystem)
    ensures
        ({
            let best = best_address(candidates_of(seq![system]));
            &&& parsed_uuid(system.runtime_id@) is Some ==> best == parsed_uuid(system.runtime_id@)
            &&& parsed_uuid(system.runtime_id@) is None ==> best == parsed_uuid(system.id@)
        }),
{
    reveal_with_fuel(first_address, 3);
}

/// The first machine with the Linux subsystem that has an address is found, and none where there is
/// no such machine; so it is of all machines.
pub proof fn law_first_address_is_found(candidates: Seq<Candidate>, only_wsl: bool, place: int)
    ensures
        is_first(candidates, only_wsl, place) ==> first_address(candidates, only_wsl, 0)
            == candidates[place].address,
        first_address(candidates, only_wsl, 0) is None <==> forall|i: int|
            0 <= i < candidates.len() ==> (#[trigger] candidates[i]).address is None || (only_wsl
                && !candidates[i].wsl),
{
    if is_first(candidates, only_wsl, place) {
        lemma_first_address(candidates, only_wsl, 0, place);
    }
    lemma_first_address_where(candidates, only_wsl, 0);
    if forall|i: int|
        0 <= i < candidates.len() ==> (#[trigger] candidates[i]).address is None || (only_wsl
            && !candidates[i].wsl) {
        lemma_no_address(candidates, only_wsl, 0);
    }
}

proof fn lemma_first_address_where(candidates: Seq<Candidate>, only_wsl: bool, from: int)
    requires
        0 <= from <= candidates.len(),
    ensures
        first_address(candidates, only_wsl, from) is None ==> forall|i: int|
            from <= i < candidates.len() ==> (#[trigger] candidates[i]).address is None || (only_wsl
                && !candidates[i].wsl),
    decreases candidates.len() - from,
{
    if from < candidates.len() {
        lemma_first_address_where(candidates, only_wsl, from + 1);
    }
}

/// What a first machine is: it would do, and no machine before it would.
pub proof fn law_first_is_the_first_that_will_do(
    candidates: Seq<Candidate>,
    only_wsl: bool,
    place: int,
)
    ensures
        is_first(candidates, only_wsl, place) <==> 0 <= place < candidates.len()
            && candidates[place].address is Some && (only_wsl ==> candidates[place].wsl) && forall|
            i: int,
        |
            0 <= i < place && (#[trigger] candidates[i]).address is Some ==> only_wsl
                && !candidates[i].wsl,
{
}

/// The numbers by which the host and its registry tell things apart.
pub proof fn law_host_numbers()
    ensures
        VIRTUAL_MACHINE == 2,
        HCS_ACCESS_DENIED == 0x8037_011b - 0x1_0000_0000,
{
}

} // verus!
