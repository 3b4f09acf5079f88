use ogurpchik::bytes::{get_le, put_le};
use ogurpchik::net::npipe::{
    instance_options, pipe_sddl, token_user_size, NamedPipePath, SecurityAction, SecurityStep,
    FILE_CREATE_PIPE_INSTANCE, FILE_GENERIC_READ, FILE_GENERIC_WRITE, PIPE_CLIENT_RIGHTS,
};
use ogurpchik::net::vsock::guid::{
    HV_GUID_CHILDREN, HV_GUID_LOOPBACK, HV_GUID_PARENT, HV_GUID_VSOCK_TEMPLATE,
};
use ogurpchik::net::vsock::target::{local_address, HvAddress, NO_UUID_ON_UNIX};
use ogurpchik::net::vsock::utils::{
    best_vm, choose_registered, get_best_vmid, get_wsl_vmid, get_wsl_vmid_by_reg, hcs_status,
    is_blank, registered, ComputeSystem, HcsStatus, Listing, VmChoice, WslChoice,
};
use ogurpchik::net::vsock::{guid_to_uuid, uuid_to_guid, Guid, ToServiceId, Uuid, VsockTarget};
use ogurpchik::text::{behind, find, same, write_decimal, write_hexadecimal};
use serde_json::Value;

const WSL: &str = "c6de7088-6992-4adf-8038-5984755d5412";
const COWORK_RUNTIME: &str = "ed4d837e-aa16-57c4-9c8a-d1027b76533a";

fn listing(entries: &[(&str, &str, &str)]) -> String {
    let entries: Vec<String> = entries
        .iter()
        .map(|(id, owner, runtime_id)| {
            format!(
                r#"{{"Id":"{id}","SystemType":"VirtualMachine","Name":"{id}","Owner":"{owner}","RuntimeId":"{runtime_id}","State":"Running"}}"#
            )
        })
        .collect();
    format!("[{}]", entries.join(","))
}

fn parse_compute_systems(json: &str) -> Vec<ComputeSystem> {
    if is_blank(json) {
        return Vec::new();
    }
    let field = |entry: &Value, name: &str| {
        entry
            .get(name)
            .map(|value| value.as_str().unwrap().to_string())
            .unwrap_or_default()
    };
    let entries: Vec<Value> = serde_json::from_str(json).unwrap();
    entries
        .iter()
        .map(|entry| ComputeSystem {
            id: field(entry, "Id"),
            owner: field(entry, "Owner"),
            runtime_id: field(entry, "RuntimeId"),
        })
        .collect()
}

fn best(json: &str) -> Option<Uuid> {
    best_vm(&parse_compute_systems(json))
}

fn uuid(text: &str) -> Uuid {
    Uuid(text.parse::<uuid::Uuid>().unwrap().as_u128())
}

fn fields(guid: Guid) -> (u32, u16, u16, [u8; 8]) {
    (guid.data1, guid.data2, guid.data3, guid.data4)
}

#[test]
fn a_compute_system_with_a_non_uuid_id_does_not_hide_wsl() {
    let json = listing(&[
        ("cowork-vm-45f50555", "cowork-vm-45f50555", COWORK_RUNTIME),
        (WSL, "WSL", WSL),
    ]);
    assert_eq!(best(&json), Some(uuid(WSL)));
}

#[test]
fn wsl_wins_wherever_it_is_listed() {
    let json = listing(&[
        (WSL, "WSL", WSL),
        ("cowork-vm-45f50555", "cowork-vm-45f50555", COWORK_RUNTIME),
    ]);
    assert_eq!(best(&json), Some(uuid(WSL)));
}

#[test]
fn without_wsl_the_runtime_id_addresses_the_vm() {
    let json = listing(&[("cowork-vm-45f50555", "cowork-vm-45f50555", COWORK_RUNTIME)]);
    assert_eq!(best(&json), Some(uuid(COWORK_RUNTIME)));
}

#[test]
fn entries_without_any_uuid_are_skipped() {
    let json = listing(&[("not-a-vm", "someone", ""), (WSL, "WSL", WSL)]);
    assert_eq!(best(&json), Some(uuid(WSL)));
    assert_eq!(best(&listing(&[("not-a-vm", "someone", "")])), None);
}

#[test]
fn missing_fields_and_an_empty_listing_are_not_errors() {
    assert_eq!(
        best(r#"[{"Id":"x"},{"Owner":"WSL","RuntimeId":"c6de7088-6992-4adf-8038-5984755d5412"}]"#),
        Some(uuid(WSL))
    );
    assert_eq!(best("[]"), None);
    assert_eq!(best(""), None);
    assert_eq!(best(" \r\n\t\u{a0}"), None);
}

#[test]
fn the_identifier_stands_in_for_a_missing_runtime_identifier() {
    let json = listing(&[(WSL, "someone", "nothing")]);
    assert_eq!(best(&json), Some(uuid(WSL)));
}

#[test]
fn the_registry_is_asked_only_without_permission() {
    let systems = || Listing::Systems(parse_compute_systems(&listing(&[(WSL, "WSL", WSL)])));
    match get_best_vmid(&systems()) {
        VmChoice::Use(guid) => assert_eq!(guid_to_uuid(guid), uuid(WSL)),
        _ => panic!("there is a machine"),
    }
    assert!(matches!(get_best_vmid(&Listing::PermissionDenied), VmChoice::AskRegistry));
    assert!(matches!(get_best_vmid(&Listing::Failed), VmChoice::Fail));
    assert!(matches!(
        get_best_vmid(&Listing::Systems(Vec::new())),
        VmChoice::NotFound("No compute system with a usable VM id found")
    ));
    match choose_registered(Some(uuid(WSL))) {
        VmChoice::Use(guid) => assert_eq!(guid_to_uuid(guid), uuid(WSL)),
        _ => panic!("there is a machine"),
    }
    assert!(matches!(
        choose_registered(None),
        VmChoice::NotFound("No VM found in registry")
    ));
    match get_wsl_vmid(&systems()) {
        WslChoice::Answer(found) => assert_eq!(found, Some(uuid(WSL))),
        _ => panic!("the machines are listed"),
    }
    let others = listing(&[("x", "someone", COWORK_RUNTIME)]);
    assert!(matches!(
        get_wsl_vmid(&Listing::Systems(parse_compute_systems(&others))),
        WslChoice::Answer(None)
    ));
    assert!(matches!(get_wsl_vmid(&Listing::PermissionDenied), WslChoice::AskRegistry));
    assert!(matches!(get_wsl_vmid(&Listing::Failed), WslChoice::Fail));
}

#[test]
fn a_registry_entry_is_a_machine_by_its_kind_and_name() {
    assert_eq!(get_wsl_vmid_by_reg(WSL, Some(2)), Some(uuid(WSL)));
    assert_eq!(get_wsl_vmid_by_reg(WSL, Some(1)), None);
    assert_eq!(get_wsl_vmid_by_reg(WSL, None), None);
    assert_eq!(get_wsl_vmid_by_reg("not-a-vm", Some(2)), None);
    assert_eq!(registered(Some(2), Some(5)), Some(Uuid(5)));
    assert_eq!(registered(Some(2), None), None);
}

#[test]
fn the_host_says_when_listing_is_not_permitted() {
    assert_eq!(hcs_status(0), HcsStatus::Done);
    assert_eq!(hcs_status(0x8037011Bu32 as i32), HcsStatus::PermissionDenied);
    assert_eq!(hcs_status(5), HcsStatus::Failed);
}

#[test]
fn white_space_is_that_of_unicode() {
    for character in '\0'..=char::MAX {
        assert_eq!(
            is_blank(&character.to_string()),
            character.is_whitespace(),
            "{character:?}"
        );
    }
    assert!(!is_blank(" x "));
}

#[test]
fn identifiers_split_as_the_uuid_crate_splits_them() {
    for text in [WSL, COWORK_RUNTIME, "00000000-0000-0000-0000-000000000000"] {
        let original: uuid::Uuid = text.parse().unwrap();
        let (data1, data2, data3, data4) = original.as_fields();
        let guid = uuid_to_guid(uuid(text));
        assert_eq!(fields(guid), (data1, data2, data3, *data4));
        assert_eq!(guid_to_uuid(guid), uuid(text));
    }
    let guid = Guid { data1: 1, data2: 2, data3: 3, data4: [4, 5, 6, 7, 8, 9, 10, 11] };
    assert_eq!(guid_to_uuid(guid), Uuid(0x00000001_0002_0003_0405_060708090a0b));
    assert_eq!(fields(uuid_to_guid(guid_to_uuid(guid))), fields(guid));
}

#[test]
fn a_port_is_a_service_of_the_template() {
    let template = uuid_to_guid(Uuid(HV_GUID_VSOCK_TEMPLATE));
    assert_eq!(
        fields(0x1234u32.to_guid()),
        (0x1234, template.data2, template.data3, template.data4)
    );
    assert_eq!(
        fields(7u32.to_guid()),
        (7, 0xfacb, 0x11e6, [0xbd, 0x58, 0x64, 0x00, 0x6a, 0x79, 0x86, 0xd3])
    );
}

fn machine(address: HvAddress) -> u128 {
    assert_eq!((address.family, address.reserved), (34, 0));
    guid_to_uuid(address.vm_id).0
}

#[test]
fn where_a_target_leads() {
    let connect = |cid| machine(VsockTarget::Cid(cid).connect_address(5));
    assert_eq!(connect(0), HV_GUID_LOOPBACK);
    assert_eq!(connect(1), HV_GUID_LOOPBACK);
    assert_eq!(connect(2), HV_GUID_PARENT);
    assert_eq!(connect(3), HV_GUID_CHILDREN);
    assert_eq!(connect(u32::MAX), HV_GUID_CHILDREN);
    let named = VsockTarget::Guid(uuid(WSL));
    assert_eq!(machine(named.connect_address(5)), uuid(WSL).0);
    assert_eq!(machine(named.bind_address(5)), uuid(WSL).0);
    assert_eq!(machine(VsockTarget::Cid(0).bind_address(5)), HV_GUID_CHILDREN);
    assert_eq!(machine(VsockTarget::Cid(2).bind_address(5)), HV_GUID_CHILDREN);
    assert_eq!(named.connect_address(5).service_id.data1, 5);
    assert_eq!(machine(local_address()), 0);
    assert_eq!(guid_to_uuid(local_address().service_id), Uuid(0));
    assert_eq!(VsockTarget::loopback(), VsockTarget::Cid(libc::VMADDR_CID_LOCAL));
    assert_eq!(VsockTarget::Cid(9).cid(), Ok(9));
    assert_eq!(named.cid(), Err(NO_UUID_ON_UNIX));
}

#[test]
fn pipe_paths() {
    let path = |name: &str| NamedPipePath::new(name.to_string()).as_str().to_string();
    assert_eq!(path("x"), r"\\.\pipe\x");
    assert_eq!(path(r"\x"), r"\\.\pipe\x");
    assert_eq!(path(r"\\\x\y"), r"\\.\pipe\x\y");
    assert_eq!(path(r"\\.\pipe\x"), r"\\.\pipe\x");
    assert_eq!(path(r"\\.\pipe\\x"), r"\\.\pipe\\x");
    assert_eq!(path(r"\\.\PIPE\x"), r"\\.\pipe\.\PIPE\x");
    assert_eq!(path(""), r"\\.\pipe\");
    assert_eq!(path(&path("x")), path("x"));
}

#[test]
fn only_the_first_pipe_instance_is_secured() {
    let first = instance_options(true);
    assert!(first.first_pipe_instance && first.write_dac && first.write_owner);
    assert!(first.apply_security);
    let next = instance_options(false);
    assert!(!next.first_pipe_instance && !next.write_dac && !next.write_owner);
    assert!(!next.apply_security);
    assert_eq!(
        pipe_sddl("S-1-5-18"),
        "D:(A;;FA;;;SY)(A;;FA;;;BA)(A;;FA;;;S-1-5-18)(A;;0x12019b;;;AU)S:(ML;;NW;;;ME)"
    );
}

#[test]
fn clients_read_and_write_a_pipe_and_open_no_instance_of_it() {
    assert_eq!(
        PIPE_CLIENT_RIGHTS,
        (FILE_GENERIC_READ | FILE_GENERIC_WRITE) & !FILE_CREATE_PIPE_INSTANCE
    );
    assert_eq!(PIPE_CLIENT_RIGHTS & FILE_CREATE_PIPE_INSTANCE, 0);
    assert_ne!(FILE_GENERIC_WRITE & FILE_CREATE_PIPE_INSTANCE, 0);
    assert!(pipe_sddl("S").contains(&format!(";;0x{PIPE_CLIENT_RIGHTS:x};;;AU)")));
}

#[test]
fn the_security_of_a_pipe_is_set_step_by_step() {
    let order = [
        (SecurityStep::Parse, "failed to parse the pipe SDDL: "),
        (SecurityStep::ReadDacl, "failed to read the pipe DACL: "),
        (SecurityStep::ReadLabel, "failed to read the pipe label: "),
        (SecurityStep::SetDacl, "failed to set the pipe DACL: "),
        (SecurityStep::SetLabel, "failed to set the pipe integrity label: "),
    ];
    for (place, (step, complaint)) in order.iter().enumerate() {
        match (step.proceed(Ok(())), order.get(place + 1)) {
            (SecurityAction::Take(next), Some((expected, _))) => assert_eq!(next, *expected),
            (SecurityAction::Free(Ok(())), None) => {}
            _ => panic!("out of order at {step:?}"),
        }
        let text = format!("{complaint}denied");
        match step.proceed(Err("denied".to_string())) {
            SecurityAction::Fail(reason) => {
                assert_eq!((*step, reason), (SecurityStep::Parse, text))
            }
            SecurityAction::Free(outcome) => {
                assert_ne!(*step, SecurityStep::Parse);
                assert_eq!(outcome, Err(text));
            }
            SecurityAction::Take(_) => panic!("went on after a failure"),
        }
    }
    assert_eq!(token_user_size(0), Err("token user information reported zero size"));
    assert_eq!(token_user_size(44), Ok(44));
}

#[test]
fn numbers_as_text_and_as_bytes() {
    for value in [0, 9, 10, 4096, 65535, 18446744073709551615] {
        assert_eq!(write_decimal(value), value.to_string());
        assert_eq!(write_hexadecimal(value, 16), format!("{value:016x}"));
    }
    assert_eq!(write_hexadecimal(0xabc, 2), "bc");
    let mut bytes = vec![7];
    put_le(&mut bytes, 0x01020304, 4);
    put_le(&mut bytes, 0x1_0005, 2);
    assert_eq!(bytes, [7, 4, 3, 2, 1, 5, 0]);
    assert_eq!(get_le(&bytes, 1, 4), 0x01020304);
    assert_eq!(get_le(&[0xff; 8], 0, 8), u64::MAX);
}

#[test]
fn texts_are_taken_apart_by_characters() {
    assert!(same("\u{e9}a", "\u{e9}a"));
    assert!(!same("a", "b"));
    assert!(!same("a", "ab"));
    assert_eq!(behind("\u{20ac}uro", "\u{20ac}"), Some("uro"));
    assert_eq!(behind("eu", "euro"), None);
    assert_eq!(find("\u{20ac}]x]", ']'), Some(1));
    assert_eq!(find("none", ']'), None);
}
