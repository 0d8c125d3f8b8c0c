//! Round trips and exact encodings for every wire message variant.
use btmesh_operator::parse::{parse_command, parse_event};
use btmesh_operator::wire::{
    serialize_command, serialize_event, BtMeshCommand, BtMeshDeviceState, BtMeshEvent,
    BtMeshOperation,
};

#[test]
fn provision_command_round_trip() {
    let cmd = BtMeshCommand {
        command: BtMeshOperation::Provision { device: "550e8400-e29b-41d4-a716-446655440000".to_string() },
    };
    let s = serialize_command(&cmd);
    assert_eq!(s, r#"{"command":"provision","device":"550e8400-e29b-41d4-a716-446655440000"}"#);
    assert_eq!(parse_command(&s), Some(cmd));
}

#[test]
fn provision_command_round_trip_with_escapes() {
    let cmd = BtMeshCommand {
        command: BtMeshOperation::Provision { device: "we\"ird\\name".to_string() },
    };
    let s = serialize_command(&cmd);
    assert_eq!(s, r#"{"command":"provision","device":"we\"ird\\name"}"#);
    assert_eq!(parse_command(&s), Some(cmd));
}

#[test]
fn reset_command_round_trip() {
    let cmd = BtMeshCommand { command: BtMeshOperation::Reset { address: 16 } };
    let s = serialize_command(&cmd);
    assert_eq!(s, r#"{"command":"reset","address":16}"#);
    assert_eq!(parse_command(&s), Some(cmd));

    for address in [0u16, 1, 9, 10, 255, 65535] {
        let cmd = BtMeshCommand { command: BtMeshOperation::Reset { address } };
        assert_eq!(parse_command(&serialize_command(&cmd)), Some(cmd));
    }
}

#[test]
fn provisioning_event_round_trip() {
    let ev = BtMeshEvent { status: BtMeshDeviceState::Provisioning { error: None } };
    let s = serialize_event(&ev);
    assert_eq!(s, r#"{"status":{"type":"provisioning","error":null}}"#);
    assert_eq!(parse_event(&s), Some(ev));

    let ev = BtMeshEvent { status: BtMeshDeviceState::Provisioning { error: Some("busy".to_string()) } };
    let s = serialize_event(&ev);
    assert_eq!(s, r#"{"status":{"type":"provisioning","error":"busy"}}"#);
    assert_eq!(parse_event(&s), Some(ev));
}

#[test]
fn provisioned_event_round_trip() {
    let ev = BtMeshEvent { status: BtMeshDeviceState::Provisioned { address: 0x0010 } };
    let s = serialize_event(&ev);
    assert_eq!(s, r#"{"status":{"type":"provisioned","address":16}}"#);
    assert_eq!(parse_event(&s), Some(ev));
}

#[test]
fn reset_event_round_trip() {
    let ev = BtMeshEvent { status: BtMeshDeviceState::Reset { error: None } };
    let s = serialize_event(&ev);
    assert_eq!(s, r#"{"status":{"type":"reset","error":null}}"#);
    assert_eq!(parse_event(&s), Some(ev));

    let ev = BtMeshEvent { status: BtMeshDeviceState::Reset { error: Some("timed out".to_string()) } };
    let s = serialize_event(&ev);
    assert_eq!(s, r#"{"status":{"type":"reset","error":"timed out"}}"#);
    assert_eq!(parse_event(&s), Some(ev));
}

#[test]
fn malformed_payloads_are_rejected() {
    assert_eq!(parse_command(""), None);
    assert_eq!(parse_command("not json"), None);
    assert_eq!(parse_command(r#"{"command":"provision","device":"x"} "#), None);
    assert_eq!(parse_command(r#"{"command":"provision","device":"unterminated"#), None);
    assert_eq!(parse_command(r#"{"command":"reset","address":}"#), None);
    assert_eq!(parse_command(r#"{"command":"reset","address":016}"#), None);
    assert_eq!(parse_command(r#"{"command":"reset","address":65536}"#), None);
    assert_eq!(parse_command(r#"{"command":"reboot","address":1}"#), None);
    assert_eq!(parse_event(r#"{"status":{"type":"provisioned","address":1}} "#), None);
    assert_eq!(parse_event(r#"{"status":{"type":"unknown","error":null}}"#), None);
    assert_eq!(parse_event(r#"{"status":{"type":"provisioning","error":nul}}"#), None);
}

#[test]
fn reset_command_edge_addresses() {
    let s = r#"{"command":"reset","address":0}"#;
    assert_eq!(
        parse_command(s),
        Some(BtMeshCommand { command: BtMeshOperation::Reset { address: 0 } })
    );
    let s = r#"{"command":"reset","address":65535}"#;
    assert_eq!(
        parse_command(s),
        Some(BtMeshCommand { command: BtMeshOperation::Reset { address: 65535 } })
    );
}
