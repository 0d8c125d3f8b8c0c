//! The gateway sequencer's command handling, pending bookkeeping, and bind
//! sequence.
use btmesh_operator::gateway::{
    bind_sequence, reset_event, CommandDirective, MeshOp, Sequencer, BATTERY_PUBLISH_PERIOD_SECS,
    FINAL_SETTLE_SECS, GENERIC_BATTERY_SERVER_MODEL, GENERIC_ONOFF_SERVER_MODEL,
    PUBLISH_LABEL_UUID, PUBLISH_RETRANSMIT_COUNT, SENSOR_PUBLISH_PERIOD_SECS,
    SENSOR_SETUP_SERVER_MODEL, STEP_SETTLE_SECS,
};
use btmesh_operator::wire::{BtMeshDeviceState, BtMeshEvent};

const UUID_STR: &str = "550e8400-e29b-41d4-a716-446655440000";
const UUID_VAL: u128 = 0x550e8400e29b41d4a716446655440000;
const UUID_HEX: &str = "550e8400e29b41d4a716446655440000";

fn provision_payload(device: &str) -> String {
    format!(r#"{{"command":"provision","device":"{}"}}"#, device)
}

#[test]
fn at_most_one_pending() {
    let mut seq = Sequencer::new();
    let payload = provision_payload(UUID_STR);
    // The first command starts exactly one add-node call...
    assert_eq!(seq.decide_command(&payload), CommandDirective::StartAddNode { uuid: UUID_VAL });
    // ...the second, arriving before any outcome, is dropped.
    assert_eq!(seq.decide_command(&payload), CommandDirective::Ignore);
}

#[test]
fn malformed_uuid_is_dropped() {
    let mut seq = Sequencer::new();
    assert_eq!(seq.decide_command(&provision_payload("abc-1")), CommandDirective::Ignore);
    assert_eq!(seq.decide_command("not a command"), CommandDirective::Ignore);
}

#[test]
fn outcome_clears_pending() {
    let mut seq = Sequencer::new();
    let payload = provision_payload(UUID_STR);
    assert_eq!(seq.decide_command(&payload), CommandDirective::StartAddNode { uuid: UUID_VAL });

    let (topic, event) = seq.handle_add_node_complete(UUID_VAL, 0x0010);
    assert_eq!(topic, format!("btmesh/{}", UUID_HEX));
    assert_eq!(event, BtMeshEvent { status: BtMeshDeviceState::Provisioned { address: 0x0010 } });

    // With the outcome observed, a new command may start another attempt.
    assert_eq!(seq.decide_command(&payload), CommandDirective::StartAddNode { uuid: UUID_VAL });
}

#[test]
fn failed_outcome_publishes_error_and_clears_pending() {
    let mut seq = Sequencer::new();
    let payload = provision_payload(UUID_STR);
    assert_eq!(seq.decide_command(&payload), CommandDirective::StartAddNode { uuid: UUID_VAL });

    let (topic, event) = seq.handle_add_node_failed(UUID_VAL, "busy".to_string());
    assert_eq!(topic, format!("btmesh/{}", UUID_HEX));
    assert_eq!(
        event,
        BtMeshEvent { status: BtMeshDeviceState::Provisioning { error: Some("busy".to_string()) } }
    );
    assert_eq!(seq.decide_command(&payload), CommandDirective::StartAddNode { uuid: UUID_VAL });
}

#[test]
fn reset_command_and_event() {
    let mut seq = Sequencer::new();
    assert_eq!(
        seq.decide_command(r#"{"command":"reset","address":16}"#),
        CommandDirective::DoReset { address: 16 }
    );
    let (topic, event) = reset_event(None);
    assert_eq!(topic, "btmesh");
    assert_eq!(event, BtMeshEvent { status: BtMeshDeviceState::Reset { error: None } });
    let (_, event) = reset_event(Some("unreachable".to_string()));
    assert_eq!(
        event,
        BtMeshEvent { status: BtMeshDeviceState::Reset { error: Some("unreachable".to_string()) } }
    );
}

#[test]
fn bind_sequence_fixed_order() {
    let steps = bind_sequence(0x0010);
    let ops: Vec<MeshOp> = steps.iter().map(|s| s.op).collect();
    assert_eq!(
        ops,
        vec![
            MeshOp::AddAppKey { address: 0x0010, net_key_index: 0, app_key_index: 0 },
            MeshOp::Bind { address: 0x0010, model: SENSOR_SETUP_SERVER_MODEL },
            MeshOp::Bind { address: 0x0010, model: GENERIC_ONOFF_SERVER_MODEL },
            MeshOp::Bind { address: 0x0010, model: GENERIC_BATTERY_SERVER_MODEL },
            MeshOp::PubSet {
                address: 0x0010,
                model: SENSOR_SETUP_SERVER_MODEL,
                period_secs: SENSOR_PUBLISH_PERIOD_SECS,
                retransmit: PUBLISH_RETRANSMIT_COUNT,
                dest_label: PUBLISH_LABEL_UUID,
            },
            MeshOp::PubSet {
                address: 0x0010,
                model: GENERIC_BATTERY_SERVER_MODEL,
                period_secs: BATTERY_PUBLISH_PERIOD_SECS,
                retransmit: PUBLISH_RETRANSMIT_COUNT,
                dest_label: PUBLISH_LABEL_UUID,
            },
        ]
    );
    // A settling delay follows every step.
    for step in steps.iter().take(5) {
        assert_eq!(step.settle_secs, STEP_SETTLE_SECS);
    }
    assert_eq!(steps[5].settle_secs, FINAL_SETTLE_SECS);
}

#[test]
fn simple_uuid_format_in_topic() {
    let mut seq = Sequencer::new();
    // The topic uses the 32-digit lowercase hex form, not the hyphenated one.
    let (topic, _) = seq.handle_add_node_complete(0x00000000000000000000000000000001, 2);
    assert_eq!(topic, "btmesh/00000000000000000000000000000001");
}
