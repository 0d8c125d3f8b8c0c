//! The two components run against each other through serialized messages,
//! the way the transport would carry them.
use btmesh_operator::gateway::{bind_sequence, reset_event, CommandDirective, MeshOp, Sequencer};
use btmesh_operator::model::{BtMeshSpec, BtMeshStatus, ConditionSet, DeviceRecord};
use btmesh_operator::reconciler::{handle_btmesh_event, sweep_device, FINALIZER};
use btmesh_operator::wire::{serialize_command, serialize_event, BtMeshOperation};

const UUID_STR: &str = "550e8400-e29b-41d4-a716-446655440000";
const UUID_VAL: u128 = 0x550e8400e29b41d4a716446655440000;

fn fresh_record(uuid: &str) -> DeviceRecord {
    DeviceRecord {
        name: "dev-a".to_string(),
        marked_for_deletion: false,
        finalizers: Vec::new(),
        mesh_spec: Some(BtMeshSpec { device: uuid.to_string() }),
        aliases: Vec::new(),
        status: None,
    }
}

#[test]
fn provisioning_succeeds_end_to_end() {
    // A device with no status: the sweep emits a provision command.
    let mut record = fresh_record(UUID_STR);
    let cmd = sweep_device(&mut record).expect("sweep must emit a provision command");
    assert_eq!(
        cmd.command,
        BtMeshOperation::Provision { device: UUID_STR.to_string() }
    );

    // The gateway receives the serialized command and starts an add-node call.
    let mut seq = Sequencer::new();
    let directive = seq.decide_command(&serialize_command(&cmd));
    assert_eq!(directive, CommandDirective::StartAddNode { uuid: UUID_VAL });

    // The node joins at 0x0010; the bind sequence runs in its fixed order.
    let steps = bind_sequence(0x0010);
    assert_eq!(steps.len(), 6);
    assert!(matches!(steps[0].op, MeshOp::AddAppKey { .. }));
    assert!(matches!(steps[1].op, MeshOp::Bind { .. }));
    assert!(matches!(steps[4].op, MeshOp::PubSet { .. }));

    // On success the gateway publishes a provisioned event.
    let (topic, event) = seq.handle_add_node_complete(UUID_VAL, 0x0010);
    assert_eq!(topic, "btmesh/550e8400e29b41d4a716446655440000");

    // The reconciler folds the event into the registry record.
    assert!(handle_btmesh_event(&mut record, &serialize_event(&event)));
    let status = record.status.as_ref().unwrap();
    assert!(status.conditions.get("Provisioned").unwrap().status);
    assert!(!status.conditions.get("Provisioning").unwrap().status);
    assert_eq!(record.aliases, vec!["0x0010".to_string()]);
    assert_eq!(status.address, Some(0x0010));

    // The next sweep leaves the provisioned device alone.
    assert_eq!(sweep_device(&mut record), None);
}

#[test]
fn synchronous_add_node_failure() {
    let mut record = fresh_record(UUID_STR);
    let cmd = sweep_device(&mut record).unwrap();

    let mut seq = Sequencer::new();
    let directive = seq.decide_command(&serialize_command(&cmd));
    assert_eq!(directive, CommandDirective::StartAddNode { uuid: UUID_VAL });

    // The add-node call itself fails synchronously with reason "busy": the
    // error event goes out immediately and no pending entry is left behind.
    let (_, event) = seq.handle_add_node_failed(UUID_VAL, "busy".to_string());
    assert_eq!(
        seq.decide_command(&serialize_command(&cmd)),
        CommandDirective::StartAddNode { uuid: UUID_VAL },
        "no pending entry may be left after a synchronous failure"
    );

    assert!(handle_btmesh_event(&mut record, &serialize_event(&event)));
    let status = record.status.as_ref().unwrap();
    let provisioned = status.conditions.get("Provisioned").unwrap();
    assert!(!provisioned.status);
    assert_eq!(provisioned.message, Some("busy".to_string()));
}

#[test]
fn deletion_resets_and_clears_finalizer() {
    // A device marked for deletion, with a recorded address.
    let mut record = fresh_record(UUID_STR);
    record.marked_for_deletion = true;
    record.finalizers = vec![FINALIZER.to_string()];
    record.status = Some(BtMeshStatus {
        address: Some(0x0010),
        conditions: ConditionSet::new(),
        state: btmesh_operator::wire::BtMeshDeviceState::Provisioned { address: 0x0010 },
    });

    // Every sweep emits the reset command.
    let cmd = sweep_device(&mut record).unwrap();
    assert_eq!(cmd.command, BtMeshOperation::Reset { address: 0x0010 });
    let again = sweep_device(&mut record).unwrap();
    assert_eq!(again.command, BtMeshOperation::Reset { address: 0x0010 });

    // The gateway resets the node and reports the outcome.
    let mut seq = Sequencer::new();
    assert_eq!(
        seq.decide_command(&serialize_command(&cmd)),
        CommandDirective::DoReset { address: 0x0010 }
    );
    let (topic, event) = reset_event(None);
    assert_eq!(topic, "btmesh");

    // The reconciler clears the finalizer, releasing the record for deletion.
    assert!(handle_btmesh_event(&mut record, &serialize_event(&event)));
    assert!(record.finalizers.is_empty());
}
