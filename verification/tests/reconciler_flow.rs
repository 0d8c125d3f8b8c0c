//! The reconciler's sweep decisions and event handling on concrete records.
use btmesh_operator::model::{BtMeshSpec, BtMeshStatus, ConditionSet, DeviceRecord};
use btmesh_operator::reconciler::{
    apply_event, classify_inbound, command_topic, handle_btmesh_event, sweep_all, sweep_device,
    InboundDirective, FINALIZER,
};
use btmesh_operator::wire::{BtMeshCommand, BtMeshDeviceState, BtMeshOperation};

fn fresh_record(name: &str, uuid: &str) -> DeviceRecord {
    DeviceRecord {
        name: name.to_string(),
        marked_for_deletion: false,
        finalizers: Vec::new(),
        mesh_spec: Some(BtMeshSpec { device: uuid.to_string() }),
        aliases: Vec::new(),
        status: None,
    }
}

#[test]
fn sweep_provisions_new_device_and_sets_finalizer() {
    let mut r = fresh_record("dev-a", "abc-1");
    let cmd = sweep_device(&mut r);
    assert_eq!(
        cmd,
        Some(BtMeshCommand { command: BtMeshOperation::Provision { device: "abc-1".to_string() } })
    );
    assert_eq!(r.finalizers, vec![FINALIZER.to_string()]);
    let status = r.status.as_ref().expect("status defaulted");
    assert_eq!(status.state, BtMeshDeviceState::Provisioning { error: None });
    assert_eq!(status.address, None);
}

#[test]
fn sweep_skips_devices_without_mesh_spec() {
    let mut r = fresh_record("dev-a", "abc-1");
    r.mesh_spec = None;
    let cmd = sweep_device(&mut r);
    assert_eq!(cmd, None);
    assert!(r.finalizers.is_empty());
    assert_eq!(r.status, None);
}

#[test]
fn sweep_does_not_resend_for_provisioned_device() {
    let mut r = fresh_record("dev-a", "abc-1");
    r.status = Some(BtMeshStatus {
        address: Some(16),
        conditions: ConditionSet::new(),
        state: BtMeshDeviceState::Provisioned { address: 16 },
    });
    assert_eq!(sweep_device(&mut r), None);
}

#[test]
fn sweep_resends_while_provisioning_with_error() {
    let mut r = fresh_record("dev-a", "abc-1");
    r.status = Some(BtMeshStatus {
        address: None,
        conditions: ConditionSet::new(),
        state: BtMeshDeviceState::Provisioning { error: Some("busy".to_string()) },
    });
    let cmd = sweep_device(&mut r);
    assert_eq!(
        cmd,
        Some(BtMeshCommand { command: BtMeshOperation::Provision { device: "abc-1".to_string() } })
    );
}

#[test]
fn deletion_gating() {
    // No recorded address: never a reset command.
    let mut r = fresh_record("dev-a", "abc-1");
    r.marked_for_deletion = true;
    assert_eq!(sweep_device(&mut r), None);

    // Recorded address: a reset command, on every sweep.
    let mut r = fresh_record("dev-a", "abc-1");
    r.marked_for_deletion = true;
    r.status = Some(BtMeshStatus {
        address: Some(0x0010),
        conditions: ConditionSet::new(),
        state: BtMeshDeviceState::Provisioned { address: 0x0010 },
    });
    let reset = Some(BtMeshCommand { command: BtMeshOperation::Reset { address: 0x0010 } });
    assert_eq!(sweep_device(&mut r), reset);
    assert_eq!(sweep_device(&mut r), reset);
    // A deleted device gets no finalizer added.
    assert!(r.finalizers.is_empty());

    // A reset event clears the finalizer.
    r.finalizers = vec![FINALIZER.to_string(), "other".to_string()];
    apply_event(&mut r, &BtMeshDeviceState::Reset { error: None });
    assert_eq!(r.finalizers, vec!["other".to_string()]);
}

#[test]
fn provisioned_event_applied_twice_is_idempotent() {
    let build = || {
        let mut r = fresh_record("dev-a", "abc-1");
        r.status = Some(BtMeshStatus {
            address: None,
            conditions: ConditionSet::new(),
            state: BtMeshDeviceState::Provisioning { error: None },
        });
        r
    };
    let ev = BtMeshDeviceState::Provisioned { address: 0x0010 };

    let mut once = build();
    apply_event(&mut once, &ev);

    let mut twice = build();
    apply_event(&mut twice, &ev);
    apply_event(&mut twice, &ev);

    assert_eq!(once, twice);
    assert_eq!(once.aliases, vec!["0x0010".to_string()]);
    let st = once.status.as_ref().unwrap();
    assert_eq!(st.address, Some(0x0010));
    assert_eq!(st.state, BtMeshDeviceState::Provisioned { address: 0x0010 });
    let provisioned = st.conditions.get("Provisioned").unwrap();
    assert!(provisioned.status);
    let provisioning = st.conditions.get("Provisioning").unwrap();
    assert!(!provisioning.status);
}

#[test]
fn alias_uses_lowercase_hex() {
    let mut r = fresh_record("dev-a", "abc-1");
    apply_event(&mut r, &BtMeshDeviceState::Provisioned { address: 0xabcd });
    assert_eq!(r.aliases, vec!["0xabcd".to_string()]);
    let mut r = fresh_record("dev-a", "abc-1");
    apply_event(&mut r, &BtMeshDeviceState::Provisioned { address: 0 });
    assert_eq!(r.aliases, vec!["0x0000".to_string()]);
}

#[test]
fn provisioning_error_event_sets_condition() {
    let mut r = fresh_record("dev-a", "abc-1");
    apply_event(&mut r, &BtMeshDeviceState::Provisioning { error: Some("busy".to_string()) });
    let st = r.status.as_ref().unwrap();
    let provisioning = st.conditions.get("Provisioning").unwrap();
    assert!(provisioning.status);
    let provisioned = st.conditions.get("Provisioned").unwrap();
    assert!(!provisioned.status);
    assert_eq!(provisioned.reason, Some("Error provisioning device".to_string()));
    assert_eq!(provisioned.message, Some("busy".to_string()));
}

#[test]
fn provisioning_event_without_error_leaves_provisioned_untouched() {
    let mut r = fresh_record("dev-a", "abc-1");
    apply_event(&mut r, &BtMeshDeviceState::Provisioning { error: None });
    let st = r.status.as_ref().unwrap();
    assert!(st.conditions.get("Provisioning").unwrap().status);
    assert!(st.conditions.get("Provisioned").is_none());
}

#[test]
fn sweep_convergence_after_provisioned_event() {
    let mut r = fresh_record("dev-a", "abc-1");
    // First sweep: the device is provisioning, so a command goes out.
    assert!(sweep_device(&mut r).is_some());
    // A provisioned event arrives between sweeps.
    apply_event(&mut r, &BtMeshDeviceState::Provisioned { address: 0x0010 });
    // The next sweep must not re-send a provision command.
    assert_eq!(sweep_device(&mut r), None);
}

#[test]
fn malformed_event_payload_is_skipped() {
    let mut r = fresh_record("dev-a", "abc-1");
    let before = fresh_record("dev-a", "abc-1");
    assert!(!handle_btmesh_event(&mut r, "not a payload"));
    assert_eq!(r, before);
    assert!(handle_btmesh_event(&mut r, r#"{"status":{"type":"provisioned","address":16}}"#));
    assert_eq!(r.aliases, vec!["0x0010".to_string()]);
}

#[test]
fn sweep_all_updates_every_record() {
    let mut devices = vec![fresh_record("dev-a", "abc-1"), {
        let mut r = fresh_record("dev-b", "abc-2");
        r.mesh_spec = None;
        r
    }];
    let cmds = sweep_all(&mut devices);
    assert_eq!(cmds.len(), 2);
    assert_eq!(
        cmds[0],
        Some(BtMeshCommand { command: BtMeshOperation::Provision { device: "abc-1".to_string() } })
    );
    assert_eq!(cmds[1], None);
    assert_eq!(devices[0].finalizers, vec![FINALIZER.to_string()]);
    assert!(devices[1].finalizers.is_empty());
}

#[test]
fn inbound_subjects() {
    assert_eq!(classify_inbound("devices"), InboundDirective::FullSweep);
    assert_eq!(classify_inbound("btmesh"), InboundDirective::ApplyBtMesh);
    assert_eq!(classify_inbound("something-else"), InboundDirective::Ignore);
    assert_eq!(classify_inbound(""), InboundDirective::Ignore);
}

#[test]
fn command_topic_layout() {
    assert_eq!(command_topic("example-app", "dev-a"), "command/example-app/dev-a/btmesh");
}
