//! The cloud-side reconciler: a level-triggered control loop that re-derives
//! the desired command for every device on each sweep, and an event handler
//! that folds gateway status events back into the registry record.
//!
//! Both are pure decisions over a [`DeviceRecord`]: the surrounding process
//! lists and persists records and publishes commands on the transport.
use crate::model::{
    cond_lookup, cond_update, ensure_member, lemma_cond_update_identity, lemma_cond_update_lookup,
    lemma_cond_update_other, lemma_ensure_member, lemma_remove_fin, remove_fin, BtMeshStatus,
    BtMeshStatusView, ConditionSet, ConditionValue, ConditionValueView, DeviceRecord,
    DeviceRecordView,
};
use crate::model::contains_str;
use crate::parse::parse_event;
use crate::wire::{
    ser_event, BtMeshCommand, BtMeshCommandView, BtMeshDeviceState, BtMeshDeviceStateView,
    BtMeshEventView, BtMeshOperation, BtMeshOperationView,
};
use crate::{address_alias, hex4};
use vstd::prelude::*;

verus! {

broadcast use vstd::string::group_string_axioms;

/// The finalizer this controller owns on device records: while present, the
/// registry must not physically delete the record.
pub const FINALIZER: &'static str = "btmesh-operator";

/// The status a record gets when it has none yet.
pub open spec fn default_status() -> BtMeshStatusView {
    BtMeshStatusView {
        address: None,
        conditions: Seq::empty(),
        state: BtMeshDeviceStateView::Provisioning { error: None },
    }
}

/// A record's status, defaulted if missing.
pub open spec fn effective_status(r: DeviceRecordView) -> BtMeshStatusView {
    match r.status {
        Some(st) => st,
        None => default_status(),
    }
}

/// What a sweep persists for one record: the defaulted status, and — while
/// the record is not being deleted — this controller's finalizer.
pub open spec fn sweep_update(r: DeviceRecordView) -> DeviceRecordView {
    if r.mesh_spec is None {
        r
    } else if !r.marked_for_deletion {
        DeviceRecordView {
            finalizers: ensure_member(r.finalizers, FINALIZER@),
            status: Some(effective_status(r)),
            ..r
        }
    } else {
        DeviceRecordView { status: Some(effective_status(r)), ..r }
    }
}

/// The command a sweep emits for one record: `Provision` while the device is
/// still provisioning, `Reset` for a deleted device whose address is known,
/// nothing otherwise.
pub open spec fn sweep_decision(r: DeviceRecordView) -> Option<BtMeshCommandView> {
    match r.mesh_spec {
        None => None,
        Some(spec) => {
            if !r.marked_for_deletion {
                if effective_status(r).state is Provisioning {
                    Some(
                        BtMeshCommandView {
                            command: BtMeshOperationView::Provision { device: spec.device },
                        },
                    )
                } else {
                    None
                }
            } else {
                match effective_status(r).address {
                    Some(a) => Some(
                        BtMeshCommandView { command: BtMeshOperationView::Reset { address: a } },
                    ),
                    None => None,
                }
            }
        },
    }
}

/// One device's share of a sweep: updates the record (the caller persists it
/// whenever the device has a mesh spec) and returns the command to publish on
/// the device's command topic, if any.
pub fn sweep_device(r: &mut DeviceRecord) -> (cmd: Option<BtMeshCommand>)
    ensures
        final (r)@ == sweep_update(old(r)@),
        match cmd {
            Some(c) => sweep_decision(old(r)@) == Some(c@),
            None => sweep_decision(old(r)@) is None,
        },
{
    let device_uuid = match &r.mesh_spec {
        Some(sp) => sp.device.clone(),
        None => {
            return None;
        },
    };
    if r.status.is_none() {
        r.status = Some(
            BtMeshStatus {
                address: None,
                conditions: ConditionSet::new(),
                state: BtMeshDeviceState::Provisioning { error: None },
            },
        );
    }
    proof {
        assert(r@.status =~= Some(effective_status(old(r)@)));
    }
    if !r.marked_for_deletion {
        r.ensure_finalizer(FINALIZER);
        proof {
            assert(r@ =~= sweep_update(old(r)@));
        }
        let provisioning = match &r.status {
            Some(st) => match &st.state {
                BtMeshDeviceState::Provisioning { .. } => true,
                _ => false,
            },
            None => false,
        };
        if provisioning {
            Some(BtMeshCommand { command: BtMeshOperation::Provision { device: device_uuid } })
        } else {
            None
        }
    } else {
        proof {
            assert(r@ =~= sweep_update(old(r)@));
        }
        let addr = match &r.status {
            Some(st) => st.address,
            None => None,
        };
        match addr {
            Some(a) => Some(BtMeshCommand { command: BtMeshOperation::Reset { address: a } }),
            None => None,
        }
    }
}

/// A whole sweep over the listed records: each record is updated in place
/// and paired with the command to publish for it, if any.
pub fn sweep_all(devices: &mut Vec<DeviceRecord>) -> (cmds: Vec<Option<BtMeshCommand>>)
    ensures
        final (devices)@.len() == old(devices)@.len(),
        cmds@.len() == old(devices)@.len(),
        forall|i: int|
            0 <= i < old(devices)@.len() ==> #[trigger] final (devices)@[i]@ == sweep_update(
                old(devices)@[i]@,
            ),
        forall|i: int|
            0 <= i < old(devices)@.len() ==> match #[trigger] cmds@[i] {
                Some(c) => sweep_decision(old(devices)@[i]@) == Some(c@),
                None => sweep_decision(old(devices)@[i]@) is None,
            },
{
    let mut out: Vec<DeviceRecord> = Vec::new();
    let mut cmds: Vec<Option<BtMeshCommand>> = Vec::new();
    while devices.len() > 0
        invariant
            out@.len() == cmds@.len(),
            out@.len() + devices@.len() == old(devices)@.len(),
            forall|i: int|
                0 <= i < devices@.len() ==> #[trigger] devices@[i] == old(devices)@[out@.len()
                    + i],
            forall|i: int|
                0 <= i < out@.len() ==> #[trigger] out@[i]@ == sweep_update(old(devices)@[i]@),
            forall|i: int|
                0 <= i < out@.len() ==> match #[trigger] cmds@[i] {
                    Some(c) => sweep_decision(old(devices)@[i]@) == Some(c@),
                    None => sweep_decision(old(devices)@[i]@) is None,
                },
        decreases devices@.len(),
    {
        let mut d = devices.remove(0);
        let c = sweep_device(&mut d);
        out.push(d);
        cmds.push(c);
    }
    *devices = out;
    cmds
}

/// The per-device command topic, `command/{application}/{device}/btmesh`.
pub fn command_topic(application: &str, name: &str) -> (r: String)
    ensures
        r@ == "command/"@ + application@ + "/"@ + name@ + "/btmesh"@,
{
    let mut s = String::from_str("command/");
    s.append(application);
    s.append("/");
    s.append(name);
    s.append("/btmesh");
    s
}

/// What an inbound transport event asks of the reconciler, by its subject.
#[derive(PartialEq, Eq, Structural, Clone, Copy, Debug)]
pub enum InboundDirective {
    /// Registry membership changed: run a full sweep now.
    FullSweep,
    /// One device's provisioning status changed: apply its event payload.
    ApplyBtMesh,
    /// An unrecognized subject: skip the event.
    Ignore,
}

pub open spec fn classify_inbound_v(subject: Seq<char>) -> InboundDirective {
    if subject == "devices"@ {
        InboundDirective::FullSweep
    } else if subject == "btmesh"@ {
        InboundDirective::ApplyBtMesh
    } else {
        InboundDirective::Ignore
    }
}

/// The two recognized inbound subjects; anything else is ignored.
pub fn classify_inbound(subject: &str) -> (d: InboundDirective)
    ensures
        d == classify_inbound_v(subject@),
{
    let s: String = subject.to_owned();
    if s == String::from_str("devices") {
        InboundDirective::FullSweep
    } else if s == String::from_str("btmesh") {
        InboundDirective::ApplyBtMesh
    } else {
        InboundDirective::Ignore
    }
}

/// How a status event folds into a record: a `Reset` clears the finalizer; a
/// `Provisioned` sets the conditions, records the address and adds the alias;
/// a `Provisioning` raises the condition, with the error recorded when there
/// is one. The event's state is persisted as the record's new state.
pub open spec fn apply_event_v(r: DeviceRecordView, st: BtMeshDeviceStateView) -> DeviceRecordView {
    let cur = match r.status {
        Some(s) => s,
        None => BtMeshStatusView { address: None, conditions: Seq::empty(), state: st },
    };
    match st {
        BtMeshDeviceStateView::Reset { error } => DeviceRecordView {
            finalizers: remove_fin(r.finalizers, FINALIZER@),
            status: Some(BtMeshStatusView { state: st, ..cur }),
            ..r
        },
        BtMeshDeviceStateView::Provisioned { address } => {
            let c1 = cond_update(
                cur.conditions,
                "Provisioned"@,
                ConditionValueView { status: true, reason: None, message: None },
            );
            let c2 = cond_update(
                c1,
                "Provisioning"@,
                ConditionValueView { status: false, reason: None, message: None },
            );
            DeviceRecordView {
                aliases: ensure_member(r.aliases, hex4(address)),
                status: Some(
                    BtMeshStatusView { address: Some(address), conditions: c2, state: st },
                ),
                ..r
            }
        },
        BtMeshDeviceStateView::Provisioning { error } => {
            let c1 = cond_update(
                cur.conditions,
                "Provisioning"@,
                ConditionValueView { status: true, reason: None, message: None },
            );
            let c2 = match error {
                Some(e) => cond_update(
                    c1,
                    "Provisioned"@,
                    ConditionValueView {
                        status: false,
                        reason: Some("Error provisioning device"@),
                        message: Some(e),
                    },
                ),
                None => c1,
            };
            DeviceRecordView { status: Some(BtMeshStatusView { conditions: c2, state: st, ..cur }), ..r }
        },
    }
}

/// Applies one status event to a record. The caller persists the record
/// afterwards.
pub fn apply_event(r: &mut DeviceRecord, st: &BtMeshDeviceState)
    ensures
        final (r)@ == apply_event_v(old(r)@, st@),
{
    if r.status.is_none() {
        r.status = Some(
            BtMeshStatus { address: None, conditions: ConditionSet::new(), state: st.duplicate() },
        );
    }
    match st {
        BtMeshDeviceState::Reset { .. } => {
            r.remove_finalizer(FINALIZER);
            match &mut r.status {
                Some(stat) => {
                    stat.state = st.duplicate();
                },
                None => {},
            }
            proof {
                assert(r@ =~= apply_event_v(old(r)@, st@));
            }
        },
        BtMeshDeviceState::Provisioned { address } => {
            match &mut r.status {
                Some(stat) => {
                    stat.conditions.update(
                        "Provisioned",
                        ConditionValue { status: true, reason: None, message: None },
                    );
                    stat.conditions.update(
                        "Provisioning",
                        ConditionValue { status: false, reason: None, message: None },
                    );
                    stat.address = Some(*address);
                    stat.state = st.duplicate();
                },
                None => {},
            }
            let alias = address_alias(*address);
            if !contains_str(&r.aliases, &alias) {
                r.aliases.push(alias);
            }
            proof {
                assert(r@.aliases =~= ensure_member(old(r)@.aliases, hex4(st@->Provisioned_address)));
                assert(r@ =~= apply_event_v(old(r)@, st@));
            }
        },
        BtMeshDeviceState::Provisioning { error } => {
            match &mut r.status {
                Some(stat) => {
                    stat.conditions.update(
                        "Provisioning",
                        ConditionValue { status: true, reason: None, message: None },
                    );
                    match error {
                        Some(e) => {
                            stat.conditions.update(
                                "Provisioned",
                                ConditionValue {
                                    status: false,
                                    reason: Some("Error provisioning device".to_owned()),
                                    message: Some(e.clone()),
                                },
                            );
                        },
                        None => {},
                    }
                    stat.state = st.duplicate();
                },
                None => {},
            }
            proof {
                assert(r@ =~= apply_event_v(old(r)@, st@));
            }
        },
    }
}

/// Handles the payload of an inbound `btmesh` event for one device: a
/// well-formed payload is applied and the record persisted by the caller; a
/// malformed one is skipped and must not abort the processing loop.
pub fn handle_btmesh_event(r: &mut DeviceRecord, payload: &str) -> (ok: bool)
    ensures
        forall|ev: BtMeshEventView|
            payload@ == ser_event(ev) ==> (ok && final (r)@ == apply_event_v(old(r)@, ev.status)),
        (forall|ev: BtMeshEventView| payload@ != ser_event(ev)) ==> (!ok && *final (r) == *old(r)),
{
    match parse_event(payload) {
        Some(e) => {
            apply_event(r, &e.status);
            true
        },
        None => false,
    }
}

// ---------------------------------------------------------------------------
// The laws the reconciler keeps.
// ---------------------------------------------------------------------------
/// Status events are idempotent: applying the same `Provisioned` event twice
/// leaves the record exactly as after the first application — in particular
/// the alias appears only once and the conditions are unchanged.
pub proof fn lemma_provisioned_idempotent(r: DeviceRecordView, a: u16)
    ensures
        apply_event_v(
            apply_event_v(r, BtMeshDeviceStateView::Provisioned { address: a }),
            BtMeshDeviceStateView::Provisioned { address: a },
        ) == apply_event_v(r, BtMeshDeviceStateView::Provisioned { address: a }),
        !r.aliases.contains(hex4(a)) ==> apply_event_v(
            r,
            BtMeshDeviceStateView::Provisioned { address: a },
        ).aliases == r.aliases.push(hex4(a)),
{
    let st = BtMeshDeviceStateView::Provisioned { address: a };
    let r1 = apply_event_v(r, st);
    let cur = match r.status {
        Some(s) => s,
        None => BtMeshStatusView { address: None, conditions: Seq::empty(), state: st },
    };
    let vtrue = ConditionValueView { status: true, reason: None, message: None };
    let vfalse = ConditionValueView { status: false, reason: None, message: None };
    let c1 = cond_update(cur.conditions, "Provisioned"@, vtrue);
    let c2 = cond_update(c1, "Provisioning"@, vfalse);
    reveal_strlit("Provisioned");
    reveal_strlit("Provisioning");
    assert("Provisioned"@.len() == 11);
    assert("Provisioning"@.len() == 12);
    lemma_cond_update_lookup(cur.conditions, "Provisioned"@, vtrue);
    lemma_cond_update_other(c1, "Provisioning"@, vfalse, "Provisioned"@);
    assert(cond_lookup(c2, "Provisioned"@) == Some(vtrue));
    lemma_cond_update_identity(c2, "Provisioned"@, vtrue);
    lemma_cond_update_lookup(c1, "Provisioning"@, vfalse);
    lemma_cond_update_identity(c2, "Provisioning"@, vfalse);
    lemma_ensure_member(r.aliases, hex4(a));
    assert(apply_event_v(r1, st) =~= r1);
}

/// Deletion gating: a deleted device triggers a reset exactly when its
/// address is recorded, and the decision repeats on every sweep until a
/// `Reset` event clears the finalizer (the record itself only disappears once
/// the finalizer is gone).
pub proof fn lemma_deletion_gating(r: DeviceRecordView)
    requires
        r.marked_for_deletion,
    ensures
        effective_status(r).address is None ==> sweep_decision(r) is None,
        effective_status(r).address matches Some(a) ==> (r.mesh_spec is Some ==> sweep_decision(r)
            == Some(BtMeshCommandView { command: BtMeshOperationView::Reset { address: a } })),
        sweep_decision(sweep_update(r)) == sweep_decision(r),
        forall|e: Option<Seq<char>>|
            !apply_event_v(r, BtMeshDeviceStateView::Reset { error: e }).finalizers.contains(
                FINALIZER@,
            ),
{
    lemma_sweep_stable(r);
    assert forall|e: Option<Seq<char>>|
        !apply_event_v(r, BtMeshDeviceStateView::Reset { error: e }).finalizers.contains(
            FINALIZER@,
        ) by {
        lemma_remove_fin(r.finalizers, FINALIZER@);
    }
}

/// The sweep is level-triggered: sweeping a record it has already updated
/// changes nothing and decides the same command again.
pub proof fn lemma_sweep_stable(r: DeviceRecordView)
    ensures
        sweep_update(sweep_update(r)) == sweep_update(r),
        sweep_decision(sweep_update(r)) == sweep_decision(r),
{
    if r.mesh_spec is Some {
        lemma_ensure_member(r.finalizers, FINALIZER@);
        assert(sweep_update(sweep_update(r)) =~= sweep_update(r));
    }
}

/// Sweep convergence: once a `Provisioned` event has been applied, the next
/// sweep does not send another `Provision` command for the device.
pub proof fn lemma_sweep_convergence(r: DeviceRecordView, a: u16)
    ensures
        match sweep_decision(apply_event_v(r, BtMeshDeviceStateView::Provisioned { address: a })) {
            Some(c) => c.command is Reset,
            None => true,
        },
{
}

} // verus!
