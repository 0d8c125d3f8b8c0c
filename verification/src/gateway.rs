//! The gateway sequencer's decisions: which mesh operation an inbound
//! command asks for, the fixed bind sequence for a newly added node, and the
//! status events to publish for each provisioner outcome.
//!
//! The surrounding process runs the event loop: it performs the mesh RPCs,
//! waits the settling delays, and publishes the returned events. At most one
//! node-add attempt is in flight per device uuid; a second provision command
//! for a pending uuid is dropped.
use crate::ids::{event_topic, parse_uuid, u128_hex32, uuid_parse_of};
use crate::parse::parse_command;
use crate::wire::{
    ser_command, BtMeshCommand, BtMeshCommandView, BtMeshDeviceState, BtMeshDeviceStateView,
    BtMeshEvent, BtMeshEventView, BtMeshOperation, BtMeshOperationView,
};
use vstd::prelude::*;

verus! {

broadcast use vstd::string::group_string_axioms;

pub const SENSOR_SETUP_SERVER_MODEL: u16 = 0x1101;

pub const GENERIC_ONOFF_SERVER_MODEL: u16 = 0x1000;

pub const GENERIC_BATTERY_SERVER_MODEL: u16 = 0x100c;

pub const NET_KEY_INDEX: u16 = 0;

pub const APP_KEY_INDEX: u16 = 0;

pub const PUBLISH_RETRANSMIT_COUNT: u8 = 5;

pub const SENSOR_PUBLISH_PERIOD_SECS: u8 = 4;

pub const BATTERY_PUBLISH_PERIOD_SECS: u8 = 60;

/// The fixed virtual label the sensor and battery models publish to.
pub const PUBLISH_LABEL_UUID: u128 = 0xf0bfd803cde184133096f003ea4a3dc2;

/// The settling delay before the first bind step runs.
pub const PRE_BIND_SETTLE_SECS: u64 = 6;

pub const STEP_SETTLE_SECS: u64 = 4;

pub const FINAL_SETTLE_SECS: u64 = 5;

/// One mesh configuration call.
#[derive(PartialEq, Eq, Structural, Clone, Copy, Debug)]
pub enum MeshOp {
    AddAppKey { address: u16, net_key_index: u16, app_key_index: u16 },
    Bind { address: u16, model: u16 },
    PubSet { address: u16, model: u16, period_secs: u8, retransmit: u8, dest_label: u128 },
}

/// One step of the bind sequence: the call to make, and the settling delay
/// to wait after it (no acknowledgment-based waiting is performed).
#[derive(PartialEq, Eq, Structural, Clone, Copy, Debug)]
pub struct BindStep {
    pub op: MeshOp,
    pub settle_secs: u64,
}

/// The bind sequence for a newly added node: application key first, then the
/// model binds, then the publish configuration.
pub open spec fn bind_sequence_v(address: u16) -> Seq<BindStep> {
    seq![
        BindStep {
            op: MeshOp::AddAppKey {
                address: address,
                net_key_index: NET_KEY_INDEX,
                app_key_index: APP_KEY_INDEX,
            },
            settle_secs: STEP_SETTLE_SECS,
        },
        BindStep {
            op: MeshOp::Bind { address: address, model: SENSOR_SETUP_SERVER_MODEL },
            settle_secs: STEP_SETTLE_SECS,
        },
        BindStep {
            op: MeshOp::Bind { address: address, model: GENERIC_ONOFF_SERVER_MODEL },
            settle_secs: STEP_SETTLE_SECS,
        },
        BindStep {
            op: MeshOp::Bind { address: address, model: GENERIC_BATTERY_SERVER_MODEL },
            settle_secs: STEP_SETTLE_SECS,
        },
        BindStep {
            op: MeshOp::PubSet {
                address: address,
                model: SENSOR_SETUP_SERVER_MODEL,
                period_secs: SENSOR_PUBLISH_PERIOD_SECS,
                retransmit: PUBLISH_RETRANSMIT_COUNT,
                dest_label: PUBLISH_LABEL_UUID,
            },
            settle_secs: STEP_SETTLE_SECS,
        },
        BindStep {
            op: MeshOp::PubSet {
                address: address,
                model: GENERIC_BATTERY_SERVER_MODEL,
                period_secs: BATTERY_PUBLISH_PERIOD_SECS,
                retransmit: PUBLISH_RETRANSMIT_COUNT,
                dest_label: PUBLISH_LABEL_UUID,
            },
            settle_secs: FINAL_SETTLE_SECS,
        },
    ]
}

/// The steps to run, in order, once a node has been added at `address`.
/// Ordering is significant: key before binds, binds before publish
/// configuration.
pub fn bind_sequence(address: u16) -> (r: Vec<BindStep>)
    ensures
        r@ == bind_sequence_v(address),
{
    let mut v: Vec<BindStep> = Vec::new();
    v.push(
        BindStep {
            op: MeshOp::AddAppKey {
                address,
                net_key_index: NET_KEY_INDEX,
                app_key_index: APP_KEY_INDEX,
            },
            settle_secs: STEP_SETTLE_SECS,
        },
    );
    v.push(
        BindStep {
            op: MeshOp::Bind { address, model: SENSOR_SETUP_SERVER_MODEL },
            settle_secs: STEP_SETTLE_SECS,
        },
    );
    v.push(
        BindStep {
            op: MeshOp::Bind { address, model: GENERIC_ONOFF_SERVER_MODEL },
            settle_secs: STEP_SETTLE_SECS,
        },
    );
    v.push(
        BindStep {
            op: MeshOp::Bind { address, model: GENERIC_BATTERY_SERVER_MODEL },
            settle_secs: STEP_SETTLE_SECS,
        },
    );
    v.push(
        BindStep {
            op: MeshOp::PubSet {
                address,
                model: SENSOR_SETUP_SERVER_MODEL,
                period_secs: SENSOR_PUBLISH_PERIOD_SECS,
                retransmit: PUBLISH_RETRANSMIT_COUNT,
                dest_label: PUBLISH_LABEL_UUID,
            },
            settle_secs: STEP_SETTLE_SECS,
        },
    );
    v.push(
        BindStep {
            op: MeshOp::PubSet {
                address,
                model: GENERIC_BATTERY_SERVER_MODEL,
                period_secs: BATTERY_PUBLISH_PERIOD_SECS,
                retransmit: PUBLISH_RETRANSMIT_COUNT,
                dest_label: PUBLISH_LABEL_UUID,
            },
            settle_secs: FINAL_SETTLE_SECS,
        },
    );
    proof {
        assert(v@ =~= bind_sequence_v(address));
    }
    v
}

/// How the pending set and the add-node decision move on one provision
/// command: a malformed uuid is dropped, a pending uuid is dropped, anything
/// else becomes pending and starts an add-node call.
pub open spec fn provision_transition(p: Set<u128>, parsed: Option<u128>) -> (Set<u128>, Option<
    u128,
>) {
    match parsed {
        None => (p, None),
        Some(u) => if p.contains(u) {
            (p, None)
        } else {
            (p.insert(u), Some(u))
        },
    }
}

/// What the sequencer does with one command payload.
#[derive(PartialEq, Eq, Structural, Clone, Copy, Debug)]
pub enum CommandDirective {
    /// Drop the payload: malformed, or the device's attempt already pending.
    Ignore,
    /// Call the mesh add-node operation for this uuid, now marked pending.
    StartAddNode { uuid: u128 },
    /// Call the mesh reset operation for this unicast address.
    DoReset { address: u16 },
}

/// The gateway's in-flight bookkeeping: the set of device uuids whose
/// node-add attempt is pending, with at most one entry per uuid.
pub struct Sequencer {
    pending: Vec<u128>,
}

impl View for Sequencer {
    type V = Set<u128>;

    closed spec fn view(&self) -> Set<u128> {
        self.pending@.to_set()
    }
}

impl Sequencer {
    /// At most one pending entry per uuid.
    pub closed spec fn wf(self) -> bool {
        forall|i: int, j: int|
            0 <= i < j < self.pending@.len() ==> self.pending@[i] != self.pending@[j]
    }

    pub fn new() -> (s: Self)
        ensures
            s.wf(),
            s@ == Set::<u128>::empty(),
    {
        let s = Sequencer { pending: Vec::new() };
        proof {
            assert(s.pending@.to_set() =~= Set::<u128>::empty());
        }
        s
    }

    fn contains_pending(&self, u: u128) -> (b: bool)
        ensures
            b == self@.contains(u),
    {
        let mut k: usize = 0;
        while k < self.pending.len()
            invariant
                k <= self.pending@.len(),
                forall|m: int| 0 <= m < k ==> self.pending@[m] != u,
            decreases self.pending@.len() - k,
        {
            if self.pending[k] == u {
                return true;
            }
            k += 1;
        }
        proof {
            if self.pending@.contains(u) {
                let w = choose|w: int|
                    0 <= w < self.pending@.len() && self.pending@[w] == u;
                assert(self.pending@[w] != u);
            }
        }
        false
    }

    fn remove_pending(&mut self, u: u128)
        requires
            old(self).wf(),
        ensures
            final (self).wf(),
            final (self)@ == old(self)@.remove(u),
    {
        let ghost s = self.pending@;
        let mut k: usize = 0;
        while k < self.pending.len()
            invariant
                k <= self.pending@.len(),
                self.pending@ == s,
                old(self).wf(),
                s == old(self).pending@,
                forall|m: int| 0 <= m < k ==> s[m] != u,
            decreases self.pending@.len() - k,
        {
            if self.pending[k] == u {
                self.pending.remove(k);
                proof {
                    let s2 = self.pending@;
                    assert forall|x: u128| s2.to_set().contains(x) <==> (s.to_set().contains(x)
                        && x != u) by {
                        if s2.contains(x) {
                            let w = choose|w: int| 0 <= w < s2.len() && s2[w] == x;
                            if w < k {
                                assert(s[w] == x);
                            } else {
                                assert(s[w + 1] == x);
                            }
                            if x == u {
                                if w < k {
                                    assert(s[w] != u);
                                } else {
                                    assert(s[w + 1] == s[k as int]);
                                }
                            }
                        }
                        if s.contains(x) && x != u {
                            let w = choose|w: int| 0 <= w < s.len() && s[w] == x;
                            if w < k {
                                assert(s2[w] == x);
                            } else {
                                assert(w != k);
                                assert(s2[w - 1] == x);
                            }
                        }
                    }
                    assert(s2.to_set() =~= s.to_set().remove(u));
                    assert forall|i: int, j: int|
                        0 <= i < j < s2.len() implies s2[i] != s2[j] by {
                        if j < k {
                            assert(s[i] == s2[i] && s[j] == s2[j]);
                        } else if i < k {
                            assert(s[i] == s2[i] && s[j + 1] == s2[j]);
                        } else {
                            assert(s[i + 1] == s2[i] && s[j + 1] == s2[j]);
                        }
                    }
                }
                return ;
            }
            k += 1;
        }
        proof {
            if self.pending@.contains(u) {
                let w = choose|w: int|
                    0 <= w < self.pending@.len() && self.pending@[w] == u;
                assert(self.pending@[w] != u);
            }
            assert(self.pending@.to_set() =~= self.pending@.to_set().remove(u));
        }
    }

    /// Handles a `Provision{device}` command: a malformed uuid or one whose
    /// attempt is already pending is dropped; otherwise the uuid becomes
    /// pending and is returned so the caller starts the add-node call.
    pub fn handle_provision(&mut self, device: &str) -> (r: Option<u128>)
        requires
            old(self).wf(),
        ensures
            final (self).wf(),
            (final (self)@, r) == provision_transition(old(self)@, uuid_parse_of(device@)),
    {
        match parse_uuid(device) {
            None => None,
            Some(u) => {
                if self.contains_pending(u) {
                    None
                } else {
                    self.pending.push(u);
                    proof {
                        let s = old(self).pending@;
                        assert forall|i: int, j: int|
                            0 <= i < j < self.pending@.len() implies self.pending@[i]
                            != self.pending@[j] by {
                            if j < s.len() {
                                assert(self.pending@[i] == s[i] && self.pending@[j] == s[j]);
                            } else {
                                assert(self.pending@[j] == u);
                                assert(self.pending@[i] == s[i]);
                                assert(s.to_set().contains(s[i]) == s.contains(s[i]));
                            }
                        }
                        assert(self.pending@.to_set() =~= old(self)@.insert(u)) by {
                            assert forall|x: u128|
                                self.pending@.to_set().contains(x) <==> (old(
                                    self,
                                )@.contains(x) || x == u) by {
                                if self.pending@.contains(x) {
                                    let w = choose|w: int|
                                        0 <= w < self.pending@.len() && self.pending@[w] == x;
                                    if w < s.len() {
                                        assert(s[w] == x);
                                    }
                                }
                                if s.contains(x) {
                                    let w = choose|w: int| 0 <= w < s.len() && s[w] == x;
                                    assert(self.pending@[w] == x);
                                }
                                if x == u {
                                    assert(self.pending@[s.len() as int] == u);
                                }
                            }
                        }
                    }
                    Some(u)
                }
            },
        }
    }

    /// Handles one command payload: parses it and dispatches. A malformed
    /// payload is silently dropped.
    pub fn decide_command(&mut self, payload: &str) -> (d: CommandDirective)
        requires
            old(self).wf(),
        ensures
            final (self).wf(),
            forall|cv: BtMeshCommandView|
                payload@ == ser_command(cv) ==> match cv.command {
                    BtMeshOperationView::Provision { device } => {
                        let (p2, r) = provision_transition(old(self)@, uuid_parse_of(device));
                        final (self)@ == p2 && d == (match r {
                            Some(u) => CommandDirective::StartAddNode { uuid: u },
                            None => CommandDirective::Ignore,
                        })
                    },
                    BtMeshOperationView::Reset { address } => final (self)@ == old(self)@ && d
                        == (CommandDirective::DoReset { address }),
                },
            (forall|cv: BtMeshCommandView| payload@ != ser_command(cv)) ==> (final (self)@ == old(
                self,
            )@ && d == CommandDirective::Ignore),
    {
        match parse_command(payload) {
            Some(c) => match c.command {
                BtMeshOperation::Provision { device } => {
                    match self.handle_provision(device.as_str()) {
                        Some(u) => CommandDirective::StartAddNode { uuid: u },
                        None => CommandDirective::Ignore,
                    }
                },
                BtMeshOperation::Reset { address } => CommandDirective::DoReset { address },
            },
            None => CommandDirective::Ignore,
        }
    }

    /// The outcome of a completed node add, reported after the bind sequence
    /// ran through: clears the pending entry and returns the `Provisioned`
    /// event with its topic, for the caller to publish.
    pub fn handle_add_node_complete(&mut self, uuid: u128, address: u16) -> (r: (String, BtMeshEvent))
        requires
            old(self).wf(),
        ensures
            final (self).wf(),
            final (self)@ == old(self)@.remove(uuid),
            r.0@ == "btmesh/"@ + u128_hex32(uuid),
            r.1@ == (BtMeshEventView { status: BtMeshDeviceStateView::Provisioned { address } }),
    {
        self.remove_pending(uuid);
        (event_topic(uuid), BtMeshEvent { status: BtMeshDeviceState::Provisioned { address } })
    }

    /// The outcome of a failed node add — the asynchronous failure report,
    /// or an add-node call that was rejected synchronously: clears the
    /// pending entry and returns the `Provisioning{error}` event to publish.
    pub fn handle_add_node_failed(&mut self, uuid: u128, reason: String) -> (r: (String, BtMeshEvent))
        requires
            old(self).wf(),
        ensures
            final (self).wf(),
            final (self)@ == old(self)@.remove(uuid),
            r.0@ == "btmesh/"@ + u128_hex32(uuid),
            r.1@ == (BtMeshEventView {
                status: BtMeshDeviceStateView::Provisioning { error: Some(reason@) },
            }),
    {
        self.remove_pending(uuid);
        (
            event_topic(uuid),
            BtMeshEvent { status: BtMeshDeviceState::Provisioning { error: Some(reason) } },
        )
    }
}

/// The event reporting a reset outcome (`error` is `None` on success),
/// published on the shared event topic: a reset command carries no uuid.
pub fn reset_event(error: Option<String>) -> (r: (String, BtMeshEvent))
    ensures
        r.0@ == "btmesh"@,
        r.1@ == (BtMeshEventView {
            status: BtMeshDeviceStateView::Reset { error: error.deep_view() },
        }),
{
    (String::from_str("btmesh"), BtMeshEvent { status: BtMeshDeviceState::Reset { error } })
}

/// At most one attempt is in flight per device: of two identical provision
/// commands arriving before any outcome, only the first starts an add-node
/// call, and the second leaves the pending set unchanged.
pub proof fn lemma_at_most_one_pending(p: Set<u128>, parsed: Option<u128>)
    ensures
        ({
            let (p1, r1) = provision_transition(p, parsed);
            let (p2, r2) = provision_transition(p1, parsed);
            &&& (r1 is Some ==> r2 is None)
            &&& !(r1 is Some && r2 is Some)
            &&& p2 == p1
        }),
{
}

} // verus!
