//! Wire schema for the command and event topics.
//!
//! Commands travel from the cloud reconciler to the gateway sequencer:
//!   `{"command":"provision","device":"<uuid>"}`
//!   `{"command":"reset","address":<uint16>}`
//! Events travel back from the gateway:
//!   `{"status":{"type":"provisioning","error":<string|null>}}`
//!   `{"status":{"type":"provisioned","address":<uint16>}}`
//!   `{"status":{"type":"reset","error":<string|null>}}`
//!
//! The messages are encoded as JSON in the canonical form above (no extra
//! whitespace, fields in the order shown, `"` and `\` escaped with a
//! backslash, addresses as decimal numbers without leading zeros). The
//! serializers are proved to produce exactly that form and the parsers accept
//! exactly that form, so parsing a serialized message returns the original.
use crate::push_char;
use vstd::prelude::*;

verus! {

broadcast use vstd::string::group_string_axioms;

/// A provisioning status carried by an event, and recorded in a device's
/// registry status.
#[derive(Debug, Clone, PartialEq, Eq)]
pub enum BtMeshDeviceState {
    Provisioning { error: Option<String> },
    Provisioned { address: u16 },
    Reset { error: Option<String> },
}

#[verifier::ext_equal]
pub enum BtMeshDeviceStateView {
    Provisioning { error: Option<Seq<char>> },
    Provisioned { address: u16 },
    Reset { error: Option<Seq<char>> },
}

impl View for BtMeshDeviceState {
    type V = BtMeshDeviceStateView;

    open spec fn view(&self) -> BtMeshDeviceStateView {
        match self {
            BtMeshDeviceState::Provisioning { error } => BtMeshDeviceStateView::Provisioning {
                error: error.deep_view(),
            },
            BtMeshDeviceState::Provisioned { address } => BtMeshDeviceStateView::Provisioned {
                address: *address,
            },
            BtMeshDeviceState::Reset { error } => BtMeshDeviceStateView::Reset {
                error: error.deep_view(),
            },
        }
    }
}

impl BtMeshDeviceState {
    /// A structural copy (the derived `Clone` says nothing to the verifier).
    pub fn duplicate(&self) -> (r: Self)
        ensures
            r@ == self@,
    {
        match self {
            BtMeshDeviceState::Provisioning { error } => BtMeshDeviceState::Provisioning {
                error: clone_opt_string(error),
            },
            BtMeshDeviceState::Provisioned { address } => BtMeshDeviceState::Provisioned {
                address: *address,
            },
            BtMeshDeviceState::Reset { error } => BtMeshDeviceState::Reset {
                error: clone_opt_string(error),
            },
        }
    }
}

pub(crate) fn clone_opt_string(s: &Option<String>) -> (r: Option<String>)
    ensures
        r.deep_view() == s.deep_view(),
{
    match s {
        Some(e) => Some(e.clone()),
        None => None,
    }
}

/// An operation requested of the gateway for one device.
#[derive(Debug, Clone, PartialEq, Eq)]
pub enum BtMeshOperation {
    Provision { device: String },
    Reset { address: u16 },
}

#[verifier::ext_equal]
pub enum BtMeshOperationView {
    Provision { device: Seq<char> },
    Reset { address: u16 },
}

impl View for BtMeshOperation {
    type V = BtMeshOperationView;

    open spec fn view(&self) -> BtMeshOperationView {
        match self {
            BtMeshOperation::Provision { device } => BtMeshOperationView::Provision {
                device: device@,
            },
            BtMeshOperation::Reset { address } => BtMeshOperationView::Reset { address: *address },
        }
    }
}

/// A message on the per-device command topic.
#[derive(Debug, Clone, PartialEq, Eq)]
pub struct BtMeshCommand {
    pub command: BtMeshOperation,
}

#[verifier::ext_equal]
pub struct BtMeshCommandView {
    pub command: BtMeshOperationView,
}

impl View for BtMeshCommand {
    type V = BtMeshCommandView;

    open spec fn view(&self) -> BtMeshCommandView {
        BtMeshCommandView { command: self.command@ }
    }
}

/// A message on the per-device event topic.
#[derive(Debug, Clone, PartialEq, Eq)]
pub struct BtMeshEvent {
    pub status: BtMeshDeviceState,
}

#[verifier::ext_equal]
pub struct BtMeshEventView {
    pub status: BtMeshDeviceStateView,
}

impl View for BtMeshEvent {
    type V = BtMeshEventView;

    open spec fn view(&self) -> BtMeshEventView {
        BtMeshEventView { status: self.status@ }
    }
}

// ---------------------------------------------------------------------------
// The canonical encoding, as a specification.
// ---------------------------------------------------------------------------
/// How one character appears inside a JSON string: `"` and `\` get a
/// backslash, everything else stands for itself.
pub open spec fn esc_char(c: char) -> Seq<char> {
    if c == '"' || c == '\\' {
        seq!['\\', c]
    } else {
        seq![c]
    }
}

/// A character sequence as it appears inside a JSON string literal.
pub open spec fn escape(s: Seq<char>) -> Seq<char>
    decreases s.len(),
{
    if s.len() == 0 {
        Seq::empty()
    } else {
        esc_char(s[0]) + escape(s.drop_first())
    }
}

pub open spec fn digit_char(n: nat) -> char {
    if n == 0 {
        '0'
    } else if n == 1 {
        '1'
    } else if n == 2 {
        '2'
    } else if n == 3 {
        '3'
    } else if n == 4 {
        '4'
    } else if n == 5 {
        '5'
    } else if n == 6 {
        '6'
    } else if n == 7 {
        '7'
    } else if n == 8 {
        '8'
    } else {
        '9'
    }
}

/// The decimal digits of `n`, without leading zeros.
pub open spec fn dec_str(n: nat) -> Seq<char>
    decreases n,
{
    if n < 10 {
        seq![digit_char(n)]
    } else {
        dec_str(n / 10).push(digit_char(n % 10))
    }
}

/// A JSON `<string|null>` field value.
pub open spec fn ser_error(e: Option<Seq<char>>) -> Seq<char> {
    match e {
        None => "null"@,
        Some(s) => "\""@ + escape(s) + "\""@,
    }
}

/// The canonical encoding of a command message.
pub open spec fn ser_command(c: BtMeshCommandView) -> Seq<char> {
    match c.command {
        BtMeshOperationView::Provision { device } => "{\"command\":\"provision\",\"device\":\""@
            + escape(device) + "\"}"@,
        BtMeshOperationView::Reset { address } => "{\"command\":\"reset\",\"address\":"@ + dec_str(
            address as nat,
        ) + "}"@,
    }
}

/// The canonical encoding of an event message.
pub open spec fn ser_event(e: BtMeshEventView) -> Seq<char> {
    match e.status {
        BtMeshDeviceStateView::Provisioning { error } => {
            "{\"status\":{\"type\":\"provisioning\",\"error\":"@ + ser_error(error) + "}}"@
        },
        BtMeshDeviceStateView::Provisioned { address } => {
            "{\"status\":{\"type\":\"provisioned\",\"address\":"@ + dec_str(address as nat) + "}}"@
        },
        BtMeshDeviceStateView::Reset { error } => {
            "{\"status\":{\"type\":\"reset\",\"error\":"@ + ser_error(error) + "}}"@
        },
    }
}

// ---------------------------------------------------------------------------
// Serializers.
// ---------------------------------------------------------------------------
pub proof fn lemma_escape_singleton(c: char)
    ensures
        escape(seq![c]) == esc_char(c),
{
    assert(seq![c].drop_first() =~= Seq::<char>::empty());
    assert(escape(seq![c]) == esc_char(c) + escape(Seq::<char>::empty()));
    assert(esc_char(c) + Seq::<char>::empty() =~= esc_char(c));
}

pub proof fn lemma_escape_concat(a: Seq<char>, b: Seq<char>)
    ensures
        escape(a + b) == escape(a) + escape(b),
    decreases a.len(),
{
    if a.len() == 0 {
        assert(a + b =~= b);
        assert(escape(a) + escape(b) =~= escape(b));
    } else {
        assert((a + b).drop_first() =~= a.drop_first() + b);
        lemma_escape_concat(a.drop_first(), b);
        assert((a + b)[0] == a[0]);
        assert(escape(a + b) =~= esc_char(a[0]) + (escape(a.drop_first()) + escape(b)));
        assert(esc_char(a[0]) + (escape(a.drop_first()) + escape(b)) =~= escape(a) + escape(b));
    }
}

fn digit_char_exec(n: u16) -> (c: char)
    requires
        n < 10,
    ensures
        c == digit_char(n as nat),
{
    if n == 0 {
        '0'
    } else if n == 1 {
        '1'
    } else if n == 2 {
        '2'
    } else if n == 3 {
        '3'
    } else if n == 4 {
        '4'
    } else if n == 5 {
        '5'
    } else if n == 6 {
        '6'
    } else if n == 7 {
        '7'
    } else if n == 8 {
        '8'
    } else {
        '9'
    }
}

fn append_u16(out: &mut String, n: u16)
    ensures
        final (out)@ == old(out)@ + dec_str(n as nat),
    decreases n,
{
    if n < 10 {
        push_char(out, digit_char_exec(n));
        proof {
            assert(old(out)@ + dec_str(n as nat) =~= old(out)@.push(digit_char(n as nat)));
        }
    } else {
        append_u16(out, n / 10);
        push_char(out, digit_char_exec(n % 10));
        proof {
            assert(old(out)@ + dec_str(n as nat) =~= (old(out)@ + dec_str((n as nat) / 10)).push(
                digit_char((n as nat) % 10),
            ));
        }
    }
}

fn append_escaped(out: &mut String, s: &str)
    ensures
        final (out)@ == old(out)@ + escape(s@),
{
    let n = s.unicode_len();
    let mut i: usize = 0;
    proof {
        assert(s@.subrange(0, 0) =~= Seq::<char>::empty());
        assert(out@ + escape(s@.subrange(0, 0)) =~= out@);
    }
    while i < n
        invariant
            i <= n,
            n == s@.len(),
            out@ == old(out)@ + escape(s@.subrange(0, i as int)),
        decreases n - i,
    {
        let c = s.get_char(i);
        if c == '"' || c == '\\' {
            push_char(out, '\\');
            push_char(out, c);
        } else {
            push_char(out, c);
        }
        proof {
            let pre = s@.subrange(0, i as int);
            lemma_escape_concat(pre, seq![c]);
            lemma_escape_singleton(c);
            assert(s@.subrange(0, i + 1) =~= pre + seq![c]);
            if c == '"' || c == '\\' {
                assert(old(out)@ + escape(pre + seq![c]) =~= (old(out)@ + escape(pre)).push(
                    '\\',
                ).push(c));
            } else {
                assert(old(out)@ + escape(pre + seq![c]) =~= (old(out)@ + escape(pre)).push(c));
            }
        }
        i += 1;
    }
    proof {
        assert(s@.subrange(0, n as int) =~= s@);
    }
}

/// Encodes a command for the per-device command topic.
pub fn serialize_command(c: &BtMeshCommand) -> (r: String)
    ensures
        r@ == ser_command(c@),
{
    let mut out = String::new();
    match &c.command {
        BtMeshOperation::Provision { device } => {
            out.append("{\"command\":\"provision\",\"device\":\"");
            append_escaped(&mut out, device.as_str());
            out.append("\"}");
            proof {
                assert(out@ =~= ser_command(c@));
            }
        },
        BtMeshOperation::Reset { address } => {
            out.append("{\"command\":\"reset\",\"address\":");
            append_u16(&mut out, *address);
            out.append("}");
            proof {
                assert(out@ =~= ser_command(c@));
            }
        },
    }
    out
}

fn append_error(out: &mut String, e: &Option<String>)
    ensures
        final (out)@ == old(out)@ + ser_error(e.deep_view()),
{
    match e {
        None => {
            out.append("null");
        },
        Some(s) => {
            out.append("\"");
            append_escaped(out, s.as_str());
            out.append("\"");
            proof {
                assert(old(out)@ + ser_error(e.deep_view()) =~= ((old(out)@ + "\""@) + escape(s@))
                    + "\""@);
            }
        },
    }
}

/// Encodes an event for the per-device event topic.
pub fn serialize_event(e: &BtMeshEvent) -> (r: String)
    ensures
        r@ == ser_event(e@),
{
    let mut out = String::new();
    match &e.status {
        BtMeshDeviceState::Provisioning { error } => {
            out.append("{\"status\":{\"type\":\"provisioning\",\"error\":");
            append_error(&mut out, error);
            out.append("}}");
            proof {
                assert(out@ =~= ser_event(e@));
            }
        },
        BtMeshDeviceState::Provisioned { address } => {
            out.append("{\"status\":{\"type\":\"provisioned\",\"address\":");
            append_u16(&mut out, *address);
            out.append("}}");
            proof {
                assert(out@ =~= ser_event(e@));
            }
        },
        BtMeshDeviceState::Reset { error } => {
            out.append("{\"status\":{\"type\":\"reset\",\"error\":");
            append_error(&mut out, error);
            out.append("}}");
            proof {
                assert(out@ =~= ser_event(e@));
            }
        },
    }
    out
}

} // verus!
