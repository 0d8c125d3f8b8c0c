//! The registry's view of a device: its mesh spec, its provisioning status
//! with named conditions, its aliases, and its deletion bookkeeping
//! (a deletion marker plus finalizers that gate physical removal).
use crate::wire::{BtMeshDeviceState, BtMeshDeviceStateView};
use vstd::prelude::*;

verus! {

/// The payload of one named condition: whether it holds, and an optional
/// reason and message for observability.
#[derive(Debug, PartialEq, Eq)]
pub struct ConditionValue {
    pub status: bool,
    pub reason: Option<String>,
    pub message: Option<String>,
}

#[verifier::ext_equal]
pub struct ConditionValueView {
    pub status: bool,
    pub reason: Option<Seq<char>>,
    pub message: Option<Seq<char>>,
}

impl View for ConditionValue {
    type V = ConditionValueView;

    open spec fn view(&self) -> ConditionValueView {
        ConditionValueView {
            status: self.status,
            reason: self.reason.deep_view(),
            message: self.message.deep_view(),
        }
    }
}

impl DeepView for ConditionValue {
    type V = ConditionValueView;

    open spec fn deep_view(&self) -> ConditionValueView {
        self.view()
    }
}

/// One named condition of a device's status.
#[derive(Debug, PartialEq, Eq)]
pub struct Condition {
    pub name: String,
    pub value: ConditionValue,
}

#[verifier::ext_equal]
pub struct ConditionView {
    pub name: Seq<char>,
    pub value: ConditionValueView,
}

impl View for Condition {
    type V = ConditionView;

    open spec fn view(&self) -> ConditionView {
        ConditionView { name: self.name@, value: self.value@ }
    }
}

impl DeepView for Condition {
    type V = ConditionView;

    open spec fn deep_view(&self) -> ConditionView {
        self.view()
    }
}

/// The first index holding `name`, or -1.
pub open spec fn cond_first(s: Seq<ConditionView>, name: Seq<char>) -> int
    decreases s.len(),
{
    if s.len() == 0 {
        -1
    } else if s[0].name == name {
        0
    } else {
        let r = cond_first(s.drop_first(), name);
        if r < 0 {
            -1
        } else {
            r + 1
        }
    }
}

/// The value recorded under `name`, if any.
pub open spec fn cond_lookup(s: Seq<ConditionView>, name: Seq<char>) -> Option<ConditionValueView> {
    let i = cond_first(s, name);
    if i >= 0 {
        Some(s[i].value)
    } else {
        None
    }
}

/// Updating by name: overwrite the first condition so named, or append one.
pub open spec fn cond_update(
    s: Seq<ConditionView>,
    name: Seq<char>,
    v: ConditionValueView,
) -> Seq<ConditionView> {
    let i = cond_first(s, name);
    if i >= 0 {
        s.update(i, ConditionView { name, value: v })
    } else {
        s.push(ConditionView { name, value: v })
    }
}

pub proof fn lemma_cond_first(s: Seq<ConditionView>, name: Seq<char>)
    ensures
        -1 <= cond_first(s, name) < s.len(),
        cond_first(s, name) >= 0 ==> s[cond_first(s, name)].name == name,
        forall|m: int|
            0 <= m < s.len() && s[m].name == name ==> 0 <= cond_first(s, name) <= m,
    decreases s.len(),
{
    if s.len() == 0 {
    } else if s[0].name == name {
    } else {
        lemma_cond_first(s.drop_first(), name);
        let r = cond_first(s.drop_first(), name);
        if r >= 0 {
            assert(s.drop_first()[r] == s[r + 1]);
        }
        assert forall|m: int|
            0 <= m < s.len() && s[m].name == name implies 0 <= cond_first(s, name) <= m by {
            assert(s.drop_first()[m - 1] == s[m]);
        }
    }
}

pub proof fn lemma_cond_first_at(s: Seq<ConditionView>, name: Seq<char>, k: int)
    requires
        0 <= k < s.len(),
        s[k].name == name,
        forall|m: int| 0 <= m < k ==> s[m].name != name,
    ensures
        cond_first(s, name) == k,
{
    lemma_cond_first(s, name);
}

pub proof fn lemma_cond_first_none(s: Seq<ConditionView>, name: Seq<char>)
    requires
        forall|m: int| 0 <= m < s.len() ==> s[m].name != name,
    ensures
        cond_first(s, name) == -1,
{
    lemma_cond_first(s, name);
    if cond_first(s, name) >= 0 {
        assert(s[cond_first(s, name)].name == name);
    }
}

/// `cond_first` looks only at names.
pub proof fn lemma_cond_first_names(s1: Seq<ConditionView>, s2: Seq<ConditionView>, name: Seq<char>)
    requires
        s1.len() == s2.len(),
        forall|m: int| 0 <= m < s1.len() ==> s1[m].name == s2[m].name,
    ensures
        cond_first(s1, name) == cond_first(s2, name),
    decreases s1.len(),
{
    if s1.len() == 0 {
    } else {
        assert(s1[0].name == s2[0].name);
        assert forall|m: int| 0 <= m < s1.drop_first().len() implies s1.drop_first()[m].name
            == s2.drop_first()[m].name by {
            assert(s1.drop_first()[m] == s1[m + 1]);
            assert(s2.drop_first()[m] == s2[m + 1]);
        }
        lemma_cond_first_names(s1.drop_first(), s2.drop_first(), name);
    }
}

/// After an update, the name reads back as the written value.
pub proof fn lemma_cond_update_lookup(s: Seq<ConditionView>, name: Seq<char>, v: ConditionValueView)
    ensures
        cond_lookup(cond_update(s, name, v), name) == Some(v),
{
    lemma_cond_first(s, name);
    let i = cond_first(s, name);
    if i >= 0 {
        let s2 = cond_update(s, name, v);
        lemma_cond_first_names(s, s2, name);
    } else {
        let s2 = s.push(ConditionView { name, value: v });
        assert forall|m: int| 0 <= m < s.len() implies s2[m].name != name by {
            if s2[m].name == name {
                assert(s[m].name == name);
            }
        }
        lemma_cond_first_at(s2, name, s.len() as int);
    }
}

/// An update leaves every other name unchanged.
pub proof fn lemma_cond_update_other(
    s: Seq<ConditionView>,
    name: Seq<char>,
    v: ConditionValueView,
    other: Seq<char>,
)
    requires
        other != name,
    ensures
        cond_lookup(cond_update(s, name, v), other) == cond_lookup(s, other),
{
    lemma_cond_first(s, name);
    lemma_cond_first(s, other);
    let i = cond_first(s, name);
    let j = cond_first(s, other);
    let s2 = cond_update(s, name, v);
    if i >= 0 {
        lemma_cond_first_names(s, s2, other);
        if j >= 0 {
            assert(s[i].name == name);
            assert(s[j].name == other);
            assert(s2[j].value == s[j].value);
        }
    } else {
        if j >= 0 {
            assert forall|m: int| 0 <= m < j implies s2[m].name != other by {
                assert(s2[m] == s[m]);
            }
            lemma_cond_first_at(s2, other, j);
        } else {
            assert forall|m: int| 0 <= m < s2.len() implies s2[m].name != other by {
                if m < s.len() {
                    assert(s2[m] == s[m]);
                }
            }
            lemma_cond_first_none(s2, other);
        }
    }
}

/// Writing back a value that already holds changes nothing.
pub proof fn lemma_cond_update_identity(
    s: Seq<ConditionView>,
    name: Seq<char>,
    v: ConditionValueView,
)
    requires
        cond_lookup(s, name) == Some(v),
    ensures
        cond_update(s, name, v) == s,
{
    lemma_cond_first(s, name);
    let i = cond_first(s, name);
    assert(s[i].name == name);
    assert(s[i].value == v);
    assert(s[i] =~= ConditionView { name, value: v });
    assert(cond_update(s, name, v) =~= s);
}

/// The named boolean conditions of a device's status, updated idempotently
/// by name.
#[derive(Debug, PartialEq, Eq)]
pub struct ConditionSet {
    items: Vec<Condition>,
}

impl View for ConditionSet {
    type V = Seq<ConditionView>;

    closed spec fn view(&self) -> Seq<ConditionView> {
        self.items.deep_view()
    }
}

fn find_first(items: &Vec<Condition>, name: &String) -> (r: Option<usize>)
    ensures
        match r {
            Some(k) => k < items@.len() && cond_first(items.deep_view(), name@) == k,
            None => cond_first(items.deep_view(), name@) == -1,
        },
{
    let mut k: usize = 0;
    while k < items.len()
        invariant
            k <= items@.len(),
            forall|m: int| 0 <= m < k ==> items.deep_view()[m].name != name@,
        decreases items@.len() - k,
    {
        if items[k].name == *name {
            proof {
                assert(items.deep_view()[k as int] == items@[k as int].deep_view());
                lemma_cond_first_at(items.deep_view(), name@, k as int);
            }
            return Some(k);
        }
        proof {
            assert(items.deep_view()[k as int] == items@[k as int].deep_view());
        }
        k += 1;
    }
    proof {
        lemma_cond_first_none(items.deep_view(), name@);
    }
    None
}

impl ConditionSet {
    pub fn new() -> (r: Self)
        ensures
            r@ == Seq::<ConditionView>::empty(),
    {
        let r = ConditionSet { items: Vec::new() };
        proof {
            assert(r@ =~= Seq::<ConditionView>::empty());
        }
        r
    }

    /// Sets the condition `name` to `value`, overwriting the condition of
    /// that name or appending a new one.
    pub fn update(&mut self, name: &str, value: ConditionValue)
        ensures
            final (self)@ == cond_update(old(self)@, name@, value@),
    {
        let name_s: String = name.to_owned();
        let c = Condition { name: name_s, value };
        match find_first(&self.items, &c.name) {
            Some(k) => {
                let ghost olditems = self.items@;
                self.items.remove(k);
                self.items.insert(k, c);
                proof {
                    assert(self.items@ =~= olditems.update(
                        k as int,
                        self.items@[k as int],
                    ));
                    assert(self@ =~= cond_update(old(self)@, name@, value@));
                }
            },
            None => {
                self.items.push(c);
                proof {
                    assert(self@ =~= cond_update(old(self)@, name@, value@));
                }
            },
        }
    }

    /// The condition recorded under `name`, if any.
    pub fn get(&self, name: &str) -> (r: Option<&ConditionValue>)
        ensures
            match r {
                Some(v) => cond_lookup(self@, name@) == Some(v@),
                None => cond_lookup(self@, name@) is None,
            },
    {
        let name_s: String = name.to_owned();
        match find_first(&self.items, &name_s) {
            Some(k) => {
                proof {
                    assert(self@[k as int] == self.items@[k as int].deep_view());
                }
                Some(&self.items[k].value)
            },
            None => None,
        }
    }
}

/// A device's mesh participation: the uuid under which the gateway
/// provisions it.
#[derive(Debug, PartialEq, Eq)]
pub struct BtMeshSpec {
    pub device: String,
}

#[verifier::ext_equal]
pub struct BtMeshSpecView {
    pub device: Seq<char>,
}

impl View for BtMeshSpec {
    type V = BtMeshSpecView;

    open spec fn view(&self) -> BtMeshSpecView {
        BtMeshSpecView { device: self.device@ }
    }
}

impl DeepView for BtMeshSpec {
    type V = BtMeshSpecView;

    open spec fn deep_view(&self) -> BtMeshSpecView {
        self.view()
    }
}

/// A device's provisioning status as recorded in the registry.
#[derive(Debug, PartialEq, Eq)]
pub struct BtMeshStatus {
    pub address: Option<u16>,
    pub conditions: ConditionSet,
    pub state: BtMeshDeviceState,
}

#[verifier::ext_equal]
pub struct BtMeshStatusView {
    pub address: Option<u16>,
    pub conditions: Seq<ConditionView>,
    pub state: BtMeshDeviceStateView,
}

impl View for BtMeshStatus {
    type V = BtMeshStatusView;

    open spec fn view(&self) -> BtMeshStatusView {
        BtMeshStatusView {
            address: self.address,
            conditions: self.conditions@,
            state: self.state@,
        }
    }
}

impl DeepView for BtMeshStatus {
    type V = BtMeshStatusView;

    open spec fn deep_view(&self) -> BtMeshStatusView {
        self.view()
    }
}

/// A registry device record, as far as mesh provisioning reads and writes
/// it: identity, deletion bookkeeping, the mesh spec, aliases, and status.
#[derive(Debug, PartialEq, Eq)]
pub struct DeviceRecord {
    pub name: String,
    pub marked_for_deletion: bool,
    pub finalizers: Vec<String>,
    pub mesh_spec: Option<BtMeshSpec>,
    pub aliases: Vec<String>,
    pub status: Option<BtMeshStatus>,
}

#[verifier::ext_equal]
pub struct DeviceRecordView {
    pub name: Seq<char>,
    pub marked_for_deletion: bool,
    pub finalizers: Seq<Seq<char>>,
    pub mesh_spec: Option<BtMeshSpecView>,
    pub aliases: Seq<Seq<char>>,
    pub status: Option<BtMeshStatusView>,
}

impl View for DeviceRecord {
    type V = DeviceRecordView;

    open spec fn view(&self) -> DeviceRecordView {
        DeviceRecordView {
            name: self.name@,
            marked_for_deletion: self.marked_for_deletion,
            finalizers: self.finalizers.deep_view(),
            mesh_spec: self.mesh_spec.deep_view(),
            aliases: self.aliases.deep_view(),
            status: self.status.deep_view(),
        }
    }
}

/// The list with `f` present (appended if absent): set semantics for the
/// finalizer and alias lists.
pub open spec fn ensure_member(s: Seq<Seq<char>>, f: Seq<char>) -> Seq<Seq<char>> {
    if s.contains(f) {
        s
    } else {
        s.push(f)
    }
}

/// Ensuring a member makes it present, and doing it again changes nothing.
pub proof fn lemma_ensure_member(s: Seq<Seq<char>>, f: Seq<char>)
    ensures
        ensure_member(s, f).contains(f),
        ensure_member(ensure_member(s, f), f) == ensure_member(s, f),
        forall|x: Seq<char>| x != f ==> (ensure_member(s, f).contains(x) <==> s.contains(x)),
{
    if !s.contains(f) {
        assert(s.push(f)[s.len() as int] == f);
    }
    assert forall|x: Seq<char>| x != f implies (ensure_member(s, f).contains(x) <==> s.contains(
        x,
    )) by {
        if !s.contains(f) {
            if s.contains(x) {
                let w = choose|w: int| 0 <= w < s.len() && s[w] == x;
                assert(s.push(f)[w] == x);
            }
            if s.push(f).contains(x) {
                let w = choose|w: int| 0 <= w < s.len() + 1 && s.push(f)[w] == x;
                assert(s[w] == x);
            }
        }
    }
}

/// The finalizer list with every occurrence of `f` removed.
pub open spec fn remove_fin(s: Seq<Seq<char>>, f: Seq<char>) -> Seq<Seq<char>>
    decreases s.len(),
{
    if s.len() == 0 {
        Seq::empty()
    } else {
        let r = remove_fin(s.drop_last(), f);
        if s.last() == f {
            r
        } else {
            r.push(s.last())
        }
    }
}

/// Removal removes the name and keeps everything else.
pub proof fn lemma_remove_fin(s: Seq<Seq<char>>, f: Seq<char>)
    ensures
        !remove_fin(s, f).contains(f),
        forall|x: Seq<char>| x != f ==> (remove_fin(s, f).contains(x) <==> s.contains(x)),
    decreases s.len(),
{
    if s.len() == 0 {
    } else {
        lemma_remove_fin(s.drop_last(), f);
        let r = remove_fin(s.drop_last(), f);
        assert forall|x: Seq<char>| x != f implies (remove_fin(s, f).contains(x) <==> s.contains(
            x,
        )) by {
            if s.drop_last().contains(x) {
                assert(s.contains(x)) by {
                    let w = choose|w: int| 0 <= w < s.drop_last().len() && s.drop_last()[w] == x;
                    assert(s[w] == x);
                }
            }
            if s.contains(x) && s.last() != x {
                let w = choose|w: int| 0 <= w < s.len() && s[w] == x;
                assert(s.drop_last()[w] == x);
            }
            if s.last() == f {
                assert(remove_fin(s, f) == r);
            } else {
                assert(remove_fin(s, f) == r.push(s.last()));
                if r.contains(x) {
                    let w = choose|w: int| 0 <= w < r.len() && r[w] == x;
                    assert(r.push(s.last())[w] == x);
                }
                if r.push(s.last()).contains(x) && s.last() != x {
                    let w = choose|w: int| 0 <= w < r.len() + 1 && r.push(s.last())[w] == x;
                    assert(r[w] == x);
                }
                if s.last() == x {
                    assert(r.push(s.last())[r.len() as int] == x);
                    assert(s[s.len() - 1] == x);
                }
            }
        }
        if s.last() != f && r.push(s.last()).contains(f) {
            let w = choose|w: int| 0 <= w < r.len() + 1 && r.push(s.last())[w] == f;
            assert(r[w] == f);
        }
    }
}

/// Whether some string of `v` has the characters of `x`.
pub(crate) fn contains_str(v: &Vec<String>, x: &String) -> (b: bool)
    ensures
        b == v.deep_view().contains(x@),
{
    let mut k: usize = 0;
    while k < v.len()
        invariant
            k <= v@.len(),
            forall|m: int| 0 <= m < k ==> v.deep_view()[m] != x@,
        decreases v@.len() - k,
    {
        if v[k] == *x {
            proof {
                assert(v.deep_view()[k as int] == v@[k as int]@);
            }
            return true;
        }
        proof {
            assert(v.deep_view()[k as int] == v@[k as int]@);
        }
        k += 1;
    }
    proof {
        if v.deep_view().contains(x@) {
            let w = choose|w: int| 0 <= w < v.deep_view().len() && v.deep_view()[w] == x@;
            assert(v.deep_view()[w] != x@);
        }
    }
    false
}

impl DeviceRecord {
    /// Adds the finalizer `name` if it is not yet present.
    pub fn ensure_finalizer(&mut self, name: &str)
        ensures
            final (self)@ == (DeviceRecordView {
                finalizers: ensure_member(old(self)@.finalizers, name@),
                ..old(self)@
            }),
    {
        let name_s: String = name.to_owned();
        if !contains_str(&self.finalizers, &name_s) {
            self.finalizers.push(name_s);
            proof {
                assert(self.finalizers.deep_view() =~= ensure_member(
                    old(self)@.finalizers,
                    name@,
                ));
                assert(self@ =~= (DeviceRecordView {
                    finalizers: ensure_member(old(self)@.finalizers, name@),
                    ..old(self)@
                }));
            }
        } else {
            proof {
                assert(self@ =~= (DeviceRecordView {
                    finalizers: ensure_member(old(self)@.finalizers, name@),
                    ..old(self)@
                }));
            }
        }
    }

    /// Removes every finalizer named `name`, allowing physical deletion.
    pub fn remove_finalizer(&mut self, name: &str)
        ensures
            final (self)@ == (DeviceRecordView {
                finalizers: remove_fin(old(self)@.finalizers, name@),
                ..old(self)@
            }),
    {
        let name_s: String = name.to_owned();
        let mut kept: Vec<String> = Vec::new();
        let mut k: usize = 0;
        proof {
            assert(old(self)@.finalizers.subrange(0, 0) =~= Seq::<Seq<char>>::empty());
            assert(kept.deep_view() =~= remove_fin(old(self)@.finalizers.subrange(0, 0), name@));
        }
        while k < self.finalizers.len()
            invariant
                k <= self.finalizers@.len(),
                self == old(self),
                name_s@ == name@,
                kept.deep_view() == remove_fin(
                    self.finalizers.deep_view().subrange(0, k as int),
                    name@,
                ),
            decreases self.finalizers@.len() - k,
        {
            let ghost pre = self.finalizers.deep_view().subrange(0, k as int);
            let ghost cur = self.finalizers.deep_view().subrange(0, k + 1);
            proof {
                assert(cur.drop_last() =~= pre);
                assert(cur.last() == self.finalizers.deep_view()[k as int]);
                assert(self.finalizers.deep_view()[k as int] == self.finalizers@[k as int]@);
            }
            if self.finalizers[k] == name_s {
            } else {
                let ghost oldkept = kept.deep_view();
                kept.push(self.finalizers[k].clone());
                proof {
                    assert(kept.deep_view() =~= oldkept.push(self.finalizers@[k as int]@));
                }
            }
            k += 1;
        }
        proof {
            assert(self.finalizers.deep_view().subrange(
                0,
                self.finalizers@.len() as int,
            ) =~= self.finalizers.deep_view());
        }
        self.finalizers = kept;
        proof {
            assert(self@ =~= (DeviceRecordView {
                finalizers: remove_fin(old(self)@.finalizers, name@),
                ..old(self)@
            }));
        }
    }
}

} // verus!
