//! Parsers for the wire schema.
//!
//! Each parser accepts exactly the canonical form its serializer produces:
//! it returns `Some` if and only if the input is the encoding of some
//! message, and then returns that message. Malformed payloads yield `None`
//! and are skipped by the callers.
use crate::push_char;
use crate::wire::{
    dec_str, digit_char, esc_char, escape, lemma_escape_concat, lemma_escape_singleton, ser_command,
    ser_error, ser_event, BtMeshCommand, BtMeshCommandView, BtMeshDeviceState,
    BtMeshDeviceStateView, BtMeshEvent, BtMeshEventView, BtMeshOperation, BtMeshOperationView,
};
use vstd::arithmetic::div_mod::{lemma_fundamental_div_mod, lemma_fundamental_div_mod_converse};
use vstd::prelude::*;

verus! {

broadcast use vstd::string::group_string_axioms;

// ---------------------------------------------------------------------------
// Decimal numbers.
// ---------------------------------------------------------------------------
pub open spec fn is_digit(c: char) -> bool {
    c == '0' || c == '1' || c == '2' || c == '3' || c == '4' || c == '5' || c == '6' || c == '7'
        || c == '8' || c == '9'
}

pub open spec fn digit_val(c: char) -> nat {
    if c == '0' {
        0
    } else if c == '1' {
        1
    } else if c == '2' {
        2
    } else if c == '3' {
        3
    } else if c == '4' {
        4
    } else if c == '5' {
        5
    } else if c == '6' {
        6
    } else if c == '7' {
        7
    } else if c == '8' {
        8
    } else {
        9
    }
}

/// The value of a digit string read left to right.
pub open spec fn dec_value(s: Seq<char>) -> nat
    decreases s.len(),
{
    if s.len() == 0 {
        0
    } else {
        dec_value(s.drop_last()) * 10 + digit_val(s.last())
    }
}

/// How many leading characters of `t` are decimal digits.
pub open spec fn digit_prefix_len(t: Seq<char>) -> int
    decreases t.len(),
{
    if t.len() == 0 || !is_digit(t[0]) {
        0
    } else {
        1 + digit_prefix_len(t.drop_first())
    }
}

/// Reading a canonical `u16` from the front of `t`: its decimal digits
/// (nonempty, no leading zero, value at most 0xffff) and the rest.
pub open spec fn num_scan(t: Seq<char>) -> Option<(nat, Seq<char>)> {
    let k = digit_prefix_len(t);
    if k == 0 {
        None
    } else if t[0] == '0' && k > 1 {
        None
    } else if dec_value(t.subrange(0, k)) > 0xffff {
        None
    } else {
        Some((dec_value(t.subrange(0, k)), t.subrange(k, t.len() as int)))
    }
}

proof fn lemma_dpl_props(t: Seq<char>)
    ensures
        0 <= digit_prefix_len(t) <= t.len(),
        forall|m: int| 0 <= m < digit_prefix_len(t) ==> is_digit(t[m]),
        digit_prefix_len(t) < t.len() ==> !is_digit(t[digit_prefix_len(t)]),
    decreases t.len(),
{
    if t.len() == 0 || !is_digit(t[0]) {
    } else {
        lemma_dpl_props(t.drop_first());
        assert forall|m: int| 0 <= m < digit_prefix_len(t) implies is_digit(t[m]) by {
            if m > 0 {
                assert(t.drop_first()[m - 1] == t[m]);
            }
        }
        if digit_prefix_len(t) < t.len() {
            assert(t.drop_first()[digit_prefix_len(t) - 1] == t[digit_prefix_len(t)]);
        }
    }
}

proof fn lemma_dpl_unique(t: Seq<char>, k: int)
    requires
        0 <= k <= t.len(),
        forall|m: int| 0 <= m < k ==> is_digit(t[m]),
        k == t.len() || !is_digit(t[k]),
    ensures
        digit_prefix_len(t) == k,
    decreases t.len(),
{
    if k == 0 {
    } else {
        assert(is_digit(t[0]));
        assert forall|m: int| 0 <= m < k - 1 implies is_digit(t.drop_first()[m]) by {
            assert(t.drop_first()[m] == t[m + 1]);
        }
        if k < t.len() {
            assert(t.drop_first()[k - 1] == t[k]);
        }
        lemma_dpl_unique(t.drop_first(), k - 1);
    }
}

proof fn lemma_dec_str_digits(n: nat)
    ensures
        dec_str(n).len() >= 1,
        forall|m: int| 0 <= m < dec_str(n).len() ==> is_digit(#[trigger] dec_str(n)[m]),
    decreases n,
{
    if n < 10 {
    } else {
        lemma_dec_str_digits(n / 10);
        assert forall|m: int| 0 <= m < dec_str(n).len() implies is_digit(
            #[trigger] dec_str(n)[m],
        ) by {
            if m < dec_str(n / 10).len() {
                assert(dec_str(n)[m] == dec_str(n / 10)[m]);
            } else {
                assert(dec_str(n)[m] == digit_char(n % 10));
            }
        }
    }
}

proof fn lemma_dec_str_no_leading_zero(n: nat)
    ensures
        dec_str(n).len() > 1 ==> dec_str(n)[0] != '0',
        n < 10 <==> dec_str(n).len() == 1,
    decreases n,
{
    if n < 10 {
    } else {
        lemma_dec_str_no_leading_zero(n / 10);
        lemma_dec_str_digits(n / 10);
        assert(dec_str(n)[0] == dec_str(n / 10)[0]);
        if dec_str(n / 10).len() == 1 {
            assert(dec_str(n / 10)[0] == digit_char(n / 10));
        }
    }
}

proof fn lemma_dec_value_of_dec_str(n: nat)
    ensures
        dec_value(dec_str(n)) == n,
    decreases n,
{
    if n < 10 {
        assert(dec_str(n).drop_last() =~= Seq::<char>::empty());
        assert(dec_value(Seq::<char>::empty()) == 0);
        assert(dec_str(n).last() == digit_char(n));
    } else {
        lemma_dec_value_of_dec_str(n / 10);
        assert(dec_str(n).drop_last() =~= dec_str(n / 10));
        assert(dec_str(n).last() == digit_char(n % 10));
        assert(n % 10 < 10);
        assert(digit_val(digit_char(n % 10)) == n % 10);
        assert(dec_value(dec_str(n)) == dec_value(dec_str(n / 10)) * 10 + (n % 10));
        lemma_fundamental_div_mod(n as int, 10);
    }
}

proof fn lemma_dec_value_pos(s: Seq<char>)
    requires
        s.len() >= 1,
        forall|m: int| 0 <= m < s.len() ==> is_digit(s[m]),
        s[0] != '0',
    ensures
        dec_value(s) >= 1,
    decreases s.len(),
{
    if s.len() == 1 {
    } else {
        assert forall|m: int| 0 <= m < s.drop_last().len() implies is_digit(s.drop_last()[m]) by {
            assert(s.drop_last()[m] == s[m]);
        }
        assert(s.drop_last()[0] == s[0]);
        lemma_dec_value_pos(s.drop_last());
    }
}

proof fn lemma_dec_canon(s: Seq<char>)
    requires
        s.len() >= 1,
        forall|m: int| 0 <= m < s.len() ==> is_digit(s[m]),
        s.len() > 1 ==> s[0] != '0',
    ensures
        s == dec_str(dec_value(s)),
    decreases s.len(),
{
    if s.len() == 1 {
        assert(s.drop_last() =~= Seq::<char>::empty());
        assert(dec_value(Seq::<char>::empty()) == 0);
        assert(s.last() == s[0]);
        assert(dec_value(s) == digit_val(s[0]));
        assert(is_digit(s[0]));
        assert(s =~= dec_str(dec_value(s)));
    } else {
        let sp = s.drop_last();
        let c = s.last();
        assert forall|m: int| 0 <= m < sp.len() implies is_digit(sp[m]) by {
            assert(sp[m] == s[m]);
        }
        assert(sp[0] == s[0]);
        lemma_dec_value_pos(sp);
        let v = dec_value(s);
        assert(v == dec_value(sp) * 10 + digit_val(c));
        assert(is_digit(c));
        assert(digit_val(c) < 10);
        lemma_fundamental_div_mod_converse(v as int, 10, dec_value(sp) as int, digit_val(c) as int);
        assert(v / 10 == dec_value(sp));
        assert(v % 10 == digit_val(c));
        assert(v >= 10);
        lemma_dec_canon(sp);
        assert(digit_char(digit_val(c)) == c);
        assert(s =~= dec_str(v / 10).push(digit_char(v % 10)));
    }
}

proof fn lemma_dec_value_prefix_le(s: Seq<char>, j: int)
    requires
        0 <= j <= s.len(),
    ensures
        dec_value(s.subrange(0, j)) <= dec_value(s),
    decreases s.len() - j,
{
    if j == s.len() {
        assert(s.subrange(0, j) =~= s);
    } else {
        assert(s.subrange(0, j + 1).drop_last() =~= s.subrange(0, j));
        assert(dec_value(s.subrange(0, j + 1)) == dec_value(s.subrange(0, j)) * 10 + digit_val(
            s.subrange(0, j + 1).last(),
        ));
        lemma_dec_value_prefix_le(s, j + 1);
    }
}

/// Reading a serialized `u16` followed by anything that does not look like
/// another digit yields exactly the number and the rest.
proof fn lemma_num_scan_complete(n: nat, r: Seq<char>)
    requires
        n <= 0xffff,
        r.len() == 0 || !is_digit(r[0]),
    ensures
        num_scan(dec_str(n) + r) == Some((n, r)),
{
    let s = dec_str(n);
    let t = s + r;
    lemma_dec_str_digits(n);
    assert forall|m: int| 0 <= m < s.len() implies is_digit(t[m]) by {
        assert(t[m] == s[m]);
    }
    if s.len() < t.len() {
        assert(t[s.len() as int] == r[0]);
    }
    lemma_dpl_unique(t, s.len() as int);
    assert(t.subrange(0, s.len() as int) =~= s);
    lemma_dec_value_of_dec_str(n);
    lemma_dec_str_no_leading_zero(n);
    assert(t.subrange(s.len() as int, t.len() as int) =~= r);
}

proof fn lemma_num_scan_sound(t: Seq<char>)
    requires
        num_scan(t) is Some,
    ensures
        ({
            let (n, r) = num_scan(t)->0;
            &&& t == dec_str(n) + r
            &&& n <= 0xffff
            &&& r.len() == 0 || !is_digit(r[0])
        }),
{
    let k = digit_prefix_len(t);
    let (n, r) = num_scan(t)->0;
    lemma_dpl_props(t);
    let s = t.subrange(0, k);
    assert forall|m: int| 0 <= m < s.len() implies is_digit(s[m]) by {
        assert(s[m] == t[m]);
    }
    assert(s[0] == t[0]);
    lemma_dec_canon(s);
    assert(t =~= s + t.subrange(k, t.len() as int));
    if r.len() > 0 {
        assert(r[0] == t[k]);
    }
}

// ---------------------------------------------------------------------------
// JSON string bodies.
// ---------------------------------------------------------------------------
/// Reading an escaped string body up to its closing quote: the decoded
/// characters and the rest after the quote.
pub open spec fn scan_spec(t: Seq<char>) -> Option<(Seq<char>, Seq<char>)>
    decreases t.len(),
{
    if t.len() == 0 {
        None
    } else if t[0] == '"' {
        Some((Seq::empty(), t.drop_first()))
    } else if t[0] == '\\' {
        if t.len() >= 2 && (t[1] == '"' || t[1] == '\\') {
            match scan_spec(t.subrange(2, t.len() as int)) {
                Some(p) => Some((seq![t[1]] + p.0, p.1)),
                None => None,
            }
        } else {
            None
        }
    } else {
        match scan_spec(t.drop_first()) {
            Some(p) => Some((seq![t[0]] + p.0, p.1)),
            None => None,
        }
    }
}

/// Scanning an escaped body followed by its closing quote finds exactly the
/// original characters.
proof fn lemma_scan_complete(d: Seq<char>, r: Seq<char>)
    ensures
        scan_spec(escape(d) + seq!['"'] + r) == Some((d, r)),
    decreases d.len(),
{
    let t = escape(d) + seq!['"'] + r;
    if d.len() == 0 {
        assert(escape(d) =~= Seq::<char>::empty());
        assert(t =~= seq!['"'] + r);
        assert(t[0] == '"');
        assert(t.drop_first() =~= r);
    } else {
        let c = d[0];
        let dp = d.drop_first();
        lemma_scan_complete(dp, r);
        assert(escape(d) == esc_char(c) + escape(dp));
        if c == '"' || c == '\\' {
            assert(t[0] == '\\');
            assert(t[1] == c);
            assert(t.len() >= 2);
            assert(t.subrange(2, t.len() as int) =~= escape(dp) + seq!['"'] + r);
            assert(seq![t[1]] + dp =~= d);
        } else {
            assert(t[0] == c);
            assert(t.drop_first() =~= escape(dp) + seq!['"'] + r);
            assert(seq![t[0]] + dp =~= d);
        }
    }
}

proof fn lemma_scan_sound(t: Seq<char>)
    requires
        scan_spec(t) is Some,
    ensures
        ({
            let (d, r) = scan_spec(t)->0;
            t == escape(d) + seq!['"'] + r
        }),
    decreases t.len(),
{
    let (d, r) = scan_spec(t)->0;
    if t[0] == '"' {
        assert(escape(d) =~= Seq::<char>::empty());
        assert(t =~= escape(d) + seq!['"'] + t.drop_first());
    } else if t[0] == '\\' {
        let t2 = t.subrange(2, t.len() as int);
        lemma_scan_sound(t2);
        let (d2, r2) = scan_spec(t2)->0;
        lemma_escape_concat(seq![t[1]], d2);
        lemma_escape_singleton(t[1]);
        assert(esc_char(t[1]) =~= seq!['\\', t[1]]);
        assert(t =~= seq!['\\', t[1]] + t2);
        assert(t =~= (seq!['\\', t[1]] + escape(d2)) + seq!['"'] + r2);
        assert(escape(d) =~= seq!['\\', t[1]] + escape(d2));
        assert(t =~= escape(d) + seq!['"'] + r);
    } else {
        let t1 = t.drop_first();
        lemma_scan_sound(t1);
        let (d2, r2) = scan_spec(t1)->0;
        lemma_escape_concat(seq![t[0]], d2);
        lemma_escape_singleton(t[0]);
        assert(esc_char(t[0]) =~= seq![t[0]]);
        assert(t =~= seq![t[0]] + t1);
        assert(t =~= (seq![t[0]] + escape(d2)) + seq!['"'] + r2);
        assert(escape(d) =~= seq![t[0]] + escape(d2));
        assert(t =~= escape(d) + seq!['"'] + r);
    }
}

// ---------------------------------------------------------------------------
// Executable scanners.
// ---------------------------------------------------------------------------
pub(crate) fn str_to_chars(s: &str) -> (v: Vec<char>)
    ensures
        v@ == s@,
{
    let n = s.unicode_len();
    let mut v: Vec<char> = Vec::new();
    let mut i: usize = 0;
    proof {
        assert(v@ =~= s@.subrange(0, 0));
    }
    while i < n
        invariant
            i <= n,
            n == s@.len(),
            v@ == s@.subrange(0, i as int),
        decreases n - i,
    {
        v.push(s.get_char(i));
        proof {
            assert(s@.subrange(0, i + 1) =~= s@.subrange(0, i as int).push(s@[i as int]));
        }
        i += 1;
    }
    proof {
        assert(s@.subrange(0, n as int) =~= s@);
    }
    v
}

pub(crate) fn chars_to_string(v: &Vec<char>) -> (s: String)
    ensures
        s@ == v@,
{
    let mut s = String::new();
    let mut i: usize = 0;
    proof {
        assert(s@ =~= v@.subrange(0, 0));
    }
    while i < v.len()
        invariant
            i <= v@.len(),
            s@ == v@.subrange(0, i as int),
        decreases v@.len() - i,
    {
        push_char(&mut s, v[i]);
        proof {
            assert(v@.subrange(0, i + 1) =~= v@.subrange(0, i as int).push(v@[i as int]));
        }
        i += 1;
    }
    proof {
        assert(v@.subrange(0, v@.len() as int) =~= v@);
    }
    s
}

/// Whether the characters of `lit` stand at position `i` of `v`.
pub(crate) fn match_lit(v: &Vec<char>, i: usize, lit: &str) -> (b: bool)
    requires
        i <= v@.len(),
    ensures
        b == (i + lit@.len() <= v@.len() && v@.subrange(i as int, i + lit@.len()) == lit@),
{
    let n = lit.unicode_len();
    let vn = v.len();
    if n > vn - i {
        return false;
    }
    let mut k: usize = 0;
    while k < n
        invariant
            k <= n,
            i + n <= vn,
            vn == v@.len(),
            n == lit@.len(),
            forall|m: int| 0 <= m < k ==> v@[i + m] == lit@[m],
        decreases n - k,
    {
        if v[i + k] != lit.get_char(k) {
            proof {
                assert(v@.subrange(i as int, i + lit@.len())[k as int] == v@[i + k]);
            }
            return false;
        }
        k += 1;
    }
    proof {
        assert(v@.subrange(i as int, i + lit@.len()) =~= lit@);
    }
    true
}

fn is_digit_exec(c: char) -> (b: bool)
    ensures
        b == is_digit(c),
{
    c == '0' || c == '1' || c == '2' || c == '3' || c == '4' || c == '5' || c == '6' || c == '7'
        || c == '8' || c == '9'
}

fn digit_val_exec(c: char) -> (d: u8)
    requires
        is_digit(c),
    ensures
        d as nat == digit_val(c),
{
    if c == '0' {
        0
    } else if c == '1' {
        1
    } else if c == '2' {
        2
    } else if c == '3' {
        3
    } else if c == '4' {
        4
    } else if c == '5' {
        5
    } else if c == '6' {
        6
    } else if c == '7' {
        7
    } else if c == '8' {
        8
    } else {
        9
    }
}

proof fn lemma_dpl_lower(t: Seq<char>, k: int)
    requires
        0 <= k <= t.len(),
        forall|m: int| 0 <= m < k ==> is_digit(t[m]),
    ensures
        digit_prefix_len(t) >= k,
    decreases k,
{
    lemma_dpl_props(t);
    if k > 0 {
        assert(is_digit(t[0]));
        assert forall|m: int| 0 <= m < k - 1 implies is_digit(t.drop_first()[m]) by {
            assert(t.drop_first()[m] == t[m + 1]);
        }
        lemma_dpl_lower(t.drop_first(), k - 1);
    }
}

/// Reads a canonical `u16` starting at `i`: the number and the index after
/// its digits.
pub(crate) fn scan_u16(v: &Vec<char>, i: usize) -> (r: Option<(u16, usize)>)
    requires
        i <= v@.len(),
    ensures
        r matches Some(p) ==> i <= p.1 <= v@.len() && num_scan(
            v@.subrange(i as int, v@.len() as int),
        ) == Some((p.0 as nat, v@.subrange(p.1 as int, v@.len() as int))),
        r is None ==> num_scan(v@.subrange(i as int, v@.len() as int)) is None,
{
    let ghost t = v@.subrange(i as int, v@.len() as int);
    let mut j: usize = i;
    let mut acc: u32 = 0;
    proof {
        assert(dec_value(v@.subrange(i as int, i as int)) == 0);
    }
    while j < v.len() && is_digit_exec(v[j])
        invariant
            i <= j <= v@.len(),
            forall|m: int| i <= m < j ==> is_digit(v@[m]),
            acc as nat == dec_value(v@.subrange(i as int, j as int)),
            acc <= 0xffff,
            t == v@.subrange(i as int, v@.len() as int),
        decreases v@.len() - j,
    {
        let d = digit_val_exec(v[j]);
        let na: u32 = acc * 10 + (d as u32);
        proof {
            assert(v@.subrange(i as int, j + 1).drop_last() =~= v@.subrange(i as int, j as int));
            assert(v@.subrange(i as int, j + 1).last() == v@[j as int]);
        }
        if na > 0xffff {
            proof {
                assert forall|m: int| 0 <= m < j - i + 1 implies is_digit(t[m]) by {
                    assert(t[m] == v@[i + m]);
                }
                lemma_dpl_lower(t, j - i + 1);
                lemma_dpl_props(t);
                let k = digit_prefix_len(t);
                assert(t.subrange(0, j - i + 1) =~= v@.subrange(i as int, j + 1));
                assert(t.subrange(0, k).subrange(0, j - i + 1) =~= t.subrange(0, j - i + 1));
                lemma_dec_value_prefix_le(t.subrange(0, k), j - i + 1);
                assert(dec_value(t.subrange(0, k)) > 0xffff);
            }
            return None;
        }
        acc = na;
        j += 1;
    }
    proof {
        assert forall|m: int| 0 <= m < j - i implies is_digit(t[m]) by {
            assert(t[m] == v@[i + m]);
        }
        if j < v@.len() {
            assert(t[j - i] == v@[j as int]);
        }
        lemma_dpl_unique(t, j - i);
        assert(t.subrange(0, j - i) =~= v@.subrange(i as int, j as int));
    }
    if j == i {
        return None;
    }
    if v[i] == '0' && j > i + 1 {
        proof {
            assert(t[0] == v@[i as int]);
        }
        return None;
    }
    proof {
        assert(t[0] == v@[i as int]);
        assert(t.subrange(j - i, t.len() as int) =~= v@.subrange(j as int, v@.len() as int));
    }
    Some((acc as u16, j))
}

/// Reads an escaped string body starting at `i`, up to and including its
/// closing quote: the decoded characters and the index after the quote.
pub(crate) fn scan_string(v: &Vec<char>, i: usize) -> (r: Option<(Vec<char>, usize)>)
    requires
        i <= v@.len(),
    ensures
        r matches Some(p) ==> i <= p.1 <= v@.len() && scan_spec(
            v@.subrange(i as int, v@.len() as int),
        ) == Some((p.0@, v@.subrange(p.1 as int, v@.len() as int))),
        r is None ==> scan_spec(v@.subrange(i as int, v@.len() as int)) is None,
    decreases v@.len() - i,
{
    let ghost t = v@.subrange(i as int, v@.len() as int);
    if i == v.len() {
        return None;
    }
    proof {
        assert(t[0] == v@[i as int]);
    }
    let c = v[i];
    if c == '"' {
        let d: Vec<char> = Vec::new();
        proof {
            assert(t.drop_first() =~= v@.subrange(i + 1, v@.len() as int));
            assert(d@ =~= Seq::<char>::empty());
        }
        Some((d, i + 1))
    } else if c == '\\' {
        if i + 1 == v.len() {
            return None;
        }
        proof {
            assert(t[1] == v@[i + 1]);
        }
        let c2 = v[i + 1];
        if c2 == '"' || c2 == '\\' {
            proof {
                assert(t.subrange(2, t.len() as int) =~= v@.subrange(i + 2, v@.len() as int));
            }
            match scan_string(v, i + 2) {
                Some((d, j)) => {
                    let mut d = d;
                    d.insert(0, c2);
                    proof {
                        assert(d@ =~= seq![t[1]] + d@.subrange(1, d@.len() as int));
                    }
                    Some((d, j))
                },
                None => None,
            }
        } else {
            None
        }
    } else {
        proof {
            assert(t.drop_first() =~= v@.subrange(i + 1, v@.len() as int));
        }
        match scan_string(v, i + 1) {
            Some((d, j)) => {
                let mut d = d;
                d.insert(0, c);
                proof {
                    assert(d@ =~= seq![t[0]] + d@.subrange(1, d@.len() as int));
                }
                Some((d, j))
            },
            None => None,
        }
    }
}

// ---------------------------------------------------------------------------
// Field parsers: each consumes the rest of the input after a matched message
// prefix and accepts exactly the canonical encodings.
// ---------------------------------------------------------------------------
/// The rest of a provision command: an escaped uuid and the closing `"}`.
fn parse_provision_tail(v: &Vec<char>, i: usize) -> (r: Option<String>)
    requires
        i <= v@.len(),
    ensures
        r matches Some(dstr) ==> v@.subrange(i as int, v@.len() as int) == escape(dstr@) + "\"}"@,
        forall|dev: Seq<char>|
            v@.subrange(i as int, v@.len() as int) == escape(dev) + "\"}"@ ==> (r matches Some(
                dstr,
            ) && dstr@ == dev),
{
    let ghost t = v@.subrange(i as int, v@.len() as int);
    proof {
        reveal_strlit("\"}");
        assert("\"}"@ =~= seq!['"'] + seq!['}']);
        assert forall|dev: Seq<char>| t == escape(dev) + "\"}"@ implies scan_spec(t) == Some(
            (dev, seq!['}']),
        ) by {
            lemma_scan_complete(dev, seq!['}']);
            assert(escape(dev) + "\"}"@ =~= escape(dev) + seq!['"'] + seq!['}']);
        }
    }
    match scan_string(v, i) {
        Some((d, j)) => {
            if j < v.len() && j + 1 == v.len() && v[j] == '}' {
                let dstr = chars_to_string(&d);
                proof {
                    lemma_scan_sound(t);
                    assert(v@.subrange(j as int, v@.len() as int) =~= seq!['}']);
                    assert(t =~= escape(d@) + seq!['"'] + seq!['}']);
                    assert(t =~= escape(d@) + "\"}"@);
                }
                Some(dstr)
            } else {
                proof {
                    assert forall|dev: Seq<char>| t != escape(dev) + "\"}"@ by {
                        if t == escape(dev) + "\"}"@ {
                            assert(scan_spec(t) == Some((dev, seq!['}'])));
                            assert(v@.subrange(j as int, v@.len() as int) == seq!['}']);
                            assert(v@.len() - j == 1);
                            assert(v@[j as int] == v@.subrange(j as int, v@.len() as int)[0]);
                        }
                    }
                }
                None
            }
        },
        None => {
            proof {
                assert forall|dev: Seq<char>| t != escape(dev) + "\"}"@ by {
                    if t == escape(dev) + "\"}"@ {
                        assert(scan_spec(t) == Some((dev, seq!['}'])));
                    }
                }
            }
            None
        },
    }
}

/// The rest of a numeric field: a canonical `u16` and the closing characters
/// of the message.
fn parse_num_tail(v: &Vec<char>, i: usize, close: &str) -> (r: Option<u16>)
    requires
        i <= v@.len(),
        close@.len() > 0,
        !is_digit(close@[0]),
    ensures
        r matches Some(n) ==> v@.subrange(i as int, v@.len() as int) == dec_str(n as nat) + close@,
        forall|n: u16|
            v@.subrange(i as int, v@.len() as int) == dec_str(n as nat) + close@ ==> (
            r matches Some(m) && m == n),
{
    let ghost t = v@.subrange(i as int, v@.len() as int);
    proof {
        assert forall|n: u16| t == dec_str(n as nat) + close@ implies num_scan(t) == Some(
            ((n as nat), close@),
        ) by {
            lemma_num_scan_complete(n as nat, close@);
        }
    }
    match scan_u16(v, i) {
        Some((n, j)) => {
            let cn = close.unicode_len();
            if match_lit(v, j, close) {
                if v.len() - j == cn {
                    proof {
                        lemma_num_scan_sound(t);
                        assert(v@.subrange(j as int, v@.len() as int) =~= close@);
                    }
                    Some(n)
                } else {
                    proof {
                        assert forall|m: u16| t != dec_str(m as nat) + close@ by {
                            if t == dec_str(m as nat) + close@ {
                                assert(v@.subrange(j as int, v@.len() as int) == close@);
                            }
                        }
                    }
                    None
                }
            } else {
                proof {
                    assert forall|m: u16| t != dec_str(m as nat) + close@ by {
                        if t == dec_str(m as nat) + close@ {
                            assert(v@.subrange(j as int, v@.len() as int) == close@);
                            assert(v@.subrange(j as int, j + close@.len()) =~= close@);
                        }
                    }
                }
                None
            }
        },
        None => {
            proof {
                assert forall|m: u16| t != dec_str(m as nat) + close@ by {}
            }
            None
        },
    }
}

/// The rest of an `"error":` field: `null` or an escaped string, and the
/// closing `}}`.
fn parse_error_tail(v: &Vec<char>, i: usize) -> (r: Option<Option<String>>)
    requires
        i <= v@.len(),
    ensures
        r matches Some(e) ==> v@.subrange(i as int, v@.len() as int) == ser_error(e.deep_view())
            + "}}"@,
        forall|ev: Option<Seq<char>>|
            v@.subrange(i as int, v@.len() as int) == ser_error(ev) + "}}"@ ==> (r matches Some(
                e,
            ) && e.deep_view() == ev),
{
    let ghost t = v@.subrange(i as int, v@.len() as int);
    proof {
        reveal_strlit("null}}");
        reveal_strlit("null");
        reveal_strlit("}}");
        reveal_strlit("\"");
        assert("null"@ + "}}"@ =~= "null}}"@);
        assert forall|ev: Option<Seq<char>>| t == ser_error(ev) + "}}"@ && ev is Some implies (
        t.len() > 0 && t[0] == '"' && t.subrange(1, t.len() as int) == escape(ev->0) + "\""@
            + "}}"@) by {
            assert(t[0] == ("\""@ + escape(ev->0) + "\""@ + "}}"@)[0]);
            assert(t.subrange(1, t.len() as int) =~= escape(ev->0) + "\""@ + "}}"@);
        }
    }
    if match_lit(v, i, "null}}") {
        if v.len() - i == 6 {
            proof {
                assert(t =~= "null}}"@);
                assert(t =~= ser_error(None::<Seq<char>>) + "}}"@);
                assert forall|ev: Option<Seq<char>>| t == ser_error(ev) + "}}"@ implies ev
                    is None by {
                    if ev is Some {
                        assert(t[0] == '"');
                        assert(t[0] == 'n');
                    }
                }
            }
            Some(None)
        } else {
            proof {
                assert forall|ev: Option<Seq<char>>| t != ser_error(ev) + "}}"@ by {
                    if t == ser_error(ev) + "}}"@ {
                        if ev is None {
                            assert(t =~= "null}}"@);
                        } else {
                            assert(t[0] == '"');
                            assert(v@.subrange(i as int, i + 6) =~= t.subrange(0, 6));
                            assert(t[0] == 'n');
                        }
                    }
                }
            }
            None
        }
    } else if i < v.len() && v[i] == '"' {
        proof {
            assert(t[0] == v@[i as int]);
            assert(t.subrange(1, t.len() as int) =~= v@.subrange(i + 1, v@.len() as int));
            assert forall|ev: Option<Seq<char>>|
                t == ser_error(ev) + "}}"@ && ev is Some implies scan_spec(
                v@.subrange(i + 1, v@.len() as int),
            ) == Some((ev->0, "}}"@)) by {
                lemma_scan_complete(ev->0, "}}"@);
                assert(escape(ev->0) + "\""@ + "}}"@ =~= escape(ev->0) + seq!['"'] + "}}"@);
            }
        }
        match scan_string(v, i + 1) {
            Some((d, j)) => {
                if match_lit(v, j, "}}") {
                    if v.len() - j == 2 {
                        let estr = chars_to_string(&d);
                        proof {
                            lemma_scan_sound(v@.subrange(i + 1, v@.len() as int));
                            assert(v@.subrange(j as int, v@.len() as int) =~= "}}"@);
                            assert(v@.subrange(j as int, j + 2) =~= v@.subrange(
                                j as int,
                                v@.len() as int,
                            ));
                            assert(t =~= seq!['"'] + (escape(d@) + seq!['"'] + "}}"@));
                            assert("\""@ =~= seq!['"']);
                            assert(t =~= ("\""@ + escape(d@) + "\""@) + "}}"@);
                            assert(Some(estr).deep_view() == Some(d@));
                            assert forall|ev: Option<Seq<char>>|
                                t == ser_error(ev) + "}}"@ implies ev == Some(d@) by {
                                if ev is None {
                                    assert(t =~= "null}}"@);
                                    assert(t[0] == 'n');
                                } else {
                                    assert(ev->0 == d@);
                                }
                            }
                        }
                        Some(Some(estr))
                    } else {
                        proof {
                            assert forall|ev: Option<Seq<char>>| t != ser_error(ev) + "}}"@ by {
                                if t == ser_error(ev) + "}}"@ {
                                    if ev is None {
                                        assert(t =~= "null}}"@);
                                        assert(t[0] == 'n');
                                    } else {
                                        assert(v@.subrange(j as int, v@.len() as int) == "}}"@);
                                    }
                                }
                            }
                        }
                        None
                    }
                } else {
                    proof {
                        assert forall|ev: Option<Seq<char>>| t != ser_error(ev) + "}}"@ by {
                            if t == ser_error(ev) + "}}"@ {
                                if ev is None {
                                    assert(t =~= "null}}"@);
                                    assert(t[0] == 'n');
                                } else {
                                    assert(v@.subrange(j as int, v@.len() as int) == "}}"@);
                                    assert(v@.subrange(j as int, j + 2) =~= "}}"@);
                                }
                            }
                        }
                    }
                    None
                }
            },
            None => {
                proof {
                    assert forall|ev: Option<Seq<char>>| t != ser_error(ev) + "}}"@ by {
                        if t == ser_error(ev) + "}}"@ && ev is None {
                            assert(t =~= "null}}"@);
                            assert(t[0] == 'n');
                        }
                    }
                }
                None
            },
        }
    } else {
        proof {
            assert forall|ev: Option<Seq<char>>| t != ser_error(ev) + "}}"@ by {
                if t == ser_error(ev) + "}}"@ {
                    if ev is None {
                        assert(t =~= "null}}"@);
                        assert(v@.subrange(i as int, i + 6) =~= t.subrange(0, 6));
                    } else {
                        assert(t[0] == v@[i as int]);
                    }
                }
            }
        }
        None
    }
}

// ---------------------------------------------------------------------------
// Message parsers.
// ---------------------------------------------------------------------------
/// Parses a command payload. Returns `Some` exactly on the canonical
/// encodings of `ser_command`, and then the parsed command round-trips:
/// parsing a serialized command yields the original.
pub fn parse_command(s: &str) -> (r: Option<BtMeshCommand>)
    ensures
        r matches Some(c) ==> s@ == ser_command(c@),
        forall|cv: BtMeshCommandView|
            s@ == ser_command(cv) ==> (r matches Some(c) && c@ == cv),
{
    let v = str_to_chars(s);
    let lp = "{\"command\":\"provision\",\"device\":\"";
    let lr = "{\"command\":\"reset\",\"address\":";
    proof {
        assert forall|cv: BtMeshCommandView|
            s@ == ser_command(cv) && cv.command is Provision implies (s@.subrange(
            0,
            lp@.len() as int,
        ) == lp@ && s@.subrange(lp@.len() as int, s@.len() as int) == escape(cv.command->Provision_device)
            + "\"}"@) by {
            assert(s@.subrange(0, lp@.len() as int) =~= lp@);
            assert(s@.subrange(lp@.len() as int, s@.len() as int) =~= escape(
                cv.command->Provision_device,
            ) + "\"}"@);
        }
        assert forall|cv: BtMeshCommandView|
            s@ == ser_command(cv) && cv.command is Reset implies (s@.subrange(0, lr@.len() as int)
            == lr@ && s@.subrange(lr@.len() as int, s@.len() as int) == dec_str(
            cv.command->Reset_address as nat,
        ) + "}"@) by {
            assert(s@.subrange(0, lr@.len() as int) =~= lr@);
            assert(s@.subrange(lr@.len() as int, s@.len() as int) =~= dec_str(
                cv.command->Reset_address as nat,
            ) + "}"@);
        }
    }
    if match_lit(&v, 0, lp) {
        let p = lp.unicode_len();
        let dev = parse_provision_tail(&v, p);
        proof {
            assert forall|cv: BtMeshCommandView| s@ == ser_command(cv) implies cv.command
                is Provision by {
                if cv.command is Reset {
                    reveal_strlit("{\"command\":\"provision\",\"device\":\"");
                    reveal_strlit("{\"command\":\"reset\",\"address\":");
                    assert(s@[12] == lp@[12]);
                    assert(s@[12] == lr@[12]);
                }
            }
        }
        match dev {
            Some(dstr) => {
                let c = BtMeshCommand {
                    command: BtMeshOperation::Provision { device: dstr },
                };
                proof {
                    assert(s@ =~= lp@ + v@.subrange(p as int, v@.len() as int));
                    assert(s@ == ser_command(c@));
                    assert forall|cv: BtMeshCommandView| s@ == ser_command(cv) implies cv == c@ by {
                        assert(cv =~= c@);
                    }
                }
                Some(c)
            },
            None => {
                proof {
                    assert forall|cv: BtMeshCommandView| s@ != ser_command(cv) by {}
                }
                None
            },
        }
    } else if match_lit(&v, 0, lr) {
        let p = lr.unicode_len();
        proof {
            assert forall|cv: BtMeshCommandView| s@ == ser_command(cv) implies cv.command
                is Reset by {}
            reveal_strlit("}");
            assert("}"@.len() == 1);
            assert(!is_digit("}"@[0]));
        }
        match parse_num_tail(&v, p, "}") {
            Some(n) => {
                let c = BtMeshCommand {
                    command: BtMeshOperation::Reset { address: n },
                };
                proof {
                    assert(s@ =~= lr@ + v@.subrange(p as int, v@.len() as int));
                    assert(s@ == ser_command(c@));
                    assert forall|cv: BtMeshCommandView| s@ == ser_command(cv) implies cv == c@ by {
                        assert(cv =~= c@);
                    }
                }
                Some(c)
            },
            None => {
                proof {
                    assert forall|cv: BtMeshCommandView| s@ != ser_command(cv) by {}
                }
                None
            },
        }
    } else {
        proof {
            assert forall|cv: BtMeshCommandView| s@ != ser_command(cv) by {}
        }
        None
    }
}

/// Parses an event payload. Returns `Some` exactly on the canonical
/// encodings of `ser_event`, and then the parsed event round-trips:
/// parsing a serialized event yields the original.
pub fn parse_event(s: &str) -> (r: Option<BtMeshEvent>)
    ensures
        r matches Some(e) ==> s@ == ser_event(e@),
        forall|ev: BtMeshEventView| s@ == ser_event(ev) ==> (r matches Some(e) && e@ == ev),
{
    let v = str_to_chars(s);
    let l1 = "{\"status\":{\"type\":\"provisioning\",\"error\":";
    let l2 = "{\"status\":{\"type\":\"provisioned\",\"address\":";
    let l3 = "{\"status\":{\"type\":\"reset\",\"error\":";
    proof {
        assert forall|ev: BtMeshEventView|
            s@ == ser_event(ev) && ev.status is Provisioning implies (s@.subrange(
            0,
            l1@.len() as int,
        ) == l1@ && s@.subrange(l1@.len() as int, s@.len() as int) == ser_error(
            ev.status->Provisioning_error,
        ) + "}}"@) by {
            assert(s@.subrange(0, l1@.len() as int) =~= l1@);
            assert(s@.subrange(l1@.len() as int, s@.len() as int) =~= ser_error(
                ev.status->Provisioning_error,
            ) + "}}"@);
        }
        assert forall|ev: BtMeshEventView|
            s@ == ser_event(ev) && ev.status is Provisioned implies (s@.subrange(
            0,
            l2@.len() as int,
        ) == l2@ && s@.subrange(l2@.len() as int, s@.len() as int) == dec_str(
            ev.status->Provisioned_address as nat,
        ) + "}}"@) by {
            assert(s@.subrange(0, l2@.len() as int) =~= l2@);
            assert(s@.subrange(l2@.len() as int, s@.len() as int) =~= dec_str(
                ev.status->Provisioned_address as nat,
            ) + "}}"@);
        }
        assert forall|ev: BtMeshEventView|
            s@ == ser_event(ev) && ev.status is Reset implies (s@.subrange(0, l3@.len() as int)
            == l3@ && s@.subrange(l3@.len() as int, s@.len() as int) == ser_error(
            ev.status->Reset_error,
        ) + "}}"@) by {
            assert(s@.subrange(0, l3@.len() as int) =~= l3@);
            assert(s@.subrange(l3@.len() as int, s@.len() as int) =~= ser_error(
                ev.status->Reset_error,
            ) + "}}"@);
        }
    }
    if match_lit(&v, 0, l1) {
        let p = l1.unicode_len();
        proof {
            assert forall|ev: BtMeshEventView| s@ == ser_event(ev) implies ev.status
                is Provisioning by {
                reveal_strlit("{\"status\":{\"type\":\"provisioning\",\"error\":");
                reveal_strlit("{\"status\":{\"type\":\"provisioned\",\"address\":");
                reveal_strlit("{\"status\":{\"type\":\"reset\",\"error\":");
                if ev.status is Provisioned {
                    assert(s@[28] == l1@[28]);
                    assert(s@[28] == l2@[28]);
                }
                if ev.status is Reset {
                    assert(s@[19] == l1@[19]);
                    assert(s@[19] == l3@[19]);
                }
            }
        }
        match parse_error_tail(&v, p) {
            Some(err) => {
                let e = BtMeshEvent { status: BtMeshDeviceState::Provisioning { error: err } };
                proof {
                    assert(s@ =~= l1@ + v@.subrange(p as int, v@.len() as int));
                    assert(s@ == ser_event(e@));
                    assert forall|ev: BtMeshEventView| s@ == ser_event(ev) implies ev == e@ by {
                        assert(ev =~= e@);
                    }
                }
                Some(e)
            },
            None => {
                proof {
                    assert forall|ev: BtMeshEventView| s@ != ser_event(ev) by {}
                }
                None
            },
        }
    } else if match_lit(&v, 0, l2) {
        let p = l2.unicode_len();
        proof {
            assert forall|ev: BtMeshEventView| s@ == ser_event(ev) implies ev.status
                is Provisioned by {
                reveal_strlit("{\"status\":{\"type\":\"provisioned\",\"address\":");
                reveal_strlit("{\"status\":{\"type\":\"reset\",\"error\":");
                if ev.status is Reset {
                    assert(s@[19] == l2@[19]);
                    assert(s@[19] == l3@[19]);
                }
            }
            reveal_strlit("}}");
            assert("}}"@.len() == 2);
            assert(!is_digit("}}"@[0]));
        }
        match parse_num_tail(&v, p, "}}") {
            Some(n) => {
                let e = BtMeshEvent { status: BtMeshDeviceState::Provisioned { address: n } };
                proof {
                    assert(s@ =~= l2@ + v@.subrange(p as int, v@.len() as int));
                    assert(s@ == ser_event(e@));
                    assert forall|ev: BtMeshEventView| s@ == ser_event(ev) implies ev == e@ by {
                        assert(ev =~= e@);
                    }
                }
                Some(e)
            },
            None => {
                proof {
                    assert forall|ev: BtMeshEventView| s@ != ser_event(ev) by {}
                }
                None
            },
        }
    } else if match_lit(&v, 0, l3) {
        let p = l3.unicode_len();
        proof {
            assert forall|ev: BtMeshEventView| s@ == ser_event(ev) implies ev.status is Reset by {}
        }
        match parse_error_tail(&v, p) {
            Some(err) => {
                let e = BtMeshEvent { status: BtMeshDeviceState::Reset { error: err } };
                proof {
                    assert(s@ =~= l3@ + v@.subrange(p as int, v@.len() as int));
                    assert(s@ == ser_event(e@));
                    assert forall|ev: BtMeshEventView| s@ == ser_event(ev) implies ev == e@ by {
                        assert(ev =~= e@);
                    }
                }
                Some(e)
            },
            None => {
                proof {
                    assert forall|ev: BtMeshEventView| s@ != ser_event(ev) by {}
                }
                None
            },
        }
    } else {
        proof {
            assert forall|ev: BtMeshEventView| s@ != ser_event(ev) by {}
        }
        None
    }
}

} // verus!
