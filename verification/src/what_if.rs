//! What-if layers: the checks a layer must pass, how layers are matched to
//! the plan they are applied to, and the names of the events they add.
use vstd::prelude::*;

use crate::effects::{first_where, lemma_first_at, lemma_first_none, unit_interval_open};
use crate::error::{joined, owned, ApiError};
use crate::rows::AccountRow;
use crate::text::{decimal, digit_char, format_i64, format_u64, same_text, signed_decimal, views};

verus! {

/// The `k`-th name tried for `base`: `base` itself, then `base (2)`,
/// `base (3)`, and so on.
pub open spec fn candidate(base: Seq<char>, k: int) -> Seq<char> {
    if k < 2 {
        base
    } else {
        base + " ("@ + decimal(k as nat) + ")"@
    }
}

proof fn lemma_decimal_len(n: nat)
    ensures
        decimal(n).len() >= 1,
        n >= 10 ==> decimal(n).len() >= 2,
    decreases n,
{
    if n >= 10 {
        lemma_decimal_len(n / 10);
    }
}

proof fn lemma_digit_injective(x: nat, y: nat)
    requires
        x < 10,
        y < 10,
        digit_char(x) == digit_char(y),
    ensures
        x == y,
{
}

proof fn lemma_decimal_injective(a: nat, b: nat)
    requires
        decimal(a) == decimal(b),
    ensures
        a == b,
    decreases a,
{
    lemma_decimal_len(a);
    lemma_decimal_len(b);
    if a < 10 && b < 10 {
        assert(decimal(a) == seq![digit_char(a)]);
        assert(decimal(b) == seq![digit_char(b)]);
        assert(decimal(a)[0] == digit_char(a));
        assert(decimal(b)[0] == digit_char(b));
        lemma_digit_injective(a, b);
    } else if a >= 10 && b >= 10 {
        assert(decimal(a).drop_last() == decimal(a / 10));
        assert(decimal(b).drop_last() == decimal(b / 10));
        lemma_decimal_injective(a / 10, b / 10);
        assert(decimal(a) == decimal(a / 10).push(digit_char(a % 10)));
        assert(decimal(b) == decimal(b / 10).push(digit_char(b % 10)));
        assert(decimal(a).last() == digit_char(a % 10));
        assert(decimal(b).last() == digit_char(b % 10));
        lemma_digit_injective(a % 10, b % 10);
    } else {
        assert(decimal(a).len() == decimal(b).len());
    }
}

proof fn lemma_candidates_distinct(base: Seq<char>, j: int, k: int)
    requires
        1 <= j < k,
    ensures
        candidate(base, j) != candidate(base, k),
{
    reveal_strlit(" (");
    reveal_strlit(")");
    lemma_decimal_len(k as nat);
    if j >= 2 {
        lemma_decimal_len(j as nat);
        if candidate(base, j) == candidate(base, k) {
            let cj = candidate(base, j);
            let ck = candidate(base, k);
            assert(" ("@.len() == 2);
            assert(")"@.len() == 1);
            assert(cj.len() == base.len() + 2 + decimal(j as nat).len() + 1);
            assert(ck.len() == base.len() + 2 + decimal(k as nat).len() + 1);
            assert(decimal(j as nat).len() == decimal(k as nat).len());
            let lo: int = base.len() + 2int;
            let hi: int = lo + decimal(j as nat).len();
            assert(cj.subrange(lo, hi) == decimal(j as nat));
            assert(ck.subrange(lo, hi) == decimal(k as nat));
            lemma_decimal_injective(j as nat, k as nat);
        }
    } else {
        assert(candidate(base, k).len() > base.len());
    }
}

/// `base`, or `base (2)`, `base (3)`... whichever is free first; the name is
/// then taken. Event names are unique within a plan.
pub fn unique_name(taken: &mut Vec<String>, base: String) -> (r: String)
    requires
        old(taken)@.len() <= i32::MAX - 2,
    ensures
        exists|n: int|
            n >= 1 && r@ == candidate(base@, n) && !views(old(taken)@).contains(r@) && forall|k: int|
                1 <= k < n ==> views(old(taken)@).contains(#[trigger] candidate(base@, k)),
        views(final(taken)@) == views(old(taken)@).push(r@),
{
    broadcast use vstd::set::group_set_axioms;

    let ghost t = views(taken@);
    let mut name = base.clone();
    let mut n: u64 = 2;
    let ghost mut seen: Set<Seq<char>> = Set::empty();
    let mut free = false;
    while !free
        invariant
            t == views(taken@),
            2 <= n,
            name@ == candidate(base@, n - 1),
            free ==> !t.contains(name@),
            forall|k: int| 1 <= k < n - 1 ==> t.contains(#[trigger] candidate(base@, k)),
            seen == Set::new(|s: Seq<char>| exists|k: int| 1 <= k < n - 1 && s == candidate(base@, k)),
            seen.finite(),
            seen.len() == n - 2,
            n <= t.len() + 2,
            t.len() <= i32::MAX - 2,
        decreases t.len() + 3 - n + if free { 0int } else { 1int },
    {
        let mut hit = false;
        let mut i: usize = 0;
        while i < taken.len() && !hit
            invariant
                i <= taken@.len(),
                t == views(taken@),
                hit ==> t.contains(name@),
                !hit ==> forall|j: int| 0 <= j < i ==> t[j] != name@,
            decreases taken@.len() - i,
        {
            if same_text(taken[i].as_str(), name.as_str()) {
                assert(t[i as int] == name@);
                hit = true;
            }
            i = i + 1;
        }
        if !hit {
            free = true;
        } else {
            proof {
                let s2 = seen.insert(name@);
                assert(!seen.contains(name@)) by {
                    if seen.contains(name@) {
                        let k = choose|k: int| 1 <= k < n - 1 && name@ == candidate(base@, k);
                        lemma_candidates_distinct(base@, k, n - 1);
                    }
                }
                assert(s2.len() == n - 1);
                assert(s2.subset_of(t.to_set())) by {
                    assert forall|s: Seq<char>| s2.contains(s) implies t.to_set().contains(s) by {
                        if s != name@ {
                            let k = choose|k: int| 1 <= k < n - 1 && s == candidate(base@, k);
                            assert(t.contains(candidate(base@, k)));
                        }
                    }
                }
                vstd::seq_lib::seq_to_set_is_finite(t);
                vstd::set_lib::lemma_len_subset(s2, t.to_set());
                t.lemma_cardinality_of_set();
                seen = s2;
                assert(seen == Set::new(|s: Seq<char>| exists|k: int| 1 <= k < n && s == candidate(base@, k))) by {
                    assert forall|s: Seq<char>| seen.contains(s) <==> (exists|k: int| 1 <= k < n && s == candidate(base@, k)) by {
                        if s == name@ {
                            assert(s == candidate(base@, n - 1));
                        }
                        if exists|k: int| 1 <= k < n && s == candidate(base@, k) {
                            let k = choose|k: int| 1 <= k < n && s == candidate(base@, k);
                            if k < n - 1 {
                                assert(exists|k2: int| 1 <= k2 < n - 1 && s == candidate(base@, k2));
                            }
                        }
                    }
                }
            }
            let digits = format_u64(n);
            let mut next = joined(base.as_str(), " (");
            next.append(digits.as_str());
            next.append(")");
            name = next;
            n = n + 1;
        }
    }
    let result = name.clone();
    taken.push(name);
    proof {
        assert(views(taken@) == t.push(result@));
    }
    result
}

/// A what-if applies at most this many layers.
pub const MAX_LAYERS: usize = 8;

/// One change a what-if makes to a plan. Numbers are carried as the bit
/// patterns of their IEEE 754 doubles.
#[derive(Debug, Clone, Copy, PartialEq, Eq, Structural)]
pub enum WhatIfLayer {
    /// Override a named parameter of the plan.
    Parameter { parameter_id: i64, value_bits: u64 },
    /// Markets drop by a fraction at an age.
    MarketShock { age: u8, drop_bits: u64 },
    /// Money comes in (or goes out, when negative) once at an age.
    OneOff { age: u8, amount_bits: u64, account_id: Option<i64> },
}

/// A layer matched to its plan: a parameter by its place among the plan's
/// parameters, a one-off by the account the money moves through.
#[derive(Debug, Clone, Copy, PartialEq, Eq, Structural)]
pub enum ResolvedLayer {
    Parameter { index: usize, value_bits: u64 },
    MarketShock { age: u8, drop_bits: u64 },
    OneOff { age: u8, amount_bits: u64, account_id: i64 },
}

/// A double's bits without the sign.
pub open spec fn magnitude(bits: u64) -> int {
    if bits >= 0x8000_0000_0000_0000u64 {
        bits - 0x8000_0000_0000_0000u64
    } else {
        bits as int
    }
}

/// A double's bits say it is neither infinite nor NaN.
pub open spec fn finite_bits(bits: u64) -> bool {
    magnitude(bits) < 0x7FF0_0000_0000_0000
}

/// What is wrong with a layer on its own, if anything.
pub open spec fn shape_fault(l: WhatIfLayer) -> Option<Seq<char>> {
    match l {
        WhatIfLayer::Parameter { value_bits, .. } => if !finite_bits(value_bits) {
            Some("a parameter override must be finite"@)
        } else {
            None
        },
        WhatIfLayer::MarketShock { drop_bits, .. } => if !unit_interval_open(drop_bits) {
            Some("a market shock's drop is a fraction between 0 and 1"@)
        } else {
            None
        },
        WhatIfLayer::OneOff { amount_bits, .. } => if !finite_bits(amount_bits) || magnitude(amount_bits) == 0 {
            Some("a one-off needs a non-zero amount"@)
        } else {
            None
        },
    }
}

fn finite(bits: u64) -> (r: bool)
    ensures
        r == finite_bits(bits),
{
    let m = if bits >= 0x8000_0000_0000_0000u64 {
        bits - 0x8000_0000_0000_0000u64
    } else {
        bits
    };
    m < 0x7FF0_0000_0000_0000u64
}

/// The checks that need nothing but the layer itself.
pub fn check_shape(layer: &WhatIfLayer) -> (r: Result<(), ApiError>)
    ensures
        match shape_fault(*layer) {
            None => r is Ok,
            Some(m) => r matches Err(ApiError::BadRequest(x)) && x@ == m,
        },
{
    match layer {
        WhatIfLayer::Parameter { value_bits, .. } => {
            if !finite(*value_bits) {
                return Err(ApiError::bad_request("a parameter override must be finite"));
            }
        },
        WhatIfLayer::MarketShock { drop_bits, .. } => {
            if !(0 < *drop_bits && *drop_bits < 0x3FF0_0000_0000_0000u64) {
                return Err(ApiError::bad_request("a market shock's drop is a fraction between 0 and 1"));
            }
        },
        WhatIfLayer::OneOff { amount_bits, .. } => {
            let zero = *amount_bits == 0 || *amount_bits == 0x8000_0000_0000_0000u64;
            if !finite(*amount_bits) || zero {
                return Err(ApiError::bad_request("a one-off needs a non-zero amount"));
            }
        },
    }
    Ok(())
}

/// A stored stack holds at most this many rows, enabled or not.
pub const MAX_ENTRIES: usize = 16;

/// The longest key a client may give a row, in bytes.
pub const MAX_ENTRY_ID: usize = 64;

/// One row of the stored stack, under a key the client chose.
#[derive(Debug)]
pub struct WhatIfEntry {
    pub id: String,
    pub enabled: bool,
    pub layer: WhatIfLayer,
}

/// The rows a user keeps on top of one scenario.
#[derive(Debug)]
pub struct WhatIfStack {
    pub entries: Vec<WhatIfEntry>,
}

/// The length in bytes that `str::len` reports for a key.
pub open spec fn id_bytes(id: Seq<char>) -> usize {
    vstd::utf8::encode_utf8(id).len() as usize
}

/// What is wrong with one row, if anything: its key first, then its layer.
pub open spec fn entry_fault(e: WhatIfEntry) -> Option<Seq<char>> {
    if e.id@.len() == 0 || id_bytes(e.id@) > MAX_ENTRY_ID {
        Some("each layer needs an id of 1\u{2013}64 characters"@)
    } else {
        shape_fault(e.layer)
    }
}

/// The fault of the first row that has one.
pub open spec fn entries_fault(s: Seq<WhatIfEntry>) -> Option<Seq<char>>
    decreases s.len(),
{
    if s.len() == 0 {
        None
    } else {
        match entries_fault(s.drop_last()) {
            Some(m) => Some(m),
            None => entry_fault(s.last()),
        }
    }
}

/// What is wrong with a stack before it is stored, if anything.
pub open spec fn stack_fault(s: Seq<WhatIfEntry>) -> Option<Seq<char>> {
    if s.len() > MAX_ENTRIES {
        Some("a what-if stack holds at most 16 layers"@)
    } else {
        entries_fault(s)
    }
}

/// The checks a stack passes before it is stored: not too many rows, and
/// each row with a key of the right length and a layer of the right shape.
pub fn check_stack(stack: &WhatIfStack) -> (r: Result<(), ApiError>)
    ensures
        match stack_fault(stack.entries@) {
            None => r is Ok,
            Some(m) => r matches Err(ApiError::BadRequest(x)) && x@ == m,
        },
{
    if stack.entries.len() > MAX_ENTRIES {
        return Err(ApiError::bad_request("a what-if stack holds at most 16 layers"));
    }
    let mut i: usize = 0;
    while i < stack.entries.len()
        invariant
            i <= stack.entries@.len(),
            stack.entries@.len() <= MAX_ENTRIES,
            entries_fault(stack.entries@.take(i as int)) is None,
        decreases stack.entries@.len() - i,
    {
        let entry = &stack.entries[i];
        let ghost prefix = stack.entries@.take(i as int);
        assert(stack.entries@.take(i as int + 1).drop_last() == prefix);
        let id = entry.id.as_str();
        let bytes = id.len();
        if id.is_empty() || bytes > MAX_ENTRY_ID {
            proof {
                lemma_entries_fault_stop(stack.entries@, i as int);
            }
            return Err(ApiError::bad_request("each layer needs an id of 1\u{2013}64 characters"));
        }
        match check_shape(&entry.layer) {
            Ok(()) => {},
            Err(e) => {
                proof {
                    lemma_entries_fault_stop(stack.entries@, i as int);
                }
                return Err(e);
            },
        }
        i = i + 1;
    }
    assert(stack.entries@.take(i as int) == stack.entries@);
    Ok(())
}

/// Once a row has a fault, every longer prefix reports that same fault.
proof fn lemma_entries_fault_stop(s: Seq<WhatIfEntry>, i: int)
    requires
        0 <= i < s.len(),
        entries_fault(s.take(i)) is None,
        entry_fault(s[i]) is Some,
    ensures
        entries_fault(s) == entry_fault(s[i]),
    decreases s.len() - i,
{
    let n = s.len() as int;
    let prev = s.take(n - 1);
    assert(s.drop_last() == prev);
    if i == n - 1 {
        assert(prev == s.take(i));
    } else {
        assert(prev.take(i) == s.take(i));
        lemma_entries_fault_stop(prev, i);
    }
}

/// Whether an account sorts before another: by sort order, then by id.
pub open spec fn sorts_before(a: AccountRow, b: AccountRow) -> bool {
    a.sort_order < b.sort_order || (a.sort_order == b.sort_order && a.id < b.id)
}

/// The cash account that sorts first, where the plan has one; of two that
/// sort alike, the earlier.
pub open spec fn first_bank(s: Seq<AccountRow>) -> Option<AccountRow>
    decreases s.len(),
{
    if s.len() == 0 {
        None
    } else {
        let rest = first_bank(s.drop_last());
        let a = s.last();
        if a.flavor@ == "Bank"@ {
            match rest {
                Some(b) => if sorts_before(a, b) {
                    Some(a)
                } else {
                    Some(b)
                },
                None => Some(a),
            }
        } else {
            rest
        }
    }
}

/// The id of the account a one-off without one moves through.
fn default_account(accounts: &[AccountRow]) -> (r: Option<i64>)
    ensures
        match first_bank(accounts@) {
            Some(a) => r == Some(a.id),
            None => r is None,
        },
{
    let mut best: Option<usize> = None;
    let mut i: usize = 0;
    while i < accounts.len()
        invariant
            i <= accounts@.len(),
            match best {
                Some(k) => k < i && first_bank(accounts@.take(i as int)) == Some(accounts@[k as int]),
                None => first_bank(accounts@.take(i as int)) is None,
            },
        decreases accounts@.len() - i,
    {
        assert(accounts@.take(i + 1).drop_last() == accounts@.take(i as int));
        assert(accounts@.take(i + 1).last() == accounts@[i as int]);
        let a = &accounts[i];
        if same_text(a.flavor.as_str(), "Bank") {
            match best {
                Some(k) => {
                    let b = &accounts[k];
                    if a.sort_order < b.sort_order || (a.sort_order == b.sort_order && a.id < b.id) {
                        best = Some(i);
                    }
                },
                None => {
                    best = Some(i);
                },
            }
        }
        i = i + 1;
    }
    assert(accounts@.take(accounts@.len() as int) == accounts@);
    match best {
        Some(k) => Some(accounts[k].id),
        None => None,
    }
}

pub open spec fn not_in_plan(what: Seq<char>, id: i64) -> Seq<char> {
    what + " "@ + signed_decimal(id as int) + " is not in this plan"@
}

/// The outcome of typing a parameter layer's value: nothing, or why it
/// does not fit the parameter.
pub open spec fn typed_at(typed: Seq<Option<String>>, i: int) -> Option<Seq<char>> {
    if 0 <= i < typed.len() {
        match typed[i] {
            Some(m) => Some(m@),
            None => None,
        }
    } else {
        None
    }
}

/// One layer matched to its plan, or why it cannot be: its shape first; a
/// parameter must be one of the plan's, and its value must fit it; an
/// age-based layer needs the plan's birth date; a one-off's account must be
/// a cash or investment account of the plan, or is the first cash account.
pub open spec fn resolve_layer(
    l: WhatIfLayer,
    has_birth_date: bool,
    accounts: Seq<AccountRow>,
    parameters: Seq<i64>,
    typed: Option<Seq<char>>,
) -> Result<ResolvedLayer, Seq<char>> {
    let birth = "age-based what-if layers need the scenario's birth date; set it on the plan first"@;
    match shape_fault(l) {
        Some(m) => Err(m),
        None => match l {
            WhatIfLayer::Parameter { parameter_id, value_bits } => {
                let k = first_where(parameters, |p: i64| p == parameter_id);
                if k < 0 {
                    Err(not_in_plan("parameter"@, parameter_id))
                } else {
                    match typed {
                        Some(m) => Err(m),
                        None => Ok(ResolvedLayer::Parameter { index: k as usize, value_bits }),
                    }
                }
            },
            WhatIfLayer::MarketShock { age, drop_bits } => if !has_birth_date {
                Err(birth)
            } else {
                Ok(ResolvedLayer::MarketShock { age, drop_bits })
            },
            WhatIfLayer::OneOff { age, amount_bits, account_id } => if !has_birth_date {
                Err(birth)
            } else {
                match account_id {
                    Some(id) => {
                        let k = first_where(accounts, |a: AccountRow| a.id == id);
                        if k < 0 {
                            Err(not_in_plan("account"@, id))
                        } else if accounts[k].flavor@ != "Bank"@ && accounts[k].flavor@ != "Investment"@ {
                            Err("a one-off moves cash, so it needs a cash or investment account"@)
                        } else {
                            Ok(ResolvedLayer::OneOff { age, amount_bits, account_id: id })
                        }
                    },
                    None => match first_bank(accounts) {
                        Some(a) => Ok(ResolvedLayer::OneOff { age, amount_bits, account_id: a.id }),
                        None => Err("this plan has no cash account for a one-off; name an account"@),
                    },
                }
            },
        },
    }
}

/// The first `n` layers matched to their plan, stopping at the first that
/// cannot be.
pub open spec fn resolve_prefix(
    layers: Seq<WhatIfLayer>,
    has_birth_date: bool,
    accounts: Seq<AccountRow>,
    parameters: Seq<i64>,
    typed: Seq<Option<String>>,
    n: nat,
) -> Result<Seq<ResolvedLayer>, Seq<char>>
    decreases n,
{
    if n == 0 {
        Ok(Seq::empty())
    } else {
        match resolve_prefix(layers, has_birth_date, accounts, parameters, typed, (n - 1) as nat) {
            Err(m) => Err(m),
            Ok(v) => match resolve_layer(
                layers[n - 1],
                has_birth_date,
                accounts,
                parameters,
                typed_at(typed, n - 1),
            ) {
                Ok(x) => Ok(v.push(x)),
                Err(m) => Err(m),
            },
        }
    }
}

/// Every layer matched to its plan, in order; too many layers are refused.
pub open spec fn resolve_all(
    layers: Seq<WhatIfLayer>,
    has_birth_date: bool,
    accounts: Seq<AccountRow>,
    parameters: Seq<i64>,
    typed: Seq<Option<String>>,
) -> Result<Seq<ResolvedLayer>, Seq<char>> {
    if layers.len() > MAX_LAYERS {
        Err("a what-if applies at most 8 layers"@)
    } else {
        resolve_prefix(layers, has_birth_date, accounts, parameters, typed, layers.len())
    }
}

proof fn lemma_prefix_stops(
    layers: Seq<WhatIfLayer>,
    has_birth_date: bool,
    accounts: Seq<AccountRow>,
    parameters: Seq<i64>,
    typed: Seq<Option<String>>,
    n: nat,
    m: nat,
)
    requires
        n <= m,
        resolve_prefix(layers, has_birth_date, accounts, parameters, typed, n) is Err,
    ensures
        resolve_prefix(layers, has_birth_date, accounts, parameters, typed, m) == resolve_prefix(
            layers,
            has_birth_date,
            accounts,
            parameters,
            typed,
            n,
        ),
    decreases m - n,
{
    if n < m {
        lemma_prefix_stops(layers, has_birth_date, accounts, parameters, typed, n, (m - 1) as nat);
    }
}

fn find_parameter(parameters: &[i64], id: i64) -> (r: Option<usize>)
    ensures
        match r {
            Some(k) => k < parameters@.len() && k as int == first_where(parameters@, |p: i64| p == id),
            None => first_where(parameters@, |p: i64| p == id) < 0,
        },
{
    let ghost p = |p: i64| p == id;
    assert(first_where(parameters@, |p: i64| p == id) == first_where(parameters@, p));
    let mut i: usize = 0;
    while i < parameters.len()
        invariant
            i <= parameters@.len(),
            p == (|p: i64| p == id),
            forall|j: int| 0 <= j < i ==> !p(#[trigger] parameters@[j]),
        decreases parameters@.len() - i,
    {
        if parameters[i] == id {
            proof {
                lemma_first_at(parameters@, p, i as int);
            }
            return Some(i);
        }
        i = i + 1;
    }
    proof {
        lemma_first_none(parameters@, p);
    }
    None
}

fn find_account(accounts: &[AccountRow], id: i64) -> (r: Option<usize>)
    ensures
        match r {
            Some(k) => k < accounts@.len() && k as int == first_where(accounts@, |a: AccountRow| a.id == id),
            None => first_where(accounts@, |a: AccountRow| a.id == id) < 0,
        },
{
    let ghost p = |a: AccountRow| a.id == id;
    assert(first_where(accounts@, |a: AccountRow| a.id == id) == first_where(accounts@, p));
    let mut i: usize = 0;
    while i < accounts.len()
        invariant
            i <= accounts@.len(),
            p == (|a: AccountRow| a.id == id),
            forall|j: int| 0 <= j < i ==> !p(#[trigger] accounts@[j]),
        decreases accounts@.len() - i,
    {
        if accounts[i].id == id {
            proof {
                lemma_first_at(accounts@, p, i as int);
            }
            return Some(i);
        }
        i = i + 1;
    }
    proof {
        lemma_first_none(accounts@, p);
    }
    None
}

fn not_in_plan_error(what: &str, id: i64) -> (e: ApiError)
    ensures
        e matches ApiError::BadRequest(x) && x@ == not_in_plan(what@, id),
{
    let mut m = joined(what, " ");
    let n = format_i64(id);
    m.append(n.as_str());
    m.append(" is not in this plan");
    ApiError::BadRequest(m)
}

/// Match one layer to its plan, as [`resolve_layer`] says; `typed` is what
/// typing a parameter layer's value against its parameter gave.
fn resolve_one(
    layer: &WhatIfLayer,
    has_birth_date: bool,
    accounts: &[AccountRow],
    parameters: &[i64],
    typed: &Option<String>,
) -> (r: Result<ResolvedLayer, ApiError>)
    ensures
        match resolve_layer(
            *layer,
            has_birth_date,
            accounts@,
            parameters@,
            match typed {
                Some(m) => Some(m@),
                None => None,
            },
        ) {
            Ok(x) => r == Ok::<ResolvedLayer, ApiError>(x),
            Err(m) => r matches Err(ApiError::BadRequest(x)) && x@ == m,
        },
{
    match check_shape(layer) {
        Ok(()) => {},
        Err(e) => return Err(e),
    }
    let birth = "age-based what-if layers need the scenario's birth date; set it on the plan first";
    match layer {
        WhatIfLayer::Parameter { parameter_id, value_bits } => {
            let k = match find_parameter(parameters, *parameter_id) {
                Some(k) => k,
                None => return Err(not_in_plan_error("parameter", *parameter_id)),
            };
            match typed {
                Some(m) => Err(ApiError::BadRequest(owned(m.as_str()))),
                None => Ok(ResolvedLayer::Parameter { index: k, value_bits: *value_bits }),
            }
        },
        WhatIfLayer::MarketShock { age, drop_bits } => {
            if !has_birth_date {
                return Err(ApiError::bad_request(birth));
            }
            Ok(ResolvedLayer::MarketShock { age: *age, drop_bits: *drop_bits })
        },
        WhatIfLayer::OneOff { age, amount_bits, account_id } => {
            if !has_birth_date {
                return Err(ApiError::bad_request(birth));
            }
            match account_id {
                Some(id) => {
                    let k = match find_account(accounts, *id) {
                        Some(k) => k,
                        None => return Err(not_in_plan_error("account", *id)),
                    };
                    let flavor = accounts[k].flavor.as_str();
                    if !same_text(flavor, "Bank") && !same_text(flavor, "Investment") {
                        return Err(
                            ApiError::bad_request(
                                "a one-off moves cash, so it needs a cash or investment account",
                            ),
                        );
                    }
                    Ok(ResolvedLayer::OneOff { age: *age, amount_bits: *amount_bits, account_id: *id })
                },
                None => match default_account(accounts) {
                    Some(a) => Ok(ResolvedLayer::OneOff { age: *age, amount_bits: *amount_bits, account_id: a }),
                    None => Err(
                        ApiError::bad_request("this plan has no cash account for a one-off; name an account"),
                    ),
                },
            }
        },
    }
}

/// Match every layer to its plan, as [`resolve_all`] says: `typed[i]` is what
/// typing layer `i`'s value against its parameter gave, where it is a
/// parameter layer naming one of the plan's parameters.
pub fn resolve(
    layers: &[WhatIfLayer],
    has_birth_date: bool,
    accounts: &[AccountRow],
    parameters: &[i64],
    typed: &[Option<String>],
) -> (r: Result<Vec<ResolvedLayer>, ApiError>)
    ensures
        match resolve_all(layers@, has_birth_date, accounts@, parameters@, typed@) {
            Ok(v) => r matches Ok(x) && x@ == v,
            Err(m) => r matches Err(ApiError::BadRequest(x)) && x@ == m,
        },
{
    if layers.len() > MAX_LAYERS {
        return Err(ApiError::bad_request("a what-if applies at most 8 layers"));
    }
    let mut out: Vec<ResolvedLayer> = Vec::new();
    let mut i: usize = 0;
    while i < layers.len()
        invariant
            i <= layers@.len(),
            layers@.len() <= MAX_LAYERS,
            resolve_prefix(layers@, has_birth_date, accounts@, parameters@, typed@, i as nat) == Ok::<
                Seq<ResolvedLayer>,
                Seq<char>,
            >(out@),
        decreases layers@.len() - i,
    {
        let none: Option<String> = None;
        let t = if i < typed.len() {
            &typed[i]
        } else {
            &none
        };
        assert(typed_at(typed@, i as int) == match t {
            Some(m) => Some(m@),
            None => None::<Seq<char>>,
        });
        match resolve_one(&layers[i], has_birth_date, accounts, parameters, t) {
            Ok(x) => out.push(x),
            Err(e) => {
                proof {
                    let tv = typed_at(typed@, i as int);
                    let lr = resolve_layer(layers@[i as int], has_birth_date, accounts@, parameters@, tv);
                    assert(lr is Err);
                    assert(resolve_prefix(layers@, has_birth_date, accounts@, parameters@, typed@, (i + 1) as nat)
                        == Err::<Seq<ResolvedLayer>, Seq<char>>(lr->Err_0));
                    lemma_prefix_stops(
                        layers@,
                        has_birth_date,
                        accounts@,
                        parameters@,
                        typed@,
                        (i + 1) as nat,
                        layers@.len(),
                    );
                }
                return Err(e);
            },
        }
        i = i + 1;
    }
    Ok(out)
}

/// The cash account a one-off without one moves through is a cash account
/// of the plan that no other cash account comes before, by sort order and
/// then by id; there is one exactly when the plan has a cash account.
pub proof fn default_account_sorts_first(s: Seq<AccountRow>)
    ensures
        first_bank(s) is None <==> forall|i: int| 0 <= i < s.len() ==> (#[trigger] s[i]).flavor@ != "Bank"@,
        first_bank(s) matches Some(a) ==> {
            &&& a.flavor@ == "Bank"@
            &&& exists|k: int| 0 <= k < s.len() && #[trigger] s[k] == a
            &&& forall|i: int|
                0 <= i < s.len() && (#[trigger] s[i]).flavor@ == "Bank"@ ==> a.sort_order < s[i].sort_order || (
                a.sort_order == s[i].sort_order && a.id <= s[i].id)
        },
    decreases s.len(),
{
    if s.len() > 0 {
        let d = s.drop_last();
        default_account_sorts_first(d);
        let last = s.last();
        assert(s[s.len() - 1] == last);
        assert forall|i: int| 0 <= i < d.len() implies #[trigger] d[i] == s[i] by {}
        match first_bank(d) {
            Some(b) => {
                let k = choose|k: int| 0 <= k < d.len() && #[trigger] d[k] == b;
                assert(s[k] == b);
                assert forall|i: int| 0 <= i < s.len() && (#[trigger] s[i]).flavor@ == "Bank"@ implies first_bank(s)->0.sort_order
                    < s[i].sort_order || (first_bank(s)->0.sort_order == s[i].sort_order && first_bank(s)->0.id
                    <= s[i].id) by {
                    if i < d.len() {
                        assert(d[i] == s[i]);
                    }
                }
            },
            None => {
                assert forall|i: int| 0 <= i < s.len() && (#[trigger] s[i]).flavor@ == "Bank"@ implies first_bank(s)->0.sort_order
                    < s[i].sort_order || (first_bank(s)->0.sort_order == s[i].sort_order && first_bank(s)->0.id
                    <= s[i].id) by {
                    if i < d.len() {
                        assert(d[i] == s[i]);
                        assert(d[i].flavor@ != "Bank"@);
                    }
                }
                if first_bank(s) is None {
                    assert forall|i: int| 0 <= i < s.len() implies (#[trigger] s[i]).flavor@ != "Bank"@ by {
                        if i < d.len() {
                            assert(d[i] == s[i]);
                        }
                    }
                }
            },
        }
    }
}

/// A one-off that names no account, on a plan with a birth date, resolves
/// to a cash account of the plan that no other cash account comes before,
/// by sort order and then by id, keeping its age and amount; it is refused
/// exactly when the plan has no cash account.
pub proof fn unnamed_one_off_takes_the_first_cash_account(
    age: u8,
    amount_bits: u64,
    accounts: Seq<AccountRow>,
    parameters: Seq<i64>,
    typed: Option<Seq<char>>,
)
    requires
        shape_fault(WhatIfLayer::OneOff { age, amount_bits, account_id: None }) is None,
    ensures
        ({
            let r = resolve_layer(
                WhatIfLayer::OneOff { age, amount_bits, account_id: None },
                true,
                accounts,
                parameters,
                typed,
            );
            &&& r is Err <==> forall|i: int| 0 <= i < accounts.len() ==> (#[trigger] accounts[i]).flavor@ != "Bank"@
            &&& r matches Ok(x) ==> exists|k: int|
                0 <= k < accounts.len() && #[trigger] accounts[k].flavor@ == "Bank"@ && x == ResolvedLayer::OneOff {
                    age,
                    amount_bits,
                    account_id: accounts[k].id,
                } && forall|i: int|
                    0 <= i < accounts.len() && (#[trigger] accounts[i]).flavor@ == "Bank"@ ==> accounts[k].sort_order
                        < accounts[i].sort_order || (accounts[k].sort_order == accounts[i].sort_order
                        && accounts[k].id <= accounts[i].id)
        }),
{
    default_account_sorts_first(accounts);
    if let Some(a) = first_bank(accounts) {
        let k = choose|k: int| 0 <= k < accounts.len() && #[trigger] accounts[k] == a;
        assert(accounts[k].flavor@ == "Bank"@);
    }
}

} // verus!
