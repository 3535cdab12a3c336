//! Named plan parameters: their values and how they are stored, where one
//! is used, and when it may be deleted.
use vstd::prelude::*;

use crate::archives::TriggerShape;
use crate::auth::byte_len;
use crate::auth::routes::{date_parse, parse_civil_date};
use crate::error::{owned, ApiError};
use crate::rows::ParameterRow;
use crate::text::{same_text, trim, trimmed};
use crate::what_if::finite_bits;

verus! {

/// One place a parameter is used.
pub struct ParameterUsage {
    pub event_id: i64,
    pub event_name: String,
    pub location: String,
}

/// Two runs to compare.
pub struct CompareRuns {
    pub left_run_id: i64,
    pub right_run_id: i64,
}

/// How far up a trigger tree a walk looks for its event.
pub const MAX_TRIGGER_DEPTH: usize = 64;

pub open spec fn at_key(t: Seq<TriggerShape>, id: i64) -> int {
    if exists|i: int| 0 <= i < t.len() && t[i].key == id {
        choose|i: int| 0 <= i < t.len() && t[i].key == id
    } else {
        -1
    }
}

/// The first trigger that uses `id` as its start or end condition.
pub open spec fn detached_parent(t: Seq<TriggerShape>, id: i64) -> int
    decreases t.len(),
{
    if t.len() == 0 {
        -1
    } else if t[0].start_id == Some(id) || t[0].end_id == Some(id) {
        0
    } else {
        let rest = detached_parent(t.drop_first(), id);
        if rest < 0 {
            -1
        } else {
            rest + 1
        }
    }
}

/// Whether trigger `id` belongs to `event`, climbing at most `fuel` links:
/// to its parent, or to the trigger that uses it as a start or end
/// condition.
pub open spec fn belongs_within(t: Seq<TriggerShape>, id: i64, event: i64, fuel: nat) -> bool
    decreases fuel,
{
    if fuel == 0 {
        false
    } else {
        let i = at_key(t, id);
        if i < 0 {
            false
        } else if t[i].event_id == Some(event) {
            true
        } else if t[i].parent_id is Some {
            belongs_within(t, t[i].parent_id->0, event, (fuel - 1) as nat)
        } else {
            let p = detached_parent(t, id);
            if p < 0 {
                false
            } else {
                belongs_within(t, t[p].id, event, (fuel - 1) as nat)
            }
        }
    }
}

proof fn lemma_detached_parent(t: Seq<TriggerShape>, id: i64, p: int, found: bool)
    requires
        0 <= p <= t.len(),
        forall|j: int| 0 <= j < p ==> !(#[trigger] t[j].start_id == Some(id) || t[j].end_id == Some(id)),
        found ==> p < t.len() && (t[p].start_id == Some(id) || t[p].end_id == Some(id)),
        !found ==> p == t.len(),
    ensures
        detached_parent(t, id) == (if found {
            p
        } else {
            -1
        }),
    decreases t.len(),
{
    if t.len() > 0 && p > 0 {
        assert forall|j: int| 0 <= j < p - 1 implies !(#[trigger] t.drop_first()[j].start_id == Some(id)
            || t.drop_first()[j].end_id == Some(id)) by {
            assert(t.drop_first()[j] == t[j + 1]);
        }
        if found {
            assert(t.drop_first()[p - 1] == t[p]);
        }
        lemma_detached_parent(t.drop_first(), id, p - 1, found);
    }
}

fn find_key(t: &[TriggerShape], id: i64) -> (r: Option<usize>)
    requires
        forall|a: int, b: int| 0 <= a < b < t@.len() ==> #[trigger] t@[a].key != #[trigger] t@[b].key,
    ensures
        match r {
            Some(i) => i < t@.len() && at_key(t@, id) == i,
            None => at_key(t@, id) == -1,
        },
{
    let mut i: usize = 0;
    while i < t.len()
        invariant
            i <= t@.len(),
            forall|a: int, b: int| 0 <= a < b < t@.len() ==> #[trigger] t@[a].key != #[trigger] t@[b].key,
            forall|j: int| 0 <= j < i ==> t@[j].key != id,
        decreases t@.len() - i,
    {
        if t[i].key == id {
            proof {
                let k = choose|k: int| 0 <= k < t@.len() && t@[k].key == id;
                if k != i {
                    if k < i {
                        assert(t@[k].key != t@[i as int].key);
                    } else {
                        assert(t@[i as int].key != t@[k].key);
                    }
                }
            }
            return Some(i);
        }
        i = i + 1;
    }
    None
}

/// Whether trigger `id` belongs to `event`'s tree (within 64 links).
pub fn belongs(t: &[TriggerShape], id: i64, event: i64) -> (r: bool)
    requires
        forall|a: int, b: int| 0 <= a < b < t@.len() ==> #[trigger] t@[a].key != #[trigger] t@[b].key,
    ensures
        r == belongs_within(t@, id, event, MAX_TRIGGER_DEPTH as nat),
{
    let mut cur = id;
    let mut step: usize = 0;
    while step < MAX_TRIGGER_DEPTH
        invariant
            step <= 64,
            forall|a: int, b: int| 0 <= a < b < t@.len() ==> #[trigger] t@[a].key != #[trigger] t@[b].key,
            belongs_within(t@, id, event, MAX_TRIGGER_DEPTH as nat) == belongs_within(t@, cur, event, (64 - step) as nat),
        decreases 64 - step,
    {
        let i = match find_key(t, cur) {
            Some(i) => i,
            None => return false,
        };
        if t[i].event_id == Some(event) {
            return true;
        }
        if let Some(p) = t[i].parent_id {
            cur = p;
        } else {
            let mut q: usize = 0;
            while q < t.len() && !(t[q].start_id == Some(cur) || t[q].end_id == Some(cur))
                invariant
                    q <= t@.len(),
                    forall|j: int| 0 <= j < q ==> !(#[trigger] t@[j].start_id == Some(cur) || t@[j].end_id == Some(cur)),
                decreases t@.len() - q,
            {
                q = q + 1;
            }
            proof {
                lemma_detached_parent(t@, cur, q as int, q < t@.len());
            }
            if q == t.len() {
                return false;
            }
            cur = t[q].id;
        }
        step = step + 1;
    }
    false
}

/// A parameter in use cannot be deleted.
pub fn check_deletable(in_use: bool) -> (r: Result<(), ApiError>)
    ensures
        r is Ok <==> !in_use,
        r is Err ==> (r matches Err(ApiError::Conflict(m)) && m@ == "parameter is used by an event"@),
{
    if in_use {
        Err(ApiError::Conflict(owned("parameter is used by an event")))
    } else {
        Ok(())
    }
}

/// When a repeating event starts.
pub enum TriggerStartDef {
    Date { date: String },
    Age { years: u8, months: Option<u8> },
}

/// When a repeating event ends.
pub enum TriggerEndDef {
    Date { date: String },
    Age { years: u8, months: Option<u8> },
    Never,
}

/// A parameter's value as a client sends it. Numbers are carried as the bit
/// patterns of their IEEE 754 doubles.
pub enum ParameterValueSpec {
    Money { value_bits: u64 },
    Rate { value_bits: u64 },
    Date { value: String },
    Age { years: u8, months: u8 },
}

/// A parameter's value as plain values.
pub enum ParameterValue {
    Money(u64),
    Rate(u64),
    Date(Seq<char>),
    Age(u8, u8),
}

impl View for ParameterValueSpec {
    type V = ParameterValue;

    open spec fn view(&self) -> ParameterValue {
        match self {
            ParameterValueSpec::Money { value_bits } => ParameterValue::Money(*value_bits),
            ParameterValueSpec::Rate { value_bits } => ParameterValue::Rate(*value_bits),
            ParameterValueSpec::Date { value } => ParameterValue::Date(value@),
            ParameterValueSpec::Age { years, months } => ParameterValue::Age(*years, *months),
        }
    }
}

/// What is wrong with a parameter's value, if anything: a number must be
/// finite, a date must parse, an age's months must be fewer than twelve.
pub open spec fn value_fault(v: ParameterValue) -> Option<Seq<char>> {
    match v {
        ParameterValue::Money(b) => if !finite_bits(b) {
            Some("parameter must be finite"@)
        } else {
            None
        },
        ParameterValue::Rate(b) => if !finite_bits(b) {
            Some("parameter must be finite"@)
        } else {
            None
        },
        ParameterValue::Date(t) => if date_parse(t) is Err {
            Some("invalid parameter date"@)
        } else {
            None
        },
        ParameterValue::Age(_, m) => if m > 11 {
            Some("invalid calendar age"@)
        } else {
            None
        },
    }
}

/// The stored columns of a value: kind, number, date, years, months.
pub open spec fn value_columns(v: ParameterValue) -> (Seq<char>, Option<u64>, Option<Seq<char>>, Option<i64>, Option<i64>) {
    match v {
        ParameterValue::Money(b) => ("Money"@, Some(b), None, None, None),
        ParameterValue::Rate(b) => ("Rate"@, Some(b), None, None, None),
        ParameterValue::Date(t) => ("Date"@, None, Some(t), None, None),
        ParameterValue::Age(y, m) => ("Age"@, None, None, Some(y as i64), Some(m as i64)),
    }
}

/// A stored parameter's value, or why it cannot be read back.
pub open spec fn row_value(kind: Seq<char>, number: Option<u64>, date: Option<Seq<char>>, years: Option<i64>, months: Option<i64>) -> Result<ParameterValue, Seq<char>> {
    if kind == "Money"@ {
        match number {
            Some(b) => Ok(ParameterValue::Money(b)),
            None => Err("missing parameter value"@),
        }
    } else if kind == "Rate"@ {
        match number {
            Some(b) => Ok(ParameterValue::Rate(b)),
            None => Err("missing parameter value"@),
        }
    } else if kind == "Date"@ {
        match date {
            Some(t) => Ok(ParameterValue::Date(t)),
            None => Err("missing parameter date"@),
        }
    } else if kind == "Age"@ {
        match (years, months) {
            (Some(y), Some(m)) => Ok(ParameterValue::Age(y as u8, m as u8)),
            _ => Err("missing parameter age"@),
        }
    } else {
        Err("unknown parameter kind"@)
    }
}

impl ParameterValueSpec {
    /// The checks a value passes before it is stored, as [`value_fault`]
    /// says.
    pub fn validate(&self) -> (r: Result<(), ApiError>)
        ensures
            match value_fault(self@) {
                None => r is Ok,
                Some(m) => r matches Err(ApiError::BadRequest(x)) && x@ == m,
            },
    {
        match self {
            ParameterValueSpec::Money { value_bits } | ParameterValueSpec::Rate { value_bits } => {
                let b = *value_bits;
                let magnitude = if b >= 0x8000_0000_0000_0000u64 {
                    b - 0x8000_0000_0000_0000u64
                } else {
                    b
                };
                if magnitude >= 0x7FF0_0000_0000_0000u64 {
                    return Err(ApiError::bad_request("parameter must be finite"));
                }
                Ok(())
            },
            ParameterValueSpec::Date { value } => match parse_civil_date(value.as_str()) {
                Ok(_) => Ok(()),
                Err(_) => Err(ApiError::bad_request("invalid parameter date")),
            },
            ParameterValueSpec::Age { months, .. } => {
                if *months > 11 {
                    return Err(ApiError::bad_request("invalid calendar age"));
                }
                Ok(())
            },
        }
    }

    /// The columns a value is stored in: its kind, then its number, date,
    /// years and months, each where it has one.
    pub fn fields(&self) -> (r: (&'static str, Option<u64>, Option<&str>, Option<i64>, Option<i64>))
        ensures
            (r.0@, r.1, match r.2 {
                Some(t) => Some(t@),
                None => None,
            }, r.3, r.4) == value_columns(self@),
    {
        match self {
            ParameterValueSpec::Money { value_bits } => ("Money", Some(*value_bits), None, None, None),
            ParameterValueSpec::Rate { value_bits } => ("Rate", Some(*value_bits), None, None, None),
            ParameterValueSpec::Date { value } => ("Date", None, Some(value.as_str()), None, None),
            ParameterValueSpec::Age { years, months } => ("Age", None, None, Some(*years as i64), Some(*months as i64)),
        }
    }

    /// A stored parameter's value, as [`row_value`] says; a row that cannot
    /// be read back is the server's fault.
    pub fn try_from(row: &ParameterRow) -> (r: Result<ParameterValueSpec, ApiError>)
        ensures
            match row_value(
                row.kind@,
                row.number_bits,
                match row.date_value {
                    Some(t) => Some(t@),
                    None => None,
                },
                row.age_years,
                row.age_months,
            ) {
                Ok(v) => r matches Ok(x) && x@ == v,
                Err(m) => r matches Err(ApiError::Internal(x)) && x@ == m,
            },
    {
        let k = row.kind.as_str();
        if same_text(k, "Money") {
            match row.number_bits {
                Some(b) => Ok(ParameterValueSpec::Money { value_bits: b }),
                None => Err(ApiError::internal("missing parameter value")),
            }
        } else if same_text(k, "Rate") {
            match row.number_bits {
                Some(b) => Ok(ParameterValueSpec::Rate { value_bits: b }),
                None => Err(ApiError::internal("missing parameter value")),
            }
        } else if same_text(k, "Date") {
            match &row.date_value {
                Some(t) => Ok(ParameterValueSpec::Date { value: owned(t.as_str()) }),
                None => Err(ApiError::internal("missing parameter date")),
            }
        } else if same_text(k, "Age") {
            match (row.age_years, row.age_months) {
                (Some(y), Some(m)) => Ok(ParameterValueSpec::Age { years: y as u8, months: m as u8 }),
                _ => Err(ApiError::internal("missing parameter age")),
            }
        } else {
            Err(ApiError::internal("unknown parameter kind"))
        }
    }
}

/// A parameter's name and value as a request gives them: the name, trimmed,
/// is 1 to 120 bytes long, and the value passes its own checks.
pub fn validate<'a>(name: &'a str, value: &ParameterValueSpec) -> (r: Result<&'a str, ApiError>)
    ensures
        ({
            let n = trimmed(name@);
            if n.len() == 0 || byte_len(n) > 120 {
                r matches Err(ApiError::BadRequest(m)) && m@ == "parameter name must be 1\u{2013}120 characters"@
            } else {
                match value_fault(value@) {
                    None => r matches Ok(t) && t@ == n,
                    Some(m) => r matches Err(ApiError::BadRequest(x)) && x@ == m,
                }
            }
        }),
{
    let n = trim(name);
    if n.unicode_len() == 0 || n.as_bytes().len() > 120 {
        return Err(ApiError::bad_request("parameter name must be 1\u{2013}120 characters"));
    }
    match value.validate() {
        Ok(()) => Ok(n),
        Err(e) => Err(e),
    }
}

} // verus!
