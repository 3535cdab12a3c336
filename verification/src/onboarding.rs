//! Guided setup's checks, and the preflight review of a plan before a run.
use vstd::prelude::*;

use crate::auth::routes::{date_parse, parse_civil_date};
use crate::effects::below_zero;
use crate::error::{joined, owned, ApiError};
use crate::text::{format_i64, same_text, signed_decimal, trim, trimmed};
use crate::what_if::{finite_bits, magnitude};

verus! {

/// What setup created.
pub struct SetupCreated {
    pub scenario_id: i64,
}

/// One finding of the preflight review.
pub struct PreflightIssue {
    pub code: String,
    pub severity: String,
    pub message: String,
    pub section: String,
    pub record_id: Option<i64>,
}

pub struct PreflightReport {
    pub issues: Vec<PreflightIssue>,
    /// No finding is an error.
    pub can_run: bool,
}

/// An asset as the review reads it.
pub struct AssetLabel {
    pub id: i64,
    pub name: String,
    pub has_return_profile: bool,
}

/// An event as the review reads it: how many top-level effects it has.
pub struct EventLabel {
    pub id: i64,
    pub name: String,
    pub enabled: bool,
    pub effect_count: usize,
}

/// An effect as the review reads it: its event and its kind.
pub struct EffectLabel {
    pub event_id: Option<i64>,
    pub kind: String,
}

/// What the preflight review reads of a plan. `compiler_message` is the
/// compiler's message when the plan does not compile.
pub struct PlanOutline {
    pub compiler_message: Option<String>,
    pub assets: Vec<AssetLabel>,
    pub events: Vec<EventLabel>,
    pub effects: Vec<EffectLabel>,
    pub start_date: String,
    pub birth_date: Option<String>,
    pub duration_years: i64,
    pub has_inflation: bool,
    pub tax_profile: Option<String>,
}

pub type IssueView = (Seq<char>, Seq<char>, Seq<char>, Seq<char>, Option<i64>);

pub open spec fn issue_view(i: PreflightIssue) -> IssueView {
    (i.code@, i.severity@, i.message@, i.section@, i.record_id)
}

pub open spec fn issue_views(v: Seq<PreflightIssue>) -> Seq<IssueView> {
    v.map_values(|i: PreflightIssue| issue_view(i))
}

pub open spec fn warning(code: Seq<char>, message: Seq<char>, section: Seq<char>, id: Option<i64>) -> IssueView {
    (code, "warning"@, message, section, id)
}

pub open spec fn asset_issues(assets: Seq<AssetLabel>) -> Seq<IssueView>
    decreases assets.len(),
{
    if assets.len() == 0 {
        Seq::empty()
    } else {
        let before = asset_issues(assets.drop_last());
        let a = assets.last();
        if !a.has_return_profile {
            before.push(
                warning(
                    "unmapped_asset"@,
                    a.name@
                        + " has no return assumption. Its price stays fixed in nominal dollars; confirm that this is intentional."@,
                    "portfolio"@,
                    Some(a.id),
                ),
            )
        } else {
            before
        }
    }
}

pub open spec fn event_issues(events: Seq<EventLabel>) -> Seq<IssueView>
    decreases events.len(),
{
    if events.len() == 0 {
        Seq::empty()
    } else {
        let before = event_issues(events.drop_last());
        let e = events.last();
        if e.enabled && e.effect_count == 0 {
            before.push(
                warning("empty_event"@, e.name@ + " is enabled but has no effects."@, "plan"@, Some(e.id)),
            )
        } else {
            before
        }
    }
}

/// Whether an effect belongs to an enabled event.
pub open spec fn in_force(events: Seq<EventLabel>, e: EffectLabel) -> bool {
    e.event_id matches Some(id) && exists|k: int| 0 <= k < events.len() && events[k].enabled && events[k].id == id
}

pub open spec fn models_kind(g: PlanOutline, kinds: Seq<Seq<char>>) -> bool {
    exists|i: int| 0 <= i < g.effects@.len() && in_force(g.events@, g.effects@[i]) && kinds.contains(#[trigger] g.effects@[i].kind@)
}

/// The age the plan's horizon ends at, from its start, its length and the
/// birth date; it wraps as two's complement arithmetic does.
pub open spec fn end_age(sy: int, sm: int, sd: int, duration: i64, by: int, bm: int, bd: int) -> i64 {
    let before_birthday = sm < bm || (sm == bm && sd < bd);
    (sy + duration - by - (if before_birthday { 1int } else { 0int })) as i64
}

pub open spec fn horizon_issue(g: PlanOutline) -> Seq<IssueView> {
    match (date_parse(g.start_date@), g.birth_date) {
        (Ok((_, sy, sm, sd)), Some(b)) => match date_parse(b@) {
            Ok((_, by, bm, bd)) => seq![
                warning(
                    "horizon"@,
                    "The modeled horizon ends around age "@ + signed_decimal(
                        end_age(sy, sm, sd, g.duration_years, by, bm, bd) as int,
                    ) + ". Confirm that it covers your household's intended planning lifetime."@,
                    "plan"@,
                    None,
                ),
            ],
            Err(_) => Seq::empty(),
        },
        _ => Seq::empty(),
    }
}

pub open spec fn tax_text(g: PlanOutline) -> Seq<char> {
    match g.tax_profile {
        Some(t) => t@,
        None => "no tax profile"@,
    }
}

pub open spec fn compile_issues(g: PlanOutline) -> Seq<IssueView> {
    match g.compiler_message {
        Some(m) => seq![("invalid_plan"@, "error"@, m@, "plan"@, None::<i64>)],
        None => Seq::empty(),
    }
}

/// Missing spending, missing funding rules, missing birth date.
pub open spec fn flag_issues(g: PlanOutline) -> Seq<IssueView> {
    let spending = if !models_kind(g, seq!["Expense"@]) {
        seq![
            warning(
                "missing_spending"@,
                "No spending is modeled. This run cannot assess your ability to fund living costs."@,
                "plan"@,
                None,
            ),
        ]
    } else {
        Seq::empty()
    };
    let funding = if !models_kind(g, seq!["Sweep"@, "CashTransfer"@]) {
        seq![
            warning(
                "funding_intent"@,
                "No withdrawal or transfer rule is modeled. Spending uses only its named account; review whether this is intentional."@,
                "plan"@,
                None,
            ),
        ]
    } else {
        Seq::empty()
    };
    let birth = if g.birth_date is None {
        seq![
            warning(
                "missing_birth"@,
                "No birth date is set. Review age-based retirement and withdrawal assumptions."@,
                "plan"@,
                None,
            ),
        ]
    } else {
        Seq::empty()
    };
    spending + funding + birth
}

/// Missing inflation, and the reminder of the tax assumptions.
pub open spec fn tail_issues(g: PlanOutline) -> Seq<IssueView> {
    let inflation = if !g.has_inflation {
        seq![
            warning(
                "no_inflation"@,
                "No inflation is modeled. Inflation-adjusted spending will not grow."@,
                "plan"@,
                None,
            ),
        ]
    } else {
        Seq::empty()
    };
    let assumptions = seq![
        warning(
            "assumptions"@,
            "Review tax assumptions: "@ + tax_text(g)
                + ". Returns and inflation are annual nominal assumptions. Tax modeling is simplified; profile labels retain their original year and filing status. Review omitted household income, benefits and costs before relying on results."@,
            "plan"@,
            None,
        ),
    ];
    inflation + assumptions
}

/// Every finding of the review, in the order they are reported.
pub open spec fn review_issues(g: PlanOutline) -> Seq<IssueView> {
    compile_issues(g) + asset_issues(g.assets@) + event_issues(g.events@) + flag_issues(g)
        + horizon_issue(g) + tail_issues(g)
}

fn issue(code: &str, severity: &str, message: String, section: &str, record_id: Option<i64>) -> (r:
    PreflightIssue)
    ensures
        issue_view(r) == (code@, severity@, message@, section@, record_id),
{
    PreflightIssue {
        code: owned(code),
        severity: owned(severity),
        message,
        section: owned(section),
        record_id,
    }
}

fn push_issue(v: &mut Vec<PreflightIssue>, i: PreflightIssue)
    ensures
        issue_views(final(v)@) == issue_views(old(v)@).push(issue_view(i)),
{
    let ghost before = v@;
    v.push(i);
    assert(issue_views(v@) == issue_views(before).push(issue_view(i)));
}

fn event_in_force(events: &[EventLabel], e: &EffectLabel) -> (r: bool)
    ensures
        r == in_force(events@, *e),
{
    match e.event_id {
        Some(id) => {
            let mut i: usize = 0;
            while i < events.len()
                invariant
                    i <= events@.len(),
                    e.event_id == Some(id),
                    forall|k: int| 0 <= k < i ==> !(events@[k].enabled && events@[k].id == id),
                decreases events@.len() - i,
            {
                if events[i].enabled && events[i].id == id {
                    assert(events@[i as int].enabled && events@[i as int].id == id);
                    return true;
                }
                i = i + 1;
            }
            false
        },
        None => false,
    }
}

fn any_kind(g: &PlanOutline, a: &str, b: Option<&str>) -> (r: bool)
    ensures
        r == models_kind(*g, match b {
            Some(x) => seq![a@, x@],
            None => seq![a@],
        }),
{
    let ghost kinds = match b {
        Some(x) => seq![a@, x@],
        None => seq![a@],
    };
    let mut i: usize = 0;
    while i < g.effects.len()
        invariant
            i <= g.effects@.len(),
            kinds == (match b {
                Some(x) => seq![a@, x@],
                None => seq![a@],
            }),
            forall|k: int| 0 <= k < i ==> !(in_force(g.events@, g.effects@[k]) && kinds.contains(#[trigger] g.effects@[k].kind@)),
        decreases g.effects@.len() - i,
    {
        let e = &g.effects[i];
        let kind = e.kind.as_str();
        let named = same_text(kind, a) || match b {
            Some(x) => same_text(kind, x),
            None => false,
        };
        proof {
            if kinds.contains(kind@) {
                let q = choose|q: int| 0 <= q < kinds.len() && kinds[q] == kind@;
            }
            if same_text_spec(kind@, a@) {
                assert(kinds[0] == a@);
            }
            if b is Some && kind@ == b->0@ {
                assert(kinds[1] == b->0@);
            }
        }
        if named && event_in_force(g.events.as_slice(), e) {
            return true;
        }
        i = i + 1;
    }
    false
}

pub open spec fn same_text_spec(a: Seq<char>, b: Seq<char>) -> bool {
    a == b
}

fn append_assets(issues: &mut Vec<PreflightIssue>, g: &PlanOutline)
    ensures
        issue_views(final(issues)@) == issue_views(old(issues)@) + asset_issues(g.assets@),
{
    let ghost start = issue_views(issues@);
    let mut i: usize = 0;
    while i < g.assets.len()
        invariant
            i <= g.assets@.len(),
            issue_views(issues@) == start + asset_issues(g.assets@.subrange(0, i as int)),
        decreases g.assets@.len() - i,
    {
        let a = &g.assets[i];
        assert(g.assets@.subrange(0, i + 1).drop_last() == g.assets@.subrange(0, i as int));
        assert(g.assets@.subrange(0, i + 1).last() == g.assets@[i as int]);
        if !a.has_return_profile {
            let m = joined(
                a.name.as_str(),
                " has no return assumption. Its price stays fixed in nominal dollars; confirm that this is intentional.",
            );
            push_issue(issues, issue("unmapped_asset", "warning", m, "portfolio", Some(a.id)));
        }
        i = i + 1;
    }
    assert(g.assets@.subrange(0, g.assets@.len() as int) == g.assets@);
}

fn append_events(issues: &mut Vec<PreflightIssue>, g: &PlanOutline)
    ensures
        issue_views(final(issues)@) == issue_views(old(issues)@) + event_issues(g.events@),
{
    let ghost start = issue_views(issues@);
    let mut i: usize = 0;
    while i < g.events.len()
        invariant
            i <= g.events@.len(),
            issue_views(issues@) == start + event_issues(g.events@.subrange(0, i as int)),
        decreases g.events@.len() - i,
    {
        let e = &g.events[i];
        assert(g.events@.subrange(0, i + 1).drop_last() == g.events@.subrange(0, i as int));
        assert(g.events@.subrange(0, i + 1).last() == g.events@[i as int]);
        if e.enabled && e.effect_count == 0 {
            let m = joined(e.name.as_str(), " is enabled but has no effects.");
            push_issue(issues, issue("empty_event", "warning", m, "plan", Some(e.id)));
        }
        i = i + 1;
    }
    assert(g.events@.subrange(0, g.events@.len() as int) == g.events@);
}

fn append_flags(issues: &mut Vec<PreflightIssue>, g: &PlanOutline)
    ensures
        issue_views(final(issues)@) == issue_views(old(issues)@) + flag_issues(*g),
{
    let ghost start = issue_views(issues@);
    let spending = any_kind(g, "Expense", None);
    if !spending {
        push_issue(
            issues,
            issue(
                "missing_spending",
                "warning",
                owned("No spending is modeled. This run cannot assess your ability to fund living costs."),
                "plan",
                None,
            ),
        );
    }
    let ghost s1 = issue_views(issues@);
    let funding = any_kind(g, "Sweep", Some("CashTransfer"));
    if !funding {
        push_issue(
            issues,
            issue(
                "funding_intent",
                "warning",
                owned(
                    "No withdrawal or transfer rule is modeled. Spending uses only its named account; review whether this is intentional.",
                ),
                "plan",
                None,
            ),
        );
    }
    let ghost s2 = issue_views(issues@);
    if g.birth_date.is_none() {
        push_issue(
            issues,
            issue(
                "missing_birth",
                "warning",
                owned("No birth date is set. Review age-based retirement and withdrawal assumptions."),
                "plan",
                None,
            ),
        );
    }
    proof {
        let f = flag_issues(*g);
        assert(issue_views(issues@) == start + f);
    }
}

fn append_horizon(issues: &mut Vec<PreflightIssue>, g: &PlanOutline)
    ensures
        issue_views(final(issues)@) == issue_views(old(issues)@) + horizon_issue(*g),
{
    let ghost start = issue_views(issues@);
    if let Ok(start_date) = parse_civil_date(g.start_date.as_str()) {
        if let Some(b) = &g.birth_date {
            if let Ok(birth) = parse_civil_date(b.as_str()) {
                let before_birthday = start_date.month < birth.month || (start_date.month
                    == birth.month && start_date.day < birth.day);
                let wide: i128 = (start_date.year as i128) + (g.duration_years as i128) - (
                birth.year as i128) - if before_birthday {
                    1i128
                } else {
                    0i128
                };
                let age = wide as i64;
                let mut m = joined("The modeled horizon ends around age ", format_i64(age).as_str());
                m.append(". Confirm that it covers your household's intended planning lifetime.");
                push_issue(issues, issue("horizon", "warning", m, "plan", None));
                return ;
            }
        }
    }
    assert(issue_views(issues@) == start + Seq::<IssueView>::empty());
}

fn append_tail(issues: &mut Vec<PreflightIssue>, g: &PlanOutline)
    ensures
        issue_views(final(issues)@) == issue_views(old(issues)@) + tail_issues(*g),
{
    let ghost start = issue_views(issues@);
    if !g.has_inflation {
        push_issue(
            issues,
            issue(
                "no_inflation",
                "warning",
                owned("No inflation is modeled. Inflation-adjusted spending will not grow."),
                "plan",
                None,
            ),
        );
    }
    let tax = match &g.tax_profile {
        Some(t) => t.as_str(),
        None => "no tax profile",
    };
    let mut m = joined("Review tax assumptions: ", tax);
    m.append(
        ". Returns and inflation are annual nominal assumptions. Tax modeling is simplified; profile labels retain their original year and filing status. Review omitted household income, benefits and costs before relying on results.",
    );
    push_issue(issues, issue("assumptions", "warning", m, "plan", None));
    proof {
        assert(issue_views(issues@) == start + tail_issues(*g));
    }
}

/// Review a plan before it is run: what will fail, and what is probably not
/// what was meant.
pub fn review(g: &PlanOutline) -> (r: PreflightReport)
    ensures
        issue_views(r.issues@) == review_issues(*g),
        r.can_run == (g.compiler_message is None),
{
    let mut issues: Vec<PreflightIssue> = Vec::new();
    if let Some(m) = &g.compiler_message {
        push_issue(&mut issues, issue("invalid_plan", "error", m.clone(), "plan", None));
    }
    assert(issue_views(issues@) == compile_issues(*g));
    append_assets(&mut issues, g);
    append_events(&mut issues, g);
    append_flags(&mut issues, g);
    append_horizon(&mut issues, g);
    append_tail(&mut issues, g);
    let can_run = g.compiler_message.is_none();
    PreflightReport { issues, can_run }
}

/// Whether a civil date falls after another, in calendar order.
pub open spec fn date_after(a: (int, int, int), b: (int, int, int)) -> bool {
    a.0 > b.0 || (a.0 == b.0 && (a.1 > b.1 || (a.1 == b.1 && a.2 > b.2)))
}

/// Whether a setup request's name, id, dates, length and retirement age are
/// acceptable once both dates have parsed.
pub open spec fn setup_shape_ok(
    request_id: Seq<char>,
    name: Seq<char>,
    start: (int, int, int),
    birth: (int, int, int),
    duration_years: i64,
    retirement_age: u8,
) -> bool {
    &&& trimmed(name).len() > 0
    &&& 8 <= crate::auth::byte_len(request_id) <= 128
    &&& 1 <= duration_years <= 120
    &&& !date_after(birth, start)
    &&& retirement_age <= 120
}

/// The first checks on a guided setup request, in order: the start date
/// must parse, then the birth date; then the plan needs a name, a request id
/// of 8 to 128 bytes, a length of 1 to 120 years, a birth date no later
/// than the start, and a retirement age of at most 120.
pub fn check_setup_basics(
    request_id: &str,
    name: &str,
    start_date: &str,
    birth_date: &str,
    duration_years: i64,
    retirement_age: u8,
) -> (r: Result<(), ApiError>)
    ensures
        match (date_parse(start_date@), date_parse(birth_date@)) {
            (Err(_), _) => r matches Err(ApiError::BadRequest(m)) && m@ == "Invalid start date"@,
            (Ok(_), Err(_)) => r matches Err(ApiError::BadRequest(m)) && m@
                == "Enter a valid birth date"@,
            (Ok((_, sy, sm, sd)), Ok((_, by, bm, bd))) => if setup_shape_ok(
                request_id@,
                name@,
                (sy, sm, sd),
                (by, bm, bd),
                duration_years,
                retirement_age,
            ) {
                r is Ok
            } else {
                r matches Err(ApiError::BadRequest(m)) && m@
                    == "Review the plan name, dates and retirement age"@
            },
        },
{
    let start = match parse_civil_date(start_date) {
        Ok(d) => d,
        Err(_) => return Err(ApiError::bad_request("Invalid start date")),
    };
    let birth = match parse_civil_date(birth_date) {
        Ok(d) => d,
        Err(_) => return Err(ApiError::bad_request("Enter a valid birth date")),
    };
    let id_len = request_id.as_bytes().len();
    let birth_after_start = birth.year > start.year || (birth.year == start.year && (birth.month
        > start.month || (birth.month == start.month && birth.day > start.day)));
    if trim(name).unicode_len() == 0 || id_len < 8 || id_len > 128 || duration_years < 1
        || duration_years > 120 || birth_after_start || retirement_age > 120 {
        return Err(ApiError::bad_request("Review the plan name, dates and retirement age"));
    }
    Ok(())
}

/// The last check on a guided setup request: the assumptions are confirmed
/// and the investment account's tax treatment is one of the three known.
pub fn check_setup_confirmation(assumptions_confirmed: bool, investment_tax_status: &str) -> (r:
    Result<(), ApiError>)
    ensures
        r is Ok <==> (assumptions_confirmed && (investment_tax_status@ == "Taxable"@
            || investment_tax_status@ == "TaxDeferred"@ || investment_tax_status@ == "TaxFree"@)),
        r is Err ==> (r matches Err(ApiError::BadRequest(m)) && m@
            == "Confirm assumptions and select an investment account type"@),
{
    let known = same_text(investment_tax_status, "Taxable") || same_text(
        investment_tax_status,
        "TaxDeferred",
    ) || same_text(investment_tax_status, "TaxFree");
    if !assumptions_confirmed || !known {
        return Err(
            ApiError::bad_request("Confirm assumptions and select an investment account type"),
        );
    }
    Ok(())
}

/// The numbers of a guided setup request. Numbers are carried as the bit
/// patterns of their IEEE 754 doubles.
pub struct SetupAmounts {
    pub cash_bits: u64,
    pub retirement_401k_bits: u64,
    pub investments_bits: u64,
    pub annual_income_bits: u64,
    pub contribution_percent_bits: u64,
    pub annual_spending_bits: u64,
    pub retirement_spending_bits: u64,
    pub stock_percent_bits: u64,
    pub fund_from_investments: bool,
}

/// A double's bits say it is finite and not below zero.
pub open spec fn amount_ok(bits: u64) -> bool {
    finite_bits(bits) && !below_zero(bits)
}

/// A double's bits say it lies in `[0, 100]`.
pub open spec fn percent_ok(bits: u64) -> bool {
    bits <= 0x4059_0000_0000_0000u64 || bits == 0x8000_0000_0000_0000u64
}

/// A double's bits say it is zero, of either sign.
pub open spec fn zero_bits(bits: u64) -> bool {
    magnitude(bits) == 0
}

/// A double's bits say it is above zero.
pub open spec fn positive_bits(bits: u64) -> bool {
    0 < bits <= 0x7FF0_0000_0000_0000u64
}

/// What is wrong with a setup request's numbers, if anything, in the order
/// checked: every amount finite and not negative and both percentages within
/// 0 to 100; a 401(k) contribution needs a salary; funding from investments
/// needs a 401(k), other investments or a contribution (two amounts already
/// known finite and not negative sum to zero only when both are zero).
pub open spec fn setup_amounts_fault(a: SetupAmounts) -> Option<Seq<char>> {
    if !(amount_ok(a.cash_bits) && amount_ok(a.retirement_401k_bits) && amount_ok(a.investments_bits)
        && amount_ok(a.annual_income_bits) && amount_ok(a.contribution_percent_bits) && amount_ok(
        a.annual_spending_bits,
    ) && amount_ok(a.retirement_spending_bits)) || !finite_bits(a.stock_percent_bits) || !percent_ok(
        a.stock_percent_bits,
    ) || !percent_ok(a.contribution_percent_bits) {
        Some("Amounts must be finite and nonnegative; percentage fields must be 0\u{2013}100%"@)
    } else if positive_bits(a.contribution_percent_bits) && zero_bits(a.annual_income_bits) {
        Some("A 401(k) contribution requires positive annual salary"@)
    } else if a.fund_from_investments && zero_bits(a.retirement_401k_bits) && zero_bits(a.investments_bits)
        && zero_bits(a.contribution_percent_bits) {
        Some("Investment funding requires a 401(k) or another investment account"@)
    } else {
        None
    }
}

fn amount_fine(bits: u64) -> (r: bool)
    ensures
        r == amount_ok(bits),
{
    let magnitude = if bits >= 0x8000_0000_0000_0000u64 {
        bits - 0x8000_0000_0000_0000u64
    } else {
        bits
    };
    let negative = 0x8000_0000_0000_0001u64 <= bits && bits <= 0xFFF0_0000_0000_0000u64;
    magnitude < 0x7FF0_0000_0000_0000u64 && !negative
}

fn percent_fine(bits: u64) -> (r: bool)
    ensures
        r == percent_ok(bits),
{
    bits <= 0x4059_0000_0000_0000u64 || bits == 0x8000_0000_0000_0000u64
}

fn is_zero(bits: u64) -> (r: bool)
    ensures
        r == zero_bits(bits),
{
    bits == 0 || bits == 0x8000_0000_0000_0000u64
}

/// The checks on a guided setup request's numbers, as
/// [`setup_amounts_fault`] says; they come after [`check_setup_basics`] and
/// before [`check_setup_confirmation`].
pub fn check_setup_amounts(a: &SetupAmounts) -> (r: Result<(), ApiError>)
    ensures
        match setup_amounts_fault(*a) {
            None => r is Ok,
            Some(m) => r matches Err(ApiError::BadRequest(x)) && x@ == m,
        },
{
    let amounts_fine = amount_fine(a.cash_bits) && amount_fine(a.retirement_401k_bits) && amount_fine(
        a.investments_bits,
    ) && amount_fine(a.annual_income_bits) && amount_fine(a.contribution_percent_bits) && amount_fine(
        a.annual_spending_bits,
    ) && amount_fine(a.retirement_spending_bits);
    let stock = a.stock_percent_bits;
    let stock_magnitude = if stock >= 0x8000_0000_0000_0000u64 {
        stock - 0x8000_0000_0000_0000u64
    } else {
        stock
    };
    if !amounts_fine || !(stock_magnitude < 0x7FF0_0000_0000_0000u64) || !percent_fine(stock)
        || !percent_fine(a.contribution_percent_bits) {
        return Err(
            ApiError::bad_request(
                "Amounts must be finite and nonnegative; percentage fields must be 0\u{2013}100%",
            ),
        );
    }
    let contribution = a.contribution_percent_bits;
    if 0 < contribution && contribution <= 0x7FF0_0000_0000_0000u64 && is_zero(a.annual_income_bits) {
        return Err(ApiError::bad_request("A 401(k) contribution requires positive annual salary"));
    }
    if a.fund_from_investments && is_zero(a.retirement_401k_bits) && is_zero(a.investments_bits) && is_zero(
        contribution,
    ) {
        return Err(
            ApiError::bad_request("Investment funding requires a 401(k) or another investment account"),
        );
    }
    Ok(())
}

/// A setup request that carries an id already saved: the same inputs again
/// give back the plan they made; other inputs are refused; an id not seen
/// before goes on to be saved. `receipt` is the saved inputs (as text) and
/// the plan they made, where the id was saved.
pub fn setup_replay(receipt: &Option<(String, i64)>, body: &str) -> (r: Result<Option<i64>, ApiError>)
    ensures
        match receipt {
            None => r == Ok::<Option<i64>, ApiError>(None),
            Some((old, id)) => if old@ == body@ {
                r == Ok::<Option<i64>, ApiError>(Some(*id))
            } else {
                r matches Err(ApiError::BadRequest(m)) && m@
                    == "This setup was already saved with different inputs; start a new setup"@
            },
        },
{
    match receipt {
        None => Ok(None),
        Some((old, id)) => {
            if same_text(old.as_str(), body) {
                Ok(Some(*id))
            } else {
                Err(ApiError::bad_request("This setup was already saved with different inputs; start a new setup"))
            }
        },
    }
}

} // verus!
