//! Simulation runs: the request checks, the state a run may be canceled or
//! deleted in, and the year-by-year rollup of a run's ledger.
use vstd::prelude::*;

use crate::error::{joined, owned, ApiError};
use crate::text::{decimal, format_u64, parse_i64, parsed_i64, same_text};

verus! {

pub struct Run {
    pub id: i64,
    pub scenario_id: i64,
    pub status: String,
    /// Fixed runs: the count. Converging runs: the minimum sample taken
    /// before the metric is first tested.
    pub iterations: i64,
    pub completed_iterations: i64,
    pub converge: bool,
    pub max_iterations: Option<i64>,
    pub seed: Option<i64>,
    pub error_message: Option<String>,
    pub created_at: String,
    pub started_at: Option<String>,
    pub finished_at: Option<String>,
}

pub struct LedgerYear {
    pub year: i64,
    pub cash: i64,
    pub asset: i64,
    pub tax: i64,
    pub event: i64,
    pub total: i64,
    /// The name of the event that first fired this year, if any.
    pub tag: Option<String>,
}

pub struct Warning {
    pub kind: String,
    pub date: Option<String>,
    pub event_id: Option<i64>,
    pub message: String,
}

pub struct ResultsQuery {
    pub series: Option<String>,
}

pub struct LedgerQuery {
    pub series: Option<String>,
    pub year: Option<i64>,
    pub category: Option<String>,
    pub limit: Option<i64>,
    pub offset: Option<i64>,
}

/// The ceiling on a converging run, before the server's own cap.
pub const CONVERGE_CEILING: i64 = 10_000;

/// The most ledger entries one request returns.
pub const LEDGER_PAGE_MAX: i64 = 500;

pub fn default_iterations() -> (r: i64)
    ensures
        r == 1000,
{
    1000
}

pub fn default_batch() -> (r: i64)
    ensures
        r == 100,
{
    100
}

pub fn default_parallel() -> (r: i64)
    ensures
        r == 4,
{
    4
}

pub fn yes() -> (r: bool)
    ensures
        r,
{
    true
}

/// What is stored for a run request: the iterations, the ceiling a
/// converging run may not pass, and batch settings of at least one.
pub struct RunPlan {
    pub iterations: i64,
    pub ceiling: Option<i64>,
    pub batch_size: i64,
    pub parallel_batches: i64,
}

pub open spec fn ceiling_of(converge: bool, max_iterations: usize) -> Option<i64> {
    if converge {
        let m = max_iterations as i64;
        Some(
            if CONVERGE_CEILING < m {
                CONVERGE_CEILING
            } else {
                m
            },
        )
    } else {
        None
    }
}

/// Check a run request against the server's cap and settle what is stored.
/// A converging run's iterations are its minimum sample, so they are clamped
/// to the ceiling rather than refused.
pub fn plan_run(
    iterations: i64,
    converge: bool,
    batch_size: i64,
    parallel_batches: i64,
    max_iterations: usize,
) -> (r: Result<RunPlan, ApiError>)
    ensures
        iterations < 1 ==> (r matches Err(ApiError::BadRequest(m)) && m@
            == "iterations must be at least 1"@),
        iterations >= 1 && iterations > max_iterations ==> (r matches Err(ApiError::BadRequest(m))
            && m@ == "iterations must not exceed "@ + decimal(max_iterations as nat)),
        1 <= iterations <= max_iterations ==> (r matches Ok(p) && {
            let c = ceiling_of(converge, max_iterations);
            &&& p.ceiling == c
            &&& p.iterations == (match c {
                Some(cap) => if iterations < cap {
                    iterations
                } else {
                    cap
                },
                None => iterations,
            })
            &&& p.batch_size == (if batch_size < 1 {
                1
            } else {
                batch_size
            })
            &&& p.parallel_batches == (if parallel_batches < 1 {
                1
            } else {
                parallel_batches
            })
        }),
{
    if iterations < 1 {
        return Err(ApiError::bad_request("iterations must be at least 1"));
    }
    if (iterations as u64) > (max_iterations as u64) {
        let max = format_u64(max_iterations as u64);
        return Err(ApiError::BadRequest(joined("iterations must not exceed ", max.as_str())));
    }
    let ceiling = if converge {
        let m = max_iterations as i64;
        Some(
            if CONVERGE_CEILING < m {
                CONVERGE_CEILING
            } else {
                m
            },
        )
    } else {
        None
    };
    let planned = match ceiling {
        Some(cap) => if iterations < cap {
            iterations
        } else {
            cap
        },
        None => iterations,
    };
    Ok(RunPlan {
        iterations: planned,
        ceiling,
        batch_size: if batch_size < 1 {
            1
        } else {
            batch_size
        },
        parallel_batches: if parallel_batches < 1 {
            1
        } else {
            parallel_batches
        },
    })
}

/// What canceling a run does, by the state it is in.
#[derive(Debug, Clone, Copy, PartialEq, Eq, Structural)]
pub enum CancelAction {
    /// Running: ask its worker to stop.
    SignalWorker,
    /// Queued and not yet claimed: mark it canceled so the worker skips it.
    MarkCanceled,
}

pub fn cancel_action(status: &str) -> (r: Result<CancelAction, ApiError>)
    ensures
        status@ == "running"@ ==> r == Ok::<CancelAction, ApiError>(CancelAction::SignalWorker),
        status@ == "queued"@ ==> r == Ok::<CancelAction, ApiError>(CancelAction::MarkCanceled),
        status@ != "running"@ && status@ != "queued"@ ==> (r matches Err(ApiError::Conflict(m))
            && m@ == "run has already finished with status '"@ + status@ + "'"@),
{
    proof {
        reveal_strlit("running");
        reveal_strlit("queued");
        assert("running"@.len() == 7);
        assert("queued"@.len() == 6);
    }
    if same_text(status, "running") {
        Ok(CancelAction::SignalWorker)
    } else if same_text(status, "queued") {
        Ok(CancelAction::MarkCanceled)
    } else {
        let mut m = joined("run has already finished with status '", status);
        m.append("'");
        Err(ApiError::Conflict(m))
    }
}

/// A running run must be canceled before it is deleted.
pub fn check_destroy(status: &str) -> (r: Result<(), ApiError>)
    ensures
        r is Ok <==> status@ != "running"@,
        r is Err ==> (r matches Err(ApiError::Conflict(m)) && m@
            == "cancel the run before deleting it"@),
{
    if same_text(status, "running") {
        Err(ApiError::Conflict(owned("cancel the run before deleting it")))
    } else {
        Ok(())
    }
}

/// The ledger of a run is there only once the run succeeded.
pub fn check_ledger_available(status: &str) -> (r: Result<(), ApiError>)
    ensures
        r is Ok <==> status@ == "succeeded"@,
        r is Err ==> (r matches Err(ApiError::Conflict(m)) && m@ == "run is '"@ + status@
            + "'; the ledger is only available once it has succeeded"@),
{
    if same_text(status, "succeeded") {
        Ok(())
    } else {
        let mut m = joined("run is '", status);
        m.append("'; the ledger is only available once it has succeeded");
        Err(ApiError::Conflict(m))
    }
}

/// A run's results are there only once the run succeeded.
pub fn check_results_available(status: &str) -> (r: Result<(), ApiError>)
    ensures
        r is Ok <==> status@ == "succeeded"@,
        r is Err ==> (r matches Err(ApiError::Conflict(m)) && m@ == "run is '"@ + status@
            + "'; results are only available once it has succeeded"@),
{
    if same_text(status, "succeeded") {
        Ok(())
    } else {
        let mut m = joined("run is '", status);
        m.append("'; results are only available once it has succeeded");
        Err(ApiError::Conflict(m))
    }
}

pub open spec fn ledger_category(c: Seq<char>) -> bool {
    c == "cash"@ || c == "asset"@ || c == "tax"@ || c == "event"@
}

/// The page a ledger request reads: a known category if one is named, at
/// most 500 entries (500 when unsaid), from a non-negative offset.
pub fn ledger_page(category: Option<&str>, limit: Option<i64>, offset: Option<i64>) -> (r: Result<
    (i64, i64),
    ApiError,
>)
    ensures
        match category {
            Some(c) => !ledger_category(c@) ==> (r matches Err(ApiError::BadRequest(m)) && m@
                == "category must be one of cash, asset, tax, event"@),
            None => true,
        },
        (match category {
            Some(c) => ledger_category(c@),
            None => true,
        }) ==> (r matches Ok((l, o)) && l == ({
            let v = match limit {
                Some(v) => v,
                None => LEDGER_PAGE_MAX,
            };
            if v < 1 {
                1
            } else if v > LEDGER_PAGE_MAX {
                LEDGER_PAGE_MAX
            } else {
                v
            }
        }) && o == ({
            let v = match offset {
                Some(v) => v,
                None => 0,
            };
            if v < 0 {
                0
            } else {
                v
            }
        })),
{
    if let Some(c) = category {
        if !(same_text(c, "cash") || same_text(c, "asset") || same_text(c, "tax") || same_text(
            c,
            "event",
        )) {
            return Err(ApiError::bad_request("category must be one of cash, asset, tax, event"));
        }
    }
    let v = match limit {
        Some(v) => v,
        None => LEDGER_PAGE_MAX,
    };
    let l = if v < 1 {
        1
    } else if v > LEDGER_PAGE_MAX {
        LEDGER_PAGE_MAX
    } else {
        v
    };
    let w = match offset {
        Some(v) => v,
        None => 0,
    };
    let o = if w < 0 {
        0
    } else {
        w
    };
    Ok((l, o))
}

/// The year a date's first four characters name, or zero when they are not
/// four ASCII characters spelling a number.
pub open spec fn year_from(date: Seq<char>) -> i64 {
    if date.len() >= 4 && (forall|i: int| 0 <= i < 4 ==> (#[trigger] date[i] as u32) < 128) {
        match parsed_i64(date.subrange(0, 4)) {
            Some(y) => y,
            None => 0,
        }
    } else {
        0
    }
}

pub fn year_of(date: &str) -> (r: i64)
    ensures
        r == year_from(date@),
{
    let n = date.unicode_len();
    if n < 4 {
        return 0;
    }
    let mut i: usize = 0;
    while i < 4
        invariant
            i <= 4,
            n == date@.len(),
            n >= 4,
            forall|j: int| 0 <= j < i ==> (#[trigger] date@[j] as u32) < 128,
        decreases 4 - i,
    {
        if (date.get_char(i) as u32) >= 128 {
            return 0;
        }
        i = i + 1;
    }
    match parse_i64(date.substring_char(0, 4)) {
        Some(y) => y,
        None => 0,
    }
}

/// A year's counts: cash, asset, tax, event, total.
pub open spec fn add_count(y: (i64, int, int, int, int, int), category: Seq<char>, n: int) -> (
    i64,
    int,
    int,
    int,
    int,
    int,
) {
    (
        y.0,
        y.1 + if category == "cash"@ {
            n
        } else {
            0
        },
        y.2 + if category == "asset"@ {
            n
        } else {
            0
        },
        y.3 + if category == "tax"@ {
            n
        } else {
            0
        },
        y.4 + if category == "event"@ {
            n
        } else {
            0
        },
        y.5 + n,
    )
}

/// Counts grouped by (year, category), in year order, rolled up into one
/// entry per year.
pub open spec fn rollup(rows: Seq<(i64, Seq<char>, i64)>) -> Seq<(i64, int, int, int, int, int)>
    decreases rows.len(),
{
    if rows.len() == 0 {
        Seq::empty()
    } else {
        let before = rollup(rows.drop_last());
        let (year, category, n) = rows.last();
        if before.len() > 0 && before.last().0 == year {
            before.update(before.len() - 1, add_count(before.last(), category, n as int))
        } else {
            before.push(add_count((year, 0, 0, 0, 0, 0), category, n as int))
        }
    }
}

/// Tag each year with the first event that started in it; `firsts` holds
/// each event's first firing (year, name), earliest first.
pub open spec fn tagged(years: Seq<i64>, firsts: Seq<(i64, Seq<char>)>) -> Seq<Option<Seq<char>>>
    decreases firsts.len(),
{
    if firsts.len() == 0 {
        Seq::new(years.len(), |i: int| None::<Seq<char>>)
    } else {
        let before = tagged(years, firsts.drop_last());
        let (year, name) = firsts.last();
        if exists|i: int| 0 <= i < years.len() && years[i] == year {
            let i = choose|i: int| 0 <= i < years.len() && years[i] == year;
            if before[i] is None {
                before.update(i, Some(name))
            } else {
                before
            }
        } else {
            before
        }
    }
}

pub open spec fn total_count(rows: Seq<(i64, Seq<char>, i64)>) -> int
    decreases rows.len(),
{
    if rows.len() == 0 {
        0
    } else {
        total_count(rows.drop_last()) + rows.last().2
    }
}

pub open spec fn row_views(rows: Seq<(i64, String, i64)>) -> Seq<(i64, Seq<char>, i64)> {
    rows.map_values(|r: (i64, String, i64)| (r.0, r.1@, r.2))
}

pub open spec fn first_views(rows: Seq<(i64, String)>) -> Seq<(i64, Seq<char>)> {
    rows.map_values(|r: (i64, String)| (r.0, r.1@))
}

pub open spec fn year_entry(y: LedgerYear) -> (i64, int, int, int, int, int) {
    (y.year, y.cash as int, y.asset as int, y.tax as int, y.event as int, y.total as int)
}

proof fn lemma_rollup_bounds(rows: Seq<(i64, Seq<char>, i64)>)
    requires
        forall|i: int| 0 <= i < rows.len() ==> (#[trigger] rows[i]).2 >= 0,
    ensures
        forall|i: int|
            0 <= i < rollup(rows).len() ==> {
                let y = #[trigger] rollup(rows)[i];
                0 <= y.1 <= y.5 && 0 <= y.2 <= y.5 && 0 <= y.3 <= y.5 && 0 <= y.4 <= y.5 && y.5
                    <= total_count(rows)
            },
        total_count(rows) >= 0,
    decreases rows.len(),
{
    if rows.len() > 0 {
        assert forall|i: int| 0 <= i < rows.len() - 1 implies (#[trigger] rows.drop_last()[i]).2 >= 0 by {
            assert(rows.drop_last()[i] == rows[i]);
        }
        lemma_rollup_bounds(rows.drop_last());
        assert(rows[rows.len() - 1] == rows.last());
        let before = rollup(rows.drop_last());
        let n = rows.last().2 as int;
        assert(n >= 0);
        assert forall|i: int| 0 <= i < rollup(rows).len() implies {
            let y = #[trigger] rollup(rows)[i];
            0 <= y.1 <= y.5 && 0 <= y.2 <= y.5 && 0 <= y.3 <= y.5 && 0 <= y.4 <= y.5 && y.5
                <= total_count(rows)
        } by {
            if i < before.len() {
                let b = before[i];
                assert(0 <= b.1 <= b.5 && b.5 <= total_count(rows.drop_last()));
            }
        }
    }
}

proof fn lemma_total_prefix(rows: Seq<(i64, Seq<char>, i64)>, i: int)
    requires
        0 <= i <= rows.len(),
        forall|k: int| 0 <= k < rows.len() ==> (#[trigger] rows[k]).2 >= 0,
    ensures
        total_count(rows.subrange(0, i)) <= total_count(rows),
    decreases rows.len() - i,
{
    if i < rows.len() {
        lemma_total_prefix(rows, i + 1);
        assert(rows.subrange(0, i + 1).drop_last() == rows.subrange(0, i));
        assert(rows.subrange(0, i + 1).last() == rows[i]);
    } else {
        assert(rows.subrange(0, i) == rows);
    }
}

pub open spec fn sorted_years(rows: Seq<(i64, Seq<char>, i64)>) -> bool {
    forall|i: int, j: int| 0 <= i <= j < rows.len() ==> (#[trigger] rows[i]).0 <= (#[trigger] rows[j]).0
}

/// Over rows in year order, the rolled-up years strictly increase, and the
/// last is the last row's year.
proof fn lemma_rollup_years(rows: Seq<(i64, Seq<char>, i64)>)
    requires
        sorted_years(rows),
    ensures
        forall|i: int, j: int|
            0 <= i < j < rollup(rows).len() ==> (#[trigger] rollup(rows)[i]).0 < (#[trigger] rollup(
                rows,
            )[j]).0,
        rows.len() > 0 ==> rollup(rows).len() > 0 && rollup(rows).last().0 == rows.last().0,
        rows.len() == 0 ==> rollup(rows).len() == 0,
        forall|i: int| 0 <= i < rollup(rows).len() ==> (#[trigger] rollup(rows)[i]).0 <= (if rows.len() > 0 { rows.last().0 } else { 0 }),
    decreases rows.len(),
{
    if rows.len() > 0 {
        let d = rows.drop_last();
        assert(sorted_years(d)) by {
            assert forall|i: int, j: int| 0 <= i <= j < d.len() implies (#[trigger] d[i]).0 <= (#[trigger] d[j]).0 by {
                assert(d[i] == rows[i] && d[j] == rows[j]);
            }
        }
        lemma_rollup_years(d);
        if d.len() > 0 {
            assert(d.last() == rows[rows.len() - 2]);
            assert(rows[rows.len() - 2].0 <= rows[rows.len() - 1].0);
        }
        assert(rows.last() == rows[rows.len() - 1]);
    }
}

/// Roll a run's ledger counts up by year and tag each year with the first
/// event that started in it. `rows` holds (year, category, count) ordered by
/// year; `firsts` holds (year, event name) ordered by first firing.
pub fn ledger_years(rows: &[(i64, String, i64)], firsts: &[(i64, String)]) -> (r: Vec<LedgerYear>)
    requires
        sorted_years(row_views(rows@)),
        forall|i: int| 0 <= i < rows@.len() ==> (#[trigger] rows@[i]).2 >= 0,
        total_count(row_views(rows@)) <= i64::MAX,
    ensures
        r@.map_values(|y: LedgerYear| year_entry(y)) == rollup(row_views(rows@)),
        r@.map_values(
            |y: LedgerYear|
                match y.tag {
                    Some(t) => Some(t@),
                    None => None,
                },
        ) == tagged(
            rollup(row_views(rows@)).map_values(|e: (i64, int, int, int, int, int)| e.0),
            first_views(firsts@),
        ),
{
    let ghost rv = row_views(rows@);
    let mut years: Vec<LedgerYear> = Vec::new();
    let mut i: usize = 0;
    assert forall|k: int| 0 <= k < rv.len() implies (#[trigger] rv[k]).2 >= 0 by {
        assert(rv[k].2 == rows@[k].2);
    }
    while i < rows.len()
        invariant
            i <= rows@.len(),
            rv == row_views(rows@),
            forall|k: int| 0 <= k < rv.len() ==> (#[trigger] rv[k]).2 >= 0,
            total_count(rv) <= i64::MAX,
            years@.map_values(|y: LedgerYear| year_entry(y)) == rollup(rv.subrange(0, i as int)),
            forall|k: int| 0 <= k < years@.len() ==> (#[trigger] years@[k]).tag is None,
        decreases rows@.len() - i,
    {
        let year = rows[i].0;
        let count = rows[i].2;
        let category = rows[i].1.as_str();
        let ghost pre = rv.subrange(0, i as int);
        let ghost nxt = rv.subrange(0, i + 1);
        assert(nxt.drop_last() == pre);
        assert(nxt.last() == rv[i as int]);
        assert(rv[i as int] == (year, category@, count));
        proof {
            assert forall|k: int| 0 <= k < nxt.len() implies (#[trigger] nxt[k]).2 >= 0 by {
                assert(nxt[k] == rv[k]);
            }
            lemma_rollup_bounds(nxt);
            lemma_total_prefix(rv, i + 1);
        }
        let ghost target = rollup(nxt);
        let cash = same_text(category, "cash");
        let asset = same_text(category, "asset");
        let tax = same_text(category, "tax");
        let event = same_text(category, "event");
        let n = years.len();
        let ghost before = years@;
        if n > 0 && years[n - 1].year == year {
            assert(rollup(pre).last() == year_entry(before[n - 1]));
            assert(target[n - 1] == add_count(rollup(pre).last(), category@, count as int));
            let mut y = years.pop().unwrap();
            y.cash = y.cash + if cash {
                count
            } else {
                0
            };
            y.asset = y.asset + if asset {
                count
            } else {
                0
            };
            y.tax = y.tax + if tax {
                count
            } else {
                0
            };
            y.event = y.event + if event {
                count
            } else {
                0
            };
            y.total = y.total + count;
            years.push(y);
            assert(years@ == before.update(n - 1, y));
            assert(years@.map_values(|y: LedgerYear| year_entry(y)) == target);
        } else {
            proof {
                if n > 0 {
                    assert(rollup(pre).last() == year_entry(before[n - 1]));
                }
            }
            assert(target.last() == add_count((year, 0, 0, 0, 0, 0), category@, count as int));
            let y = LedgerYear {
                year,
                cash: if cash {
                    count
                } else {
                    0
                },
                asset: if asset {
                    count
                } else {
                    0
                },
                tax: if tax {
                    count
                } else {
                    0
                },
                event: if event {
                    count
                } else {
                    0
                },
                total: count,
                tag: None,
            };
            years.push(y);
            assert(years@.map_values(|y: LedgerYear| year_entry(y)) == target);
        }
        i = i + 1;
    }
    assert(rv.subrange(0, rows@.len() as int) == rv);
    let ghost ys = rollup(rv).map_values(|e: (i64, int, int, int, int, int)| e.0);
    let ghost fv = first_views(firsts@);
    proof {
        lemma_rollup_years(rv);
    }
    assert(years@.map_values(
        |y: LedgerYear|
            match y.tag {
                Some(t) => Some(t@),
                None => None,
            },
    ) == tagged(ys, fv.subrange(0, 0)));
    let mut j: usize = 0;
    while j < firsts.len()
        invariant
            j <= firsts@.len(),
            fv == first_views(firsts@),
            years@.map_values(|y: LedgerYear| year_entry(y)) == rollup(rv),
            ys == rollup(rv).map_values(|e: (i64, int, int, int, int, int)| e.0),
            forall|a: int, b: int| 0 <= a < b < ys.len() ==> (#[trigger] ys[a]) < (#[trigger] ys[b]),
            years@.map_values(
                |y: LedgerYear|
                    match y.tag {
                        Some(t) => Some(t@),
                        None => None,
                    },
            ) == tagged(ys, fv.subrange(0, j as int)),
        decreases firsts@.len() - j,
    {
        let year = firsts[j].0;
        let ghost pre = fv.subrange(0, j as int);
        assert(fv.subrange(0, j + 1).drop_last() == pre);
        assert(fv.subrange(0, j + 1).last() == fv[j as int]);
        assert(fv[j as int] == (year, firsts@[j as int].1@));
        let ghost tags = tagged(ys, pre);
        let mut k: usize = 0;
        while k < years.len() && years[k].year != year
            invariant
                k <= years@.len(),
                years@.len() == ys.len(),
                forall|m: int| 0 <= m < years@.len() ==> (#[trigger] years@[m]).year == ys[m],
                forall|m: int| 0 <= m < k ==> ys[m] != year,
            decreases years@.len() - k,
        {
            k = k + 1;
        }
        if k < years.len() {
            proof {
                let c = choose|c: int| 0 <= c < ys.len() && ys[c] == year;
                if c != k {
                    if c < k {
                        assert(ys[c] < ys[k as int]);
                    } else {
                        assert(ys[k as int] < ys[c]);
                    }
                }
            }
            if years[k].tag.is_none() {
                let ghost before = years@;
                let mut y = years.remove(k);
                y.tag = Some(firsts[j].1.clone());
                years.insert(k, y);
                assert(years@ == before.update(k as int, y));
                assert(years@.map_values(|y: LedgerYear| year_entry(y)) == before.map_values(
                    |y: LedgerYear| year_entry(y),
                ));
            }
        }
        j = j + 1;
    }
    assert(fv.subrange(0, firsts@.len() as int) == fv);
    years
}

} // verus!
