//! Sweeps, sensitivity rankings and goal seeks as clients ask for them: what
//! a request may name, and how a job reads back.
use vstd::prelude::*;

use crate::error::{joined, owned, ApiError};
use crate::jobs::{kind_name, status_name, JobView};
use crate::text::same_text;

verus! {

/// Most values one sweep axis may take.
pub const MAX_STEPS: usize = 12;

/// Most axes one sweep may have.
pub const MAX_AXES: usize = 2;

/// Most parameters one solve may vary.
pub const MAX_VARIED: usize = 3;

pub const MAX_ANALYSIS_ITERATIONS: usize = 2_000;

pub const MIN_ITERATIONS: usize = 25;

/// Axis resolution when a sweep does not say.
pub const DEFAULT_STEPS: usize = 6;

/// The fixed seed every analysis runs with.
pub const ANALYSIS_SEED: u64 = 0x5EED;

/// What a plan parameter measures.
#[derive(Debug, Clone, Copy, PartialEq, Eq, Structural)]
pub enum ParamKind {
    Age,
    Amount,
    Rate,
    Date,
}

impl ParamKind {
    pub fn as_str(self) -> (r: &'static str)
        ensures
            r@ == (match self {
                ParamKind::Age => "age"@,
                ParamKind::Amount => "amount"@,
                ParamKind::Rate => "rate"@,
                ParamKind::Date => "date"@,
            }),
    {
        match self {
            ParamKind::Age => "age",
            ParamKind::Amount => "amount",
            ParamKind::Rate => "rate",
            ParamKind::Date => "date",
        }
    }
}

#[derive(Debug, Clone, Copy, PartialEq, Eq, Structural)]
pub enum ObjectiveRequest {
    MaxParameter,
    MinParameter,
    MaxMedianNetWorth,
    MaxFloorNetWorth,
}

#[derive(Debug, Clone, Copy, PartialEq, Eq, Structural)]
pub enum ConstraintRequest {
    SuccessRate,
    FundingSuccessRate,
}

impl ConstraintRequest {
    /// A solve constrains the success rate unless it says otherwise.
    pub fn or_default(c: Option<ConstraintRequest>) -> (r: ConstraintRequest)
        ensures
            r == (match c {
                Some(x) => x,
                None => ConstraintRequest::SuccessRate,
            }),
    {
        match c {
            Some(x) => x,
            None => ConstraintRequest::SuccessRate,
        }
    }
}

/// A job as the analysis routes report it.
pub struct Analysis {
    pub id: i64,
    pub scenario_id: i64,
    pub kind: String,
    pub status: String,
    pub completed: i64,
    pub total: i64,
    pub error_message: Option<String>,
    pub elapsed_ms: Option<i64>,
}

impl Analysis {
    pub fn from_view(view: JobView) -> (a: Analysis)
        ensures
            a.id == view.id,
            a.scenario_id == view.scenario_id,
            a.kind@ == kind_name(view.kind),
            a.status@ == status_name(view.status),
            a.completed == view.completed as i64,
            a.total == view.total as i64,
            a.error_message == view.error,
            a.elapsed_ms == (match view.elapsed_ms {
                Some(ms) => Some(ms as i64),
                None => None,
            }),
    {
        Analysis {
            id: view.id,
            scenario_id: view.scenario_id,
            kind: owned(view.kind.as_str()),
            status: owned(view.status.as_str()),
            completed: view.completed as i64,
            total: view.total as i64,
            error_message: view.error,
            elapsed_ms: match view.elapsed_ms {
                Some(ms) => Some(ms as i64),
                None => None,
            },
        }
    }
}

/// The iterations an analysis runs: the request's, else `fallback`, between
/// 25 and 2 000.
pub fn iterations_or_default(requested: Option<usize>, fallback: usize) -> (r: Result<usize, ApiError>)
    ensures
        ({
            let it = match requested {
                Some(n) => n,
                None => fallback,
            };
            &&& r is Ok <==> MIN_ITERATIONS <= it <= MAX_ANALYSIS_ITERATIONS
            &&& r matches Ok(n) ==> n == it
            &&& r is Err ==> (r matches Err(ApiError::BadRequest(m)) && m@
                == "iterations must be between 25 and 2000"@)
        }),
{
    let it = match requested {
        Some(n) => n,
        None => fallback,
    };
    if it < MIN_ITERATIONS || it > MAX_ANALYSIS_ITERATIONS {
        return Err(ApiError::bad_request("iterations must be between 25 and 2000"));
    }
    Ok(it)
}

/// A plan with nothing to vary cannot be analysed.
pub fn check_parameters_available(count: usize) -> (r: Result<(), ApiError>)
    ensures
        r is Ok <==> count > 0,
        r is Err ==> (r matches Err(ApiError::Unprocessable(m)) && m@
            == "this plan has no parameters to analyse — an analysable event needs an age trigger or a fixed amount"@),
{
    if count == 0 {
        return Err(
            ApiError::unprocessable(
                "this plan has no parameters to analyse — an analysable event needs an age trigger or a fixed amount",
            ),
        );
    }
    Ok(())
}

/// A sweep has one or two axes.
pub fn check_axes(count: usize) -> (r: Result<(), ApiError>)
    ensures
        r is Ok <==> 1 <= count <= MAX_AXES,
        r is Err ==> (r matches Err(ApiError::BadRequest(m)) && m@ == "a sweep takes one or 2 axes"@),
{
    if count == 0 || count > MAX_AXES {
        return Err(ApiError::bad_request("a sweep takes one or 2 axes"));
    }
    Ok(())
}

/// A solve varies one to three parameters.
pub fn check_varied(count: usize) -> (r: Result<(), ApiError>)
    ensures
        r is Ok <==> 1 <= count <= MAX_VARIED,
        r is Err ==> (r matches Err(ApiError::BadRequest(m)) && m@
            == "a solve varies between one and 3 parameters"@),
{
    if count == 0 || count > MAX_VARIED {
        return Err(ApiError::bad_request("a solve varies between one and 3 parameters"));
    }
    Ok(())
}

/// Steps a solve's grid falls back to: coarse enough to finish when more
/// than one parameter is varied.
pub fn solve_steps(varied: usize) -> (r: usize)
    ensures
        r == (if varied > 1 {
            5usize
        } else {
            2usize
        }),
{
    if varied > 1 {
        5
    } else {
        2
    }
}

/// What an axis of a request reads as, as far as its checks go: the
/// parameter it names, whether its range (as requested or defaulted from the
/// plan) has max above min, and the steps it asks for.
pub struct AxisCheck {
    pub parameter_id: String,
    pub range_ok: bool,
    pub steps: Option<usize>,
}

pub open spec fn axis_ids(axes: Seq<AxisCheck>) -> Seq<Seq<char>> {
    axes.map_values(|a: AxisCheck| a.parameter_id@)
}

/// The error the first bad axis gets, checking each in turn: a parameter the
/// plan does not have, one named twice, a range without max above min, and
/// steps outside 2 to 12.
pub open spec fn axes_verdict(
    available: Seq<Seq<char>>,
    axes: Seq<AxisCheck>,
    default_steps: usize,
    i: int,
) -> Option<(int, Seq<char>)>
    decreases axes.len() - i,
{
    if i < 0 || i >= axes.len() {
        None
    } else {
        let a = axes[i];
        if !available.contains(a.parameter_id@) {
            Some((0, Seq::empty()))
        } else if axis_ids(axes).subrange(0, i).contains(a.parameter_id@) {
            Some((1, a.parameter_id@ + " is named twice; each axis needs its own parameter"@))
        } else if !a.range_ok {
            Some((1, a.parameter_id@ + " needs a range with max above min"@))
        } else if !(2 <= (match a.steps {
            Some(s) => s,
            None => default_steps,
        }) <= MAX_STEPS) {
            Some((1, "steps must be between 2 and 12"@))
        } else {
            axes_verdict(available, axes, default_steps, i + 1)
        }
    }
}

/// Check a request's axes against the plan's parameters; a parameter the
/// plan lacks is a miss, the other faults a bad request.
pub fn check_axis_list(available: &[String], axes: &[AxisCheck], default_steps: usize) -> (r: Result<(), ApiError>)
    ensures
        match axes_verdict(crate::text::views(available@), axes@, default_steps, 0) {
            None => r is Ok,
            Some((kind, m)) => if kind == 0 {
                r == Err::<(), ApiError>(ApiError::NotFound("parameter"))
            } else {
                r matches Err(ApiError::BadRequest(x)) && x@ == m
            },
        },
{
    let ghost av = crate::text::views(available@);
    let mut i: usize = 0;
    while i < axes.len()
        invariant
            i <= axes@.len(),
            av == crate::text::views(available@),
            axes_verdict(av, axes@, default_steps, 0) == axes_verdict(av, axes@, default_steps, i as int),
        decreases axes@.len() - i,
    {
        let a = &axes[i];
        let id = a.parameter_id.as_str();
        let mut found = false;
        let mut k: usize = 0;
        while k < available.len() && !found
            invariant
                k <= available@.len(),
                av == crate::text::views(available@),
                found ==> av.contains(id@),
                !found ==> forall|j: int| 0 <= j < k ==> av[j] != id@,
            decreases available@.len() - k,
        {
            if same_text(available[k].as_str(), id) {
                assert(av[k as int] == id@);
                found = true;
            }
            k = k + 1;
        }
        if !found {
            return Err(ApiError::NotFound("parameter"));
        }
        let mut twice = false;
        let mut j: usize = 0;
        while j < i && !twice
            invariant
                j <= i < axes@.len(),
                twice ==> axis_ids(axes@).subrange(0, i as int).contains(id@),
                !twice ==> forall|q: int| 0 <= q < j ==> axis_ids(axes@)[q] != id@,
            decreases i - j,
        {
            if same_text(axes[j].parameter_id.as_str(), id) {
                assert(axis_ids(axes@).subrange(0, i as int)[j as int] == id@);
                twice = true;
            }
            j = j + 1;
        }
        proof {
            if !twice && axis_ids(axes@).subrange(0, i as int).contains(id@) {
                let q = choose|q: int| 0 <= q < i && axis_ids(axes@).subrange(0, i as int)[q] == id@;
                assert(axis_ids(axes@)[q] == id@);
            }
        }
        if twice {
            return Err(ApiError::BadRequest(joined(id, " is named twice; each axis needs its own parameter")));
        }
        if !a.range_ok {
            return Err(ApiError::BadRequest(joined(id, " needs a range with max above min")));
        }
        let steps = match a.steps {
            Some(s) => s,
            None => default_steps,
        };
        if steps < 2 || steps > MAX_STEPS {
            return Err(ApiError::bad_request("steps must be between 2 and 12"));
        }
        i = i + 1;
    }
    Ok(())
}

} // verus!
