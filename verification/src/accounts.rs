//! Accounts: the names their detail columns are stored under, loan
//! repayment, what an account's flavor must hold, and what an update may
//! change.
use vstd::prelude::*;

use crate::effects::below_zero;
use crate::error::{joined, ApiError};
use crate::text::{same_text, trim, trimmed};

verus! {

#[derive(Debug, Clone, Copy, PartialEq, Eq, Structural)]
pub enum TaxStatus {
    Taxable,
    TaxDeferred,
    TaxFree,
}

impl TaxStatus {
    pub fn as_str(self) -> (r: &'static str)
        ensures
            r@ == (match self {
                TaxStatus::Taxable => "Taxable"@,
                TaxStatus::TaxDeferred => "TaxDeferred"@,
                TaxStatus::TaxFree => "TaxFree"@,
            }),
    {
        match self {
            TaxStatus::Taxable => "Taxable",
            TaxStatus::TaxDeferred => "TaxDeferred",
            TaxStatus::TaxFree => "TaxFree",
        }
    }

    /// A stored status read back; anything unknown reads as taxable.
    pub fn from_stored(text: &str) -> (r: Self)
        ensures
            r == (if text@ == "TaxDeferred"@ {
                TaxStatus::TaxDeferred
            } else if text@ == "TaxFree"@ {
                TaxStatus::TaxFree
            } else {
                TaxStatus::Taxable
            }),
    {
        if same_text(text, "TaxDeferred") {
            TaxStatus::TaxDeferred
        } else if same_text(text, "TaxFree") {
            TaxStatus::TaxFree
        } else {
            TaxStatus::Taxable
        }
    }
}

#[derive(Debug, Clone, Copy, PartialEq, Eq, Structural)]
pub enum ContributionPeriod {
    Monthly,
    Yearly,
}

impl ContributionPeriod {
    pub fn as_str(self) -> (r: &'static str)
        ensures
            r@ == (match self {
                ContributionPeriod::Monthly => "Monthly"@,
                ContributionPeriod::Yearly => "Yearly"@,
            }),
    {
        match self {
            ContributionPeriod::Monthly => "Monthly",
            ContributionPeriod::Yearly => "Yearly",
        }
    }

    /// A stored period read back; anything else reads as none.
    pub fn from_stored(text: Option<&str>) -> (r: Option<Self>)
        ensures
            r == (match text {
                Some(t) => if t@ == "Monthly"@ {
                    Some(ContributionPeriod::Monthly)
                } else if t@ == "Yearly"@ {
                    Some(ContributionPeriod::Yearly)
                } else {
                    None
                },
                None => None,
            }),
    {
        match text {
            Some(t) => if same_text(t, "Monthly") {
                Some(ContributionPeriod::Monthly)
            } else if same_text(t, "Yearly") {
                Some(ContributionPeriod::Yearly)
            } else {
                None
            },
            None => None,
        }
    }
}

/// How a loan pays itself off: a level monthly payment from a cash account.
#[derive(Debug, Clone, Copy, PartialEq, Eq, Structural)]
pub struct RepaymentSpec {
    /// Bank or investment account the payment is drawn from.
    pub from_account_id: i64,
    /// Months remaining at plan start.
    pub term_months: u32,
}

/// Both stored columns or neither: a payer cleared by its deletion leaves a
/// term with nothing to draw from, which reads as no repayment; so does a
/// term that is not a positive count of months.
pub fn repayment_of(from: Option<i64>, term: Option<i64>) -> (r: Option<RepaymentSpec>)
    ensures
        r == (match (from, term) {
            (Some(f), Some(t)) => if 0 < t <= u32::MAX {
                Some(RepaymentSpec { from_account_id: f, term_months: t as u32 })
            } else {
                None
            },
            _ => None,
        }),
{
    match (from, term) {
        (Some(f), Some(t)) => if 0 < t && t <= 4_294_967_295 {
            Some(RepaymentSpec { from_account_id: f, term_months: t as u32 })
        } else {
            None
        },
        _ => None,
    }
}

/// A loan's payer must be a cash-holding account of the same plan; `payer`
/// is that account's flavor, if it is in the plan.
pub fn check_payer(payer: Option<&str>) -> (r: Result<(), ApiError>)
    ensures
        r is Ok <==> (payer matches Some(p) && (p@ == "Bank"@ || p@ == "Investment"@)),
        r is Err ==> (r matches Err(ApiError::BadRequest(m)) && m@
            == "a loan is repaid from a bank or investment account in the same plan"@),
{
    match payer {
        Some(p) => if same_text(p, "Bank") || same_text(p, "Investment") {
            Ok(())
        } else {
            Err(
                ApiError::bad_request(
                    "a loan is repaid from a bank or investment account in the same plan",
                ),
            )
        },
        None => Err(
            ApiError::bad_request("a loan is repaid from a bank or investment account in the same plan"),
        ),
    }
}

/// An update may leave an account's name alone but not blank it, and may
/// not change its flavor.
pub fn check_account_update(name: Option<&str>, existing_flavor: &str, new_flavor: Option<&str>) -> (r:
    Result<(), ApiError>)
    ensures
        (name matches Some(n) && trimmed(n@).len() == 0) ==> (r matches Err(ApiError::BadRequest(m))
            && m@ == "an account needs a name"@),
        !(name matches Some(n) && trimmed(n@).len() == 0) ==> match new_flavor {
            Some(f) => if f@ == existing_flavor@ {
                r is Ok
            } else {
                r matches Err(ApiError::Conflict(m)) && m@ == "cannot change account flavor from "@
                    + existing_flavor@ + " to "@ + f@ + "; create a new account instead"@
            },
            None => r is Ok,
        },
{
    if let Some(n) = name {
        if trim(n).unicode_len() == 0 {
            return Err(ApiError::bad_request("an account needs a name"));
        }
    }
    if let Some(f) = new_flavor {
        if !same_text(f, existing_flavor) {
            let mut m = joined("cannot change account flavor from ", existing_flavor);
            m.append(" to ");
            m.append(f);
            m.append("; create a new account instead");
            return Err(ApiError::Conflict(m));
        }
    }
    Ok(())
}

/// The flavor-specific part of an account as a client sends it. Numbers
/// are carried as the bit patterns of their IEEE 754 doubles.
pub enum FlavorSpec {
    Bank { cash_value_bits: u64, return_profile_id: i64 },
    Investment {
        tax_status: TaxStatus,
        cash_value_bits: u64,
        cash_return_profile_id: i64,
        contribution_limit_bits: Option<u64>,
        contribution_period: Option<ContributionPeriod>,
    },
    Property { asset_id: i64, value_bits: u64 },
    Liability { principal_bits: u64, interest_rate_bits: u64, repayment: Option<RepaymentSpec> },
}

pub open spec fn flavor_name(f: FlavorSpec) -> Seq<char> {
    match f {
        FlavorSpec::Bank { .. } => "Bank"@,
        FlavorSpec::Investment { .. } => "Investment"@,
        FlavorSpec::Property { .. } => "Property"@,
        FlavorSpec::Liability { .. } => "Liability"@,
    }
}

/// What is wrong with an account's flavor, if anything, in the order
/// checked: a contribution limit and its period come together; a loan's
/// principal is not below zero; a repayment lasts at least a month.
pub open spec fn flavor_fault(f: FlavorSpec) -> Option<Seq<char>> {
    match f {
        FlavorSpec::Investment { contribution_limit_bits, contribution_period, .. } => if contribution_limit_bits is Some
            != contribution_period is Some {
            Some("contribution_limit and contribution_period must be set together"@)
        } else {
            None
        },
        FlavorSpec::Liability { principal_bits, repayment, .. } => if below_zero(principal_bits) {
            Some("liability principal is stored as a positive amount owed"@)
        } else if repayment matches Some(r) && r.term_months == 0 {
            Some("a repayment term must be at least one month"@)
        } else {
            None
        },
        _ => None,
    }
}

impl FlavorSpec {
    /// The flavor's stored name.
    pub fn name(&self) -> (r: &'static str)
        ensures
            r@ == flavor_name(*self),
    {
        match self {
            FlavorSpec::Bank { .. } => "Bank",
            FlavorSpec::Investment { .. } => "Investment",
            FlavorSpec::Property { .. } => "Property",
            FlavorSpec::Liability { .. } => "Liability",
        }
    }

    /// The checks an account's flavor passes before it is written, as
    /// [`flavor_fault`] says.
    pub fn validate(&self) -> (r: Result<(), ApiError>)
        ensures
            match flavor_fault(*self) {
                None => r is Ok,
                Some(m) => r matches Err(ApiError::BadRequest(x)) && x@ == m,
            },
    {
        match self {
            FlavorSpec::Investment { contribution_limit_bits, contribution_period, .. } => {
                if contribution_limit_bits.is_some() != contribution_period.is_some() {
                    return Err(
                        ApiError::bad_request("contribution_limit and contribution_period must be set together"),
                    );
                }
            },
            FlavorSpec::Liability { principal_bits, repayment, .. } => {
                if 0x8000_0000_0000_0001u64 <= *principal_bits && *principal_bits <= 0xFFF0_0000_0000_0000u64 {
                    return Err(ApiError::bad_request("liability principal is stored as a positive amount owed"));
                }
                if let Some(r) = repayment {
                    if r.term_months == 0 {
                        return Err(ApiError::bad_request("a repayment term must be at least one month"));
                    }
                }
            },
            _ => {},
        }
        Ok(())
    }
}

} // verus!
