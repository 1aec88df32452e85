//! The purchase rule: which guard answers a request, and what a successful
//! purchase writes.

use vstd::prelude::*;

verus! {

/// The most slices of one pie that one customer may ever buy.
pub const ALLOWED_PIES: i64 = 3;

/// How a purchase request ended.
#[derive(Clone, Copy, Debug, PartialEq, Eq, Structural)]
pub enum PurchaseStatus {
    /// The customer asked for more than the cap allows, now or in total.
    OverLimit,
    /// The pie has too few slices left.
    OutOfStock,
    /// The purchase was made.
    Success,
}

/// What a purchase reads from the store before it decides.
#[derive(Clone, Copy, Debug, PartialEq, Eq)]
pub struct PurchaseSnapshot {
    /// The customer's blacklist bit at the pie's position.
    pub blacklisted: bool,
    /// The pie's remaining slices.
    pub remaining: i64,
    /// The slices that the customer bought of this pie before, if any.
    pub purchased: Option<i64>,
}

/// The answer to a purchase request, and the writes that go with it.  The
/// writes belong together: a store applies all of them or none.
#[derive(Clone, Copy, Debug, PartialEq, Eq)]
pub struct PurchasePlan {
    /// The answer.
    pub status: PurchaseStatus,
    /// The slices to add to the customer's ledger entry and to take from the
    /// pie's remaining count; zero unless the purchase succeeds.
    pub slices: i64,
    /// Whether to set the customer's blacklist bit at the pie's position.
    pub blacklist: bool,
    /// Whether to set the shop's sold-out bit at the pie's position.
    pub sold_out: bool,
}

/// The slices bought before: what the ledger holds, or zero without an entry.
pub open spec fn prior_amount(purchased: Option<i64>) -> int {
    match purchased {
        Some(amount) => amount as int,
        None => 0,
    }
}

/// The guards of a purchase, in order; the first that matches answers.
pub open spec fn purchase_status(
    amount: int,
    blacklisted: bool,
    remaining: int,
    prior: int,
) -> PurchaseStatus {
    if amount > ALLOWED_PIES {
        PurchaseStatus::OverLimit
    } else if blacklisted {
        PurchaseStatus::OverLimit
    } else if remaining <= 0 {
        PurchaseStatus::OutOfStock
    } else if amount > remaining {
        PurchaseStatus::OutOfStock
    } else if prior + amount > ALLOWED_PIES {
        PurchaseStatus::OverLimit
    } else {
        PurchaseStatus::Success
    }
}

/// Whether a purchase of `amount` brings the customer's total to the cap.
pub open spec fn reaches_cap(amount: int, prior: int) -> bool {
    prior + amount == ALLOWED_PIES
}

/// Whether a purchase of `amount` leaves no slice of the pie.
pub open spec fn sells_out(amount: int, remaining: int) -> bool {
    remaining - amount <= 0
}

/// The plan for a request of `amount` slices against what was read.
pub open spec fn planned(amount: i64, seen: PurchaseSnapshot) -> PurchasePlan {
    let prior = prior_amount(seen.purchased);
    let status = purchase_status(amount as int, seen.blacklisted, seen.remaining as int, prior);
    if status == PurchaseStatus::Success {
        PurchasePlan {
            status,
            slices: amount,
            blacklist: reaches_cap(amount as int, prior),
            sold_out: sells_out(amount as int, seen.remaining as int),
        }
    } else {
        PurchasePlan { status, slices: 0, blacklist: false, sold_out: false }
    }
}

/// The plan that refuses a request with `status` and writes nothing.
fn refused(status: PurchaseStatus) -> (plan: PurchasePlan)
    ensures
        plan == (PurchasePlan { status, slices: 0, blacklist: false, sold_out: false }),
{
    PurchasePlan { status, slices: 0, blacklist: false, sold_out: false }
}

/// Whether a request of `amount` slices is refused before the store is read.
pub fn over_cap(amount: i64) -> (refused: bool)
    ensures
        refused == (amount > ALLOWED_PIES),
        refused ==> forall|blacklisted: bool, remaining: int, prior: int|
            #[trigger] purchase_status(amount as int, blacklisted, remaining, prior)
                == PurchaseStatus::OverLimit,
{
    amount > ALLOWED_PIES
}

/// Decides a purchase of `amount` slices from what was read: the answer of
/// the first guard that matches and, on success, the writes to apply.
pub fn plan_purchase(amount: i64, seen: &PurchaseSnapshot) -> (plan: PurchasePlan)
    ensures
        plan == planned(amount, *seen),
{
    if amount > ALLOWED_PIES {
        return refused(PurchaseStatus::OverLimit);
    }
    if seen.blacklisted {
        return refused(PurchaseStatus::OverLimit);
    }
    if seen.remaining <= 0 {
        return refused(PurchaseStatus::OutOfStock);
    }
    if amount > seen.remaining {
        return refused(PurchaseStatus::OutOfStock);
    }
    let prior: i64 = match seen.purchased {
        Some(before) => before,
        None => 0,
    };
    let total: i128 = prior as i128 + amount as i128;
    if total > ALLOWED_PIES as i128 {
        return refused(PurchaseStatus::OverLimit);
    }
    PurchasePlan {
        status: PurchaseStatus::Success,
        slices: amount,
        blacklist: total == ALLOWED_PIES as i128,
        sold_out: seen.remaining as i128 - amount as i128 <= 0,
    }
}

} // verus!
