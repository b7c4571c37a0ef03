//! Storage-retention bookkeeping. Every stored record carries a retention
//! window: the ledger height up to which the store keeps it. Writing a
//! record refreshes its window, and the two extension operations refresh
//! windows without writing. A window is extended only when it has sunk
//! below a threshold, and then up to a fixed bump past the current height.

use vstd::prelude::*;

verus! {

/// Ledger heights in one day.
pub const DAY_IN_LEDGERS: u32 = 17280;

/// Retention bump for item records, from the current height.
pub const PERSISTENT_BUMP_AMOUNT: u32 = 30 * DAY_IN_LEDGERS;

/// An item record's window is extended once it would lapse within this.
pub const PERSISTENT_LIFETIME_THRESHOLD: u32 = PERSISTENT_BUMP_AMOUNT - DAY_IN_LEDGERS;

/// Retention bump for the collection's own record.
pub const INSTANCE_BUMP_AMOUNT: u32 = 7 * DAY_IN_LEDGERS;

/// The collection record's window is extended once it would lapse within this.
pub const INSTANCE_LIFETIME_THRESHOLD: u32 = INSTANCE_BUMP_AMOUNT - DAY_IN_LEDGERS;

/// Addition on heights, capped at the largest representable height.
pub open spec fn sat_add(a: u32, b: u32) -> u32 {
    if a + b > u32::MAX {
        u32::MAX
    } else {
        (a + b) as u32
    }
}

/// The retention window after a refresh at height `now`: extended to
/// `now + bump` when it would lapse within `threshold`, otherwise kept.
pub open spec fn extended_live(live: u32, now: u32, threshold: u32, bump: u32) -> u32 {
    if live < sat_add(now, threshold) {
        sat_add(now, bump)
    } else {
        live
    }
}

pub fn sat_add_exec(a: u32, b: u32) -> (r: u32)
    ensures
        r == sat_add(a, b),
{
    if a > u32::MAX - b {
        u32::MAX
    } else {
        a + b
    }
}

pub fn extend_live_exec(live: u32, now: u32, threshold: u32, bump: u32) -> (r: u32)
    ensures
        r == extended_live(live, now, threshold, bump),
{
    if live < sat_add_exec(now, threshold) {
        sat_add_exec(now, bump)
    } else {
        live
    }
}

/// A refresh never shortens a retention window, provided the threshold does
/// not exceed the bump, and it leaves the window no closer than the
/// threshold to the current height.
pub proof fn lemma_refresh_extends(live: u32, now: u32, threshold: u32, bump: u32)
    requires
        threshold <= bump,
    ensures
        extended_live(live, now, threshold, bump) >= live,
        extended_live(live, now, threshold, bump) >= sat_add(now, threshold),
{
}

} // verus!
