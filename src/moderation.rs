//! Bans: the record kept for a banned player and when a ban ends.
use vstd::prelude::*;

verus! {

/// The `banned_until` of a ban that never ends, and the duration that asks for one.
pub const PERMANENT: i64 = -1;

/// A stored ban.
#[derive(Clone, Debug)]
pub struct BanEntry {
    pub user_id: i64,
    pub banned_time: i64,
    pub banned_until: i64,
    pub moderator: String,
    pub reason: String,
}

/// When a ban made at `time_now` for `duration_in_minutes` ends: a duration
/// of `PERMANENT` never ends; otherwise the duration, counted as sixty units
/// per minute, is added to the time.
pub open spec fn ban_end(time_now: int, duration_in_minutes: int) -> int {
    if duration_in_minutes == PERMANENT {
        PERMANENT as int
    } else {
        time_now + duration_in_minutes * 60
    }
}

/// The end of a ban, if it can be written as an `i64`.
pub fn ban_expiry(time_now: i64, duration_in_minutes: i64) -> (r: Option<i64>)
    ensures
        r is Some <==> i64::MIN <= ban_end(time_now as int, duration_in_minutes as int) <= i64::MAX,
        r is Some ==> r->0 == ban_end(time_now as int, duration_in_minutes as int),
{
    if duration_in_minutes == PERMANENT {
        return Some(PERMANENT);
    }
    let end: i128 = (time_now as i128) + (duration_in_minutes as i128) * 60;
    if end < i64::MIN as i128 || end > i64::MAX as i128 {
        None
    } else {
        Some(end as i64)
    }
}

/// The record of a ban on `user_id`, made at `time_now` by `moderator`.
pub fn new_ban_entry(
    user_id: i64,
    time_now: i64,
    banned_until: i64,
    moderator: &str,
    reason: &str,
) -> (r: BanEntry)
    ensures
        r.user_id == user_id,
        r.banned_time == time_now,
        r.banned_until == banned_until,
        r.moderator@ == moderator@,
        r.reason@ == reason@,
{
    BanEntry {
        user_id,
        banned_time: time_now,
        banned_until,
        moderator: String::from_str(moderator),
        reason: String::from_str(reason),
    }
}

} // verus!
