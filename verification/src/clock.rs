//! Timestamps and their rendering.
//!
//! Timestamps are carried as whole seconds since the Unix epoch.  Rendering
//! a timestamp as a date-time string is delegated to the chrono crate; the
//! result is named by the uninterpreted function [`utc_display_of`], so
//! every contract that speaks of a rendered date goes through that name.

use vstd::prelude::*;
use vstd::string::StrSliceExecFns;
use vstd::string::StringExecFns;

verus! {

/// The largest timestamp the library stores: 9999-12-31 23:59:59 UTC.
/// Every value in `0 ..= MTIME_MAX` is in range for chrono's
/// `DateTime::<Utc>::from_timestamp`.
pub const MTIME_MAX: i64 = 253_402_300_799;

/// The date-time string that chrono renders for `secs` whole seconds since
/// the Unix epoch, in UTC.
pub uninterp spec fn utc_display_of(secs: i64) -> Seq<char>;

/// Relies on chrono's `DateTime::<Utc>::from_timestamp` (documented to
/// return `Some` for every in-range number of seconds) and on the `Display`
/// implementation of `DateTime<Utc>`: the rendered string is a function of
/// the number of seconds alone.
#[verifier::external_body]
fn format_utc(secs: i64) -> (r: String)
    requires
        0 <= secs <= MTIME_MAX,
    ensures
        r@ == utc_display_of(secs),
{
    match chrono::DateTime::<chrono::Utc>::from_timestamp(secs, 0) {
        Some(dt) => dt.to_string(),
        None => String::new(),
    }
}

/// A stored timestamp is either absent or in rendering range.
pub open spec fn valid_mtime(t: Option<i64>) -> bool {
    match t {
        Some(s) => 0 <= s <= MTIME_MAX,
        None => true,
    }
}

/// A raw timestamp is kept only when it is in rendering range; anything
/// else is treated as unavailable.
pub open spec fn norm_mtime(t: Option<i64>) -> Option<i64> {
    match t {
        Some(s) => if 0 <= s <= MTIME_MAX {
            Some(s)
        } else {
            None
        },
        None => None,
    }
}

pub fn normalize_mtime(t: Option<i64>) -> (r: Option<i64>)
    ensures
        r == norm_mtime(t),
        valid_mtime(r),
{
    match t {
        Some(s) => if 0 <= s && s <= MTIME_MAX {
            Some(s)
        } else {
            None
        },
        None => None,
    }
}

/// The date part of a rendered summary line: the rendered timestamp, or a
/// fixed placeholder when none was observed.
pub open spec fn date_text(t: Option<i64>) -> Seq<char> {
    match t {
        Some(s) => utc_display_of(s),
        None => "unknown date"@,
    }
}

/// Renders a stored timestamp for a summary line.
pub fn render_date(t: Option<i64>) -> (r: String)
    requires
        valid_mtime(t),
    ensures
        r@ == date_text(t),
{
    match t {
        Some(s) => format_utc(s),
        None => String::from_str("unknown date"),
    }
}

/// A raw clock reading clamped into rendering range.
pub open spec fn clamp_secs(now: i64) -> i64 {
    if now < 0 {
        0
    } else if now > MTIME_MAX {
        MTIME_MAX
    } else {
        now
    }
}

/// The text of the liveness message after a timer tick at `now`.
pub open spec fn heartbeat_line(now: i64) -> Seq<char> {
    "Herobot pinged at "@ + utc_display_of(clamp_secs(now))
}

/// Builds the liveness message text for a timer tick at `now` seconds
/// since the Unix epoch.
pub fn heartbeat_text(now: i64) -> (r: String)
    ensures
        r@ == heartbeat_line(now),
{
    let secs: i64 = if now < 0 {
        0
    } else if now > MTIME_MAX {
        MTIME_MAX
    } else {
        now
    };
    let mut r = String::from_str("Herobot pinged at ");
    let stamp = format_utc(secs);
    r.append(stamp.as_str());
    r
}

} // verus!
