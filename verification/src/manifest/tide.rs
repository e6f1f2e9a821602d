//! Tidal cycle clock: the collective's temporal coordination mechanism.
//!
//! All coordination uses a fixed cycle (a "tide", six hours by default)
//! split into four equal phases: flood, high, ebb, low.

use vstd::prelude::*;
use crate::text::{dec, dec_pad, dec_string, dec_pad_string, push_str, push_char};
use super::types::{TideMark, TidePhase, TidalConfig, phase_name};

verus! {

/// Duration of a single tide phase in seconds (90 minutes).
pub const PHASE_DURATION_SECONDS: u64 = 5400;

/// Duration of a full tide cycle in seconds (6 hours).
pub const CYCLE_DURATION_SECONDS: u64 = 21600;

/// The phase with the given index within a cycle (indices above 2 are low tide).
pub open spec fn phase_at_index(i: int) -> TidePhase {
    if i == 0 {
        TidePhase::Flood
    } else if i == 1 {
        TidePhase::High
    } else if i == 2 {
        TidePhase::Ebb
    } else {
        TidePhase::Low
    }
}

/// Gregorian leap-year rule.
pub open spec fn leap(y: int) -> bool {
    (y % 4 == 0 && y % 100 != 0) || y % 400 == 0
}

pub open spec fn days_in_year(y: int) -> int {
    if leap(y) { 366 } else { 365 }
}

/// Length of month `m` (1-based) of year `y`.
pub open spec fn days_in_month(y: int, m: int) -> int {
    if m == 2 {
        if leap(y) { 29 } else { 28 }
    } else if m == 4 || m == 6 || m == 9 || m == 11 {
        30
    } else {
        31
    }
}

/// Month and day for the `d`-th (0-based) day of year `y`, scanning from month `m`.
pub open spec fn month_day(y: int, m: int, d: int) -> (int, int)
    decreases 13 - m,
{
    if m >= 12 || d < days_in_month(y, m) {
        (m, d + 1)
    } else {
        month_day(y, m + 1, d - days_in_month(y, m))
    }
}

/// Days of year `y` before the first of month `m` in the Gregorian
/// calendar: 0, 31, 59, 90, 120, 151, 181, 212, 243, 273, 304, 334 (one more
/// from March on in a leap year), and the whole year for `m` = 13.
pub open spec fn gregorian_days_before(y: int, m: int) -> int {
    let extra: int = if m >= 3 && leap(y) { 1 } else { 0 };
    let base: int = if m <= 1 { 0 } else if m == 2 { 31 } else if m == 3 { 59 } else if m == 4 { 90 }
    else if m == 5 { 120 } else if m == 6 { 151 } else if m == 7 { 181 } else if m == 8 { 212 }
    else if m == 9 { 243 } else if m == 10 { 273 } else if m == 11 { 304 } else if m == 12 { 334 } else { 365 };
    extra + base
}

proof fn lemma_month_day_from(y: int, m: int, d: int)
    requires
        1 <= m <= 12,
        gregorian_days_before(y, m) <= d < days_in_year(y),
    ensures
        ({
            let (mm, dd) = month_day(y, m, d - gregorian_days_before(y, m));
            &&& m <= mm <= 12
            &&& gregorian_days_before(y, mm) <= d < gregorian_days_before(y, mm + 1)
            &&& dd == d - gregorian_days_before(y, mm) + 1
        }),
    decreases 13 - m,
{
    if m < 12 && d - gregorian_days_before(y, m) >= days_in_month(y, m) {
        assert(gregorian_days_before(y, m + 1) == gregorian_days_before(y, m) + days_in_month(y, m));
        lemma_month_day_from(y, m + 1, d);
    }
}

/// The month and day of the `d`-th day (from 0) of year `y` are those of
/// the Gregorian calendar: the day falls in the month whose first day is the
/// last month start not after it, and the day of the month counts from
/// that start. So September has 30 days, October 31, February 28 or 29.
pub proof fn lemma_month_day_gregorian(y: int, d: int)
    requires
        0 <= d < days_in_year(y),
    ensures
        ({
            let (m, dd) = month_day(y, 1, d);
            &&& 1 <= m <= 12
            &&& gregorian_days_before(y, m) <= d < gregorian_days_before(y, m + 1)
            &&& dd == d - gregorian_days_before(y, m) + 1
        }),
        days_in_month(y, 9) == 30,
        days_in_month(y, 10) == 31,
        days_in_month(y, 2) == (if leap(y) { 29int } else { 28int }),
{
    lemma_month_day_from(y, 1, d);
}

/// Calendar date `(year, month, day)` of the day that lies `d` days after
/// January 1st of year `y`.
pub open spec fn ymd_from(y: int, d: int) -> (int, int, int)
    decreases d,
{
    if d < days_in_year(y) || d < 0 {
        let (m, dd) = month_day(y, 1, d);
        (y, m, dd)
    } else {
        ymd_from(y + 1, d - days_in_year(y))
    }
}

/// Calendar date of the `days`-th day after 1970-01-01.
pub open spec fn ymd(days: int) -> (int, int, int) {
    ymd_from(1970, days)
}

/// ISO-8601 (UTC) rendering of a Unix timestamp.
pub open spec fn iso_timestamp(secs: nat) -> Seq<char> {
    let days = secs / 86400;
    let rem = secs % 86400;
    let (y, m, d) = ymd(days as int);
    dec_pad(y as nat, 4) + "-"@ + dec_pad(m as nat, 2) + "-"@ + dec_pad(d as nat, 2) + "T"@
        + dec_pad(rem / 3600, 2) + ":"@ + dec_pad((rem % 3600) / 60, 2) + ":"@
        + dec_pad(rem % 60, 2) + "Z"@
}

/// The tidal clock.
pub struct TidalClock {
    cycle_seconds: u64,
    phase_seconds: u64,
}

impl TidalClock {
    #[verifier::type_invariant]
    spec fn inv(self) -> bool {
        &&& self.cycle_seconds % 4 == 0
        &&& self.phase_seconds == self.cycle_seconds / 4
    }

    /// Cycle length in seconds.
    pub closed spec fn cycle_len(self) -> nat {
        self.cycle_seconds as nat
    }

    /// Phase length in seconds: a quarter of the cycle.
    pub closed spec fn phase_len(self) -> nat {
        self.phase_seconds as nat
    }

    /// A clock with the standard six-hour cycle.
    pub fn new() -> (c: Self)
        ensures
            c.cycle_len() == 21600,
            c.phase_len() == 5400,
    {
        TidalClock { cycle_seconds: CYCLE_DURATION_SECONDS, phase_seconds: PHASE_DURATION_SECONDS }
    }

    /// A clock whose cycle lasts `config.tide_cycle_hours` hours.
    pub fn from_config(config: &TidalConfig) -> (c: Self)
        requires
            config.tide_cycle_hours * 3600 <= u64::MAX,
        ensures
            c.cycle_len() == config.tide_cycle_hours * 3600,
            c.phase_len() == config.tide_cycle_hours * 900,
    {
        let cycle_seconds = config.tide_cycle_hours * 3600;
        let phase_seconds = cycle_seconds / 4;
        TidalClock { cycle_seconds, phase_seconds }
    }

    /// The tide mark at a Unix timestamp.
    pub fn tide_at(&self, unix_seconds: u64) -> (m: TideMark)
        requires
            self.cycle_len() > 0,
        ensures
            m.cycle == unix_seconds as nat / self.cycle_len(),
            m.phase == phase_at_index(((unix_seconds as nat % self.cycle_len()) / self.phase_len()) as int),
            m.phase_elapsed_seconds == (unix_seconds as nat % self.cycle_len()) % self.phase_len(),
            m.timestamp@ == iso_timestamp(unix_seconds as nat),
    {
        proof { use_type_invariant(self); }
        let cycle = unix_seconds / self.cycle_seconds;
        let within_cycle = unix_seconds % self.cycle_seconds;
        let phase_index = within_cycle / self.phase_seconds;
        let phase_elapsed = within_cycle % self.phase_seconds;
        let phase = if phase_index == 0 {
            TidePhase::Flood
        } else if phase_index == 1 {
            TidePhase::High
        } else if phase_index == 2 {
            TidePhase::Ebb
        } else {
            TidePhase::Low
        };
        TideMark {
            timestamp: format_unix_timestamp(unix_seconds),
            phase,
            cycle,
            phase_elapsed_seconds: phase_elapsed,
        }
    }

    /// The Unix timestamp at which the next phase begins.
    pub fn next_phase_start(&self, unix_seconds: u64) -> (r: u64)
        requires
            self.cycle_len() > 0,
            unix_seconds + self.cycle_len() <= u64::MAX,
        ensures
            ({
                let w = unix_seconds as nat % self.cycle_len();
                let next = (w / self.phase_len()) * self.phase_len() + self.phase_len();
                r == if next >= self.cycle_len() {
                    unix_seconds - w + self.cycle_len()
                } else {
                    unix_seconds - w + next
                }
            }),
    {
        proof { use_type_invariant(self); }
        let within_cycle = unix_seconds % self.cycle_seconds;
        proof {
            let u = unix_seconds as int;
            let c = self.cycle_seconds as int;
            let p = self.phase_seconds as int;
            let w = within_cycle as int;
            vstd::arithmetic::div_mod::lemma_fundamental_div_mod(u, c);
            vstd::arithmetic::div_mod::lemma_mod_pos_bound(u, c);
            assert(w <= u) by (nonlinear_arith)
                requires u == c * (u / c) + w, c > 0, u >= 0, 0 <= w;
            vstd::arithmetic::div_mod::lemma_fundamental_div_mod(w, p);
            vstd::arithmetic::div_mod::lemma_mod_pos_bound(w, p);
            assert((w / p) * p <= w) by (nonlinear_arith)
                requires w == p * (w / p) + w % p, 0 <= w % p, p > 0;
            assert(0 <= (w / p) * p) by (nonlinear_arith)
                requires w >= 0, p > 0;
        }
        let current_phase_start = (within_cycle / self.phase_seconds) * self.phase_seconds;
        let next_phase_in_cycle = current_phase_start + self.phase_seconds;
        if next_phase_in_cycle >= self.cycle_seconds {
            unix_seconds - within_cycle + self.cycle_seconds
        } else {
            unix_seconds - within_cycle + next_phase_in_cycle
        }
    }

    /// Seconds left until the current phase ends.
    pub fn seconds_remaining_in_phase(&self, unix_seconds: u64) -> (r: u64)
        requires
            self.cycle_len() > 0,
        ensures
            r == self.phase_len() - (unix_seconds as nat % self.cycle_len()) % self.phase_len(),
            0 < r <= self.phase_len(),
    {
        proof { use_type_invariant(self); }
        let within_cycle = unix_seconds % self.cycle_seconds;
        let phase_elapsed = within_cycle % self.phase_seconds;
        self.phase_seconds - phase_elapsed
    }

    /// Whether `deadline` falls in the same tide cycle as `now`.
    pub fn is_within_current_cycle(&self, now: u64, deadline: u64) -> (r: bool)
        requires
            self.cycle_len() > 0,
            (now as nat / self.cycle_len()) * self.cycle_len() + self.cycle_len() <= u64::MAX,
        ensures
            r == (deadline as nat / self.cycle_len() == now as nat / self.cycle_len()),
    {
        proof { use_type_invariant(self); }
        let current_cycle_start = (now / self.cycle_seconds) * self.cycle_seconds;
        let current_cycle_end = current_cycle_start + self.cycle_seconds;
        let r = deadline >= current_cycle_start && deadline < current_cycle_end;
        proof {
            let c = self.cycle_seconds as int;
            let q = now as int / c;
            let d = deadline as int;
            vstd::arithmetic::div_mod::lemma_fundamental_div_mod(d, c);
            if r {
                assert(d / c == q) by (nonlinear_arith)
                    requires
                        q * c <= d < q * c + c,
                        d == c * (d / c) + d % c,
                        0 <= d % c < c,
                        c > 0;
            } else {
                assert(d / c != q) by (nonlinear_arith)
                    requires
                        !(q * c <= d < q * c + c),
                        d == c * (d / c) + d % c,
                        0 <= d % c < c,
                        c > 0;
            }
        }
        r
    }

    /// Cycle length in seconds.
    pub fn cycle_seconds(&self) -> (r: u64)
        ensures
            r == self.cycle_len(),
    {
        self.cycle_seconds
    }
}

/// ISO-8601 rendering of a Unix timestamp (UTC, no leap seconds).
fn format_unix_timestamp(secs: u64) -> (s: String)
    ensures
        s@ == iso_timestamp(secs as nat),
{
    let days = secs / 86400;
    let remaining = secs % 86400;
    let hours = remaining / 3600;
    let minutes = (remaining % 3600) / 60;
    let seconds = remaining % 60;
    let (year, month, day) = days_to_ymd(days);
    let mut s = dec_pad_string(year, 4);
    push_str(&mut s, "-");
    let t = dec_pad_string(month, 2);
    push_str(&mut s, t.as_str());
    push_str(&mut s, "-");
    let t = dec_pad_string(day, 2);
    push_str(&mut s, t.as_str());
    push_str(&mut s, "T");
    let t = dec_pad_string(hours, 2);
    push_str(&mut s, t.as_str());
    push_str(&mut s, ":");
    let t = dec_pad_string(minutes, 2);
    push_str(&mut s, t.as_str());
    push_str(&mut s, ":");
    let t = dec_pad_string(seconds, 2);
    push_str(&mut s, t.as_str());
    push_str(&mut s, "Z");
    proof {
        reveal_strlit("-");
        reveal_strlit("T");
        reveal_strlit(":");
        reveal_strlit("Z");
    }
    s
}

proof fn lemma_ymd_from_step(y: int, d: int)
    requires
        d >= days_in_year(y),
    ensures
        ymd_from(y, d) == ymd_from(y + 1, d - days_in_year(y)),
{
}

/// Number of days in a month.
fn month_length(leap_year: bool, month: u64) -> (r: u64)
    ensures
        forall|y: int| leap(y) == leap_year ==> r == days_in_month(y, month as int),
{
    if month == 2 {
        if leap_year { 29 } else { 28 }
    } else if month == 4 || month == 6 || month == 9 || month == 11 {
        30
    } else {
        31
    }
}

/// Number of days in a year.
fn year_length(year: u64) -> (r: u64)
    ensures
        r == days_in_year(year as int),
{
    if is_leap_year(year) { 366 } else { 365 }
}

/// Days since the epoch to `(year, month, day)`.
fn days_to_ymd(days: u64) -> (r: (u64, u64, u64))
    requires
        days <= u64::MAX / 86400,
    ensures
        (r.0 as int, r.1 as int, r.2 as int) == ymd(days as int),
{
    let mut d = days;
    let mut year: u64 = 1970;
    while d >= year_length(year)
        invariant
            days <= u64::MAX / 86400,
            1970 <= year <= 1970 + days - d,
            d <= days,
            ymd_from(year as int, d as int) == ymd(days as int),
        decreases d,
    {
        let diy = year_length(year);
        proof { lemma_ymd_from_step(year as int, d as int); }
        d = d - diy;
        year = year + 1;
    }
    let leap_year = is_leap_year(year);
    let mut month: u64 = 1;
    assert(ymd_from(year as int, d as int) == (year as int, month_day(year as int, 1, d as int).0, month_day(year as int, 1, d as int).1));
    while month < 12 && d >= month_length(leap_year, month)
        invariant
            1 <= month <= 12,
            d < 366,
            leap_year == leap(year as int),
            month_day(year as int, month as int, d as int) == (ymd(days as int).1, ymd(days as int).2),
            ymd(days as int).0 == year,
        decreases 12 - month,
    {
        let md = month_length(leap_year, month);
        d = d - md;
        month = month + 1;
    }
    (year, month, d + 1)
}

/// Gregorian leap-year rule.
fn is_leap_year(year: u64) -> (r: bool)
    ensures
        r == leap(year as int),
{
    (year % 4 == 0 && year % 100 != 0) || year % 400 == 0
}

/// Human-readable tide label, e.g. "high tide, cycle 1234".
pub open spec fn tide_label_spec(mark: TideMark) -> Seq<char> {
    phase_name(mark.phase) + " tide, cycle "@ + dec(mark.cycle as nat)
}

/// Human-readable tide label, e.g. "high tide, cycle 1234".
pub fn tide_label(mark: &TideMark) -> (s: String)
    ensures
        s@ == tide_label_spec(*mark),
{
    let mut s = String::new();
    push_str(&mut s, mark.phase.name());
    push_str(&mut s, " tide, cycle ");
    let n = dec_string(mark.cycle);
    push_str(&mut s, n.as_str());
    proof {
        assert(s@ =~= tide_label_spec(*mark));
    }
    s
}

} // verus!
