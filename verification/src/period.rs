//! The time-window resolver: turns a user-facing period selector into a
//! concrete `[since, until)` bound over epoch-second timestamps.
//!
//! The resolver's arithmetic works on plain timestamps read once from the
//! system clock: the current instant, the most recent local midnight, and the
//! current date's offset from Monday. Local days are treated as exactly
//! 86 400 seconds apart, which is the arithmetic the selector rules use.

use vstd::prelude::*;

use crate::text::{all_digits, dec_val, parse_u32, str_eq};

verus! {

/// Timestamps this library reasons about stay below this bound; the
/// calendar types feeding them cover roughly years -262144 to 262142,
/// whose epoch-second values stay well under 10^13 in magnitude.
pub const MAX_TS: i64 = 10_000_000_000_000;

/// A user-facing time-window selector.
#[derive(Clone, Copy, Debug, PartialEq, Eq, Structural)]
pub enum Period {
    Today,
    Yesterday,
    Hours(u32),
    Days(u32),
    Week,
}

/// A resolved window: `since` inclusive, `until` exclusive; `until` absent
/// means "up to now".
#[derive(Clone, Copy, Debug, PartialEq, Eq, Structural)]
pub struct TimeRange {
    pub since: i64,
    pub until: Option<i64>,
}

/// One reading of the local clock, as plain values: the current instant,
/// the most recent local midnight, and how many days the current date is
/// past Monday.
#[derive(Clone, Copy, Debug)]
pub struct LocalClock {
    pub now_ts: i64,
    pub midnight_ts: i64,
    pub days_since_monday: u8,
}

/// The longest local day the clock model admits between one midnight and
/// the next instant read: 26 hours, generous room for any daylight-saving
/// or offset change.
pub const MAX_DAY_GAP: i64 = 93600;

impl LocalClock {
    /// Well-formedness: midnight does not come after now and lies less
    /// than one (possibly daylight-saving-stretched) day behind it, both
    /// sit in the supported timestamp range, and the weekday offset is a
    /// weekday.
    pub open spec fn wf(self) -> bool {
        0 <= self.midnight_ts <= self.now_ts <= MAX_TS && self.now_ts - self.midnight_ts
            < MAX_DAY_GAP && self.days_since_monday < 7
    }

    /// Builds a well-formed clock, clamping out-of-range readings; a
    /// midnight more than a day behind now is no reading of today's
    /// midnight and falls back to the current instant, as the clock read
    /// itself does when the local midnight is unrepresentable.
    pub fn new(now_ts: i64, midnight_ts: i64, days_since_monday: u32) -> (c: LocalClock)
        ensures
            c.wf(),
            0 <= now_ts <= MAX_TS && 0 <= midnight_ts <= now_ts && now_ts - midnight_ts
                < MAX_DAY_GAP && days_since_monday < 7 ==> c.now_ts == now_ts && c.midnight_ts
                == midnight_ts && c.days_since_monday == days_since_monday,
    {
        let now = if now_ts < 0 { 0 } else if now_ts > MAX_TS { MAX_TS } else { now_ts };
        let mid = if midnight_ts < 0 || midnight_ts > now || now - midnight_ts >= MAX_DAY_GAP {
            now
        } else {
            midnight_ts
        };
        let d: u8 = if days_since_monday > 6 { 6 } else { days_since_monday as u8 };
        LocalClock { now_ts: now, midnight_ts: mid, days_since_monday: d }
    }
}

/// Reads the local clock: (now, most recent local midnight, days past
/// Monday), each as plain values.
///
/// Relies on `chrono::Local::now`, `DateTime::date_naive`,
/// `NaiveDate::and_time` with `NaiveTime::MIN`,
/// `NaiveDateTime::and_local_timezone` (falling back to the current instant
/// when the local midnight is absent or ambiguous), `Datelike::weekday`,
/// `Weekday::num_days_from_monday` and `DateTime::timestamp`.
/// `num_days_from_monday` is documented to return 0 through 6, and the
/// calendar's documented date range keeps every timestamp under `MAX_TS`
/// in magnitude. Note that the underlying clock read panics when the
/// system clock stands before the Unix epoch; nothing is promised of that
/// environment.
#[verifier::external_body]
fn read_local_clock() -> (r: (i64, i64, u32))
    ensures
        r.2 < 7,
        -MAX_TS <= r.0 <= MAX_TS,
        -MAX_TS <= r.1 <= MAX_TS,
{
    let now = chrono::Local::now();
    let midnight = now
        .date_naive()
        .and_time(chrono::NaiveTime::MIN)
        .and_local_timezone(chrono::Local)
        .single()
        .unwrap_or(now);
    let dsm = chrono::Datelike::weekday(&now).num_days_from_monday();
    (now.timestamp(), midnight.timestamp(), dsm)
}

/// The lower bound of the window `p` selects under clock `c`.
pub open spec fn since_spec(p: Period, c: LocalClock) -> int {
    match p {
        Period::Today => c.midnight_ts as int,
        Period::Yesterday => c.midnight_ts - 86400,
        Period::Hours(h) => c.now_ts - h * 3600,
        Period::Days(d) => c.now_ts - d * 86400,
        Period::Week => c.midnight_ts - c.days_since_monday * 86400,
    }
}

/// The upper bound of the window `p` selects under clock `c`, if bounded.
pub open spec fn until_spec(p: Period, c: LocalClock) -> Option<int> {
    match p {
        Period::Yesterday => Some(c.midnight_ts as int),
        _ => None,
    }
}

impl Period {
    /// Resolves this selector against a given clock reading.
    pub fn resolve(&self, c: &LocalClock) -> (r: TimeRange)
        requires
            c.wf(),
        ensures
            r.since == since_spec(*self, *c),
            r.until is Some <==> until_spec(*self, *c) is Some,
            r.until is Some ==> r.until->0 == until_spec(*self, *c)->0,
    {
        match self {
            Period::Today => TimeRange { since: c.midnight_ts, until: None },
            Period::Yesterday => TimeRange {
                since: c.midnight_ts - 86400,
                until: Some(c.midnight_ts),
            },
            Period::Hours(h) => TimeRange { since: c.now_ts - (*h as i64) * 3600, until: None },
            Period::Days(d) => TimeRange { since: c.now_ts - (*d as i64) * 86400, until: None },
            Period::Week => TimeRange {
                since: c.midnight_ts - (c.days_since_monday as i64) * 86400,
                until: None,
            },
        }
    }

    /// Resolves this selector against the local clock now.
    pub fn to_time_range(&self) -> (r: TimeRange)
        ensures
            exists|c: LocalClock|
                #[trigger] c.wf() && r.since == since_spec(*self, c) && (r.until is Some
                    <==> until_spec(*self, c) is Some) && (r.until is Some ==> r.until->0
                    == until_spec(*self, c)->0),
            r.until is Some <==> *self is Yesterday,
            r.until is Some ==> r.since < r.until->0,
    {
        let (now_ts, midnight_ts, dsm) = read_local_clock();
        let clock = LocalClock::new(now_ts, midnight_ts, dsm);
        let r = self.resolve(&clock);
        proof {
            assert(clock.wf() && r.since == since_spec(*self, clock) && (r.until is Some
                <==> until_spec(*self, clock) is Some) && (r.until is Some ==> r.until->0
                == until_spec(*self, clock)->0));
        }
        r
    }

    /// Parses a period selector: the literal tokens `today`, `yesterday` and
    /// `week`, and the suffix forms `<uint>h` and `<uint>d`. Anything else
    /// is rejected with a message carrying the offending input and the
    /// accepted forms.
    pub fn from_str(s: &str) -> (r: Result<Period, String>)
        ensures
            r is Ok <==> period_of(s@) is Some,
            r matches Ok(p) ==> period_of(s@) == Some(p),
            has_count_suffix(s@, 'h') && !parses_as_count(s@, 'h') ==> (r matches Err(m)
                && m@ == "Invalid hours: "@ + s@ + accepted_forms_note()),
            has_count_suffix(s@, 'd') && !parses_as_count(s@, 'd') ==> (r matches Err(m)
                && m@ == "Invalid days: "@ + s@ + accepted_forms_note()),
            !is_period_literal(s@) && !has_count_suffix(s@, 'h') && !has_count_suffix(s@, 'd')
                ==> (r matches Err(m) && m@ == "Unknown period: "@ + s@
                + accepted_forms_note()),
    {
        proof {
            reveal_strlit("today");
            reveal_strlit("yesterday");
            reveal_strlit("week");
            assert("today"@.len() == 5 && "yesterday"@.len() == 9 && "week"@.len() == 4);
        }
        if str_eq(s, "today") {
            return Ok(Period::Today);
        }
        if str_eq(s, "yesterday") {
            return Ok(Period::Yesterday);
        }
        if str_eq(s, "week") {
            return Ok(Period::Week);
        }
        let n = s.unicode_len();
        if n > 0 {
            let last = s.get_char(n - 1);
            if last == 'h' || last == 'd' {
                let digits = s.substring_char(0, n - 1);
                proof {
                    assert(digits@ =~= s@.drop_last());
                }
                match parse_u32(digits) {
                    Some(v) => {
                        if last == 'h' {
                            return Ok(Period::Hours(v));
                        }
                        return Ok(Period::Days(v));
                    },
                    None => {
                        if last == 'h' {
                            return Err(
                                String::from_str("Invalid hours: ").concat(s).concat(
                                    ". Use: today, yesterday, 24h, 3d, 7d, week",
                                ),
                            );
                        }
                        return Err(
                            String::from_str("Invalid days: ").concat(s).concat(
                                ". Use: today, yesterday, 24h, 3d, 7d, week",
                            ),
                        );
                    },
                }
            }
        }
        Err(
            String::from_str("Unknown period: ").concat(s).concat(
                ". Use: today, yesterday, 24h, 3d, 7d, week",
            ),
        )
    }
}

/// The accepted-forms note every parse rejection carries.
pub open spec fn accepted_forms_note() -> Seq<char> {
    ". Use: today, yesterday, 24h, 3d, 7d, week"@
}

/// The selector a period string denotes, when it denotes one.
pub open spec fn period_of(s: Seq<char>) -> Option<Period> {
    if s == "today"@ {
        Some(Period::Today)
    } else if s == "yesterday"@ {
        Some(Period::Yesterday)
    } else if s == "week"@ {
        Some(Period::Week)
    } else if parses_as_count(s, 'h') {
        Some(Period::Hours(dec_val(s.drop_last()) as u32))
    } else if parses_as_count(s, 'd') {
        Some(Period::Days(dec_val(s.drop_last()) as u32))
    } else {
        None
    }
}

/// `s` is one of the literal period tokens.
pub open spec fn is_period_literal(s: Seq<char>) -> bool {
    s == "today"@ || s == "yesterday"@ || s == "week"@
}

/// `s` is a (possibly malformed) count form: not a literal token, non-empty,
/// and ending in the given unit character.
pub open spec fn has_count_suffix(s: Seq<char>, unit: char) -> bool {
    !is_period_literal(s) && s.len() > 0 && s.last() == unit
}

/// `s` is a well-formed count form: digits followed by the unit character,
/// with a value that fits in 32 bits.
pub open spec fn parses_as_count(s: Seq<char>, unit: char) -> bool {
    has_count_suffix(s, unit) && s.drop_last().len() > 0 && all_digits(s.drop_last()) && dec_val(
        s.drop_last(),
    ) <= u32::MAX
}

/// Every bounded window is non-degenerate: when a resolved range carries an
/// upper bound, the lower bound lies strictly before it.
pub proof fn lemma_window_ordered(p: Period, c: LocalClock)
    requires
        c.wf(),
    ensures
        until_spec(p, c) is Some ==> since_spec(p, c) < until_spec(p, c)->0,
{
}

/// The resolved lower bound never lies in the future: it equals the current
/// midnight for `Today` and lies strictly before `now` for the other
/// selectors, leaving out zero-length counts and a `Week` resolved in the
/// very second of a Monday midnight.
pub proof fn lemma_since_in_past(p: Period, c: LocalClock)
    requires
        c.wf(),
        p matches Period::Hours(n) ==> n >= 1,
        p matches Period::Days(n) ==> n >= 1,
        p is Week ==> c.days_since_monday >= 1 || c.midnight_ts < c.now_ts,
    ensures
        p is Today ==> since_spec(p, c) == c.midnight_ts,
        !(p is Today) ==> since_spec(p, c) < c.now_ts,
{
}

/// For every period string that parses, the window it resolves to under a
/// well-formed clock is ordered and anchored in the past: a bounded window
/// has `since` strictly before `until`; `Today` starts exactly at the
/// current midnight; every other selector starts strictly before now. Left
/// out: zero counts (the string `0h` resolves to `since == now`) and a
/// `Week` resolved in the very second of a Monday midnight.
pub proof fn lemma_parse_then_resolve(s: Seq<char>, c: LocalClock)
    requires
        c.wf(),
        period_of(s) is Some,
        period_of(s)->0 matches Period::Hours(n) ==> n >= 1,
        period_of(s)->0 matches Period::Days(n) ==> n >= 1,
        period_of(s)->0 is Week ==> c.days_since_monday >= 1 || c.midnight_ts < c.now_ts,
    ensures
        until_spec(period_of(s)->0, c) is Some ==> since_spec(period_of(s)->0, c) < until_spec(
            period_of(s)->0,
            c,
        )->0,
        period_of(s)->0 is Today ==> since_spec(period_of(s)->0, c) == c.midnight_ts,
        !(period_of(s)->0 is Today) ==> since_spec(period_of(s)->0, c) < c.now_ts,
{
    lemma_window_ordered(period_of(s)->0, c);
    lemma_since_in_past(period_of(s)->0, c);
}

/// The weekday offset of a timestamp on the midnight grid of clock `c`, in
/// the resolver's model where local days are exactly 86 400 seconds apart:
/// 0 is Monday.
pub open spec fn days_from_monday_at(c: LocalClock, t: int) -> int {
    (((t - c.midnight_ts) / 86400) + c.days_since_monday as int) % 7
}

/// The `Week` selector starts on a Monday midnight, whatever the day of
/// invocation: its lower bound is a whole number of days before the
/// current midnight, its weekday offset is zero, the window is unbounded
/// above, and it opens no earlier than six days plus one (possibly
/// daylight-saving-stretched) day before now, and no later than now.
pub proof fn lemma_week_since_is_monday(c: LocalClock)
    requires
        c.wf(),
    ensures
        (c.midnight_ts - since_spec(Period::Week, c)) % 86400 == 0,
        days_from_monday_at(c, since_spec(Period::Week, c)) == 0,
        until_spec(Period::Week, c) is None,
        c.now_ts - (6 * 86400 + MAX_DAY_GAP) < since_spec(Period::Week, c) <= c.now_ts,
{
    let d = c.days_since_monday as int;
    let since = since_spec(Period::Week, c);
    assert(c.midnight_ts - since == d * 86400);
    assert((d * 86400) % 86400 == 0) by (nonlinear_arith);
    assert((since - c.midnight_ts) == (-d) * 86400);
    assert(((-d) * 86400) / 86400 == -d) by (nonlinear_arith);
    assert((-d + d) % 7 == 0);
}

} // verus!
