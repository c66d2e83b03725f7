//! Date filters for listings: `YYYY-MM-DD` or `Nd` (the last N days).

use vstd::prelude::*;
use vstd::string::StringExecFns;
use crate::domain::timestamp::{ts_le, Timestamp, MAX_ABS_SECS};
use crate::text::{chars_of, is_ascii_digit, string_from_chars, trim, trim_chars};

verus! {

/// Name for the second, counted from the Unix epoch, at which the calendar
/// day that `chrono::NaiveDate::parse_from_str(s, "%Y-%m-%d")` reads from
/// `s` begins in UTC (`None` when `s` is no such date).
pub uninterp spec fn date_midnight_secs(s: Seq<char>) -> Option<i64>;

/// `chrono::NaiveDate::parse_from_str(s, "%Y-%m-%d")`, taken to midnight UTC
/// and counted in seconds from the epoch.  Claimed: the result is a function
/// of the text, and a parsed date lies within chrono's date range (years
/// -262143 to 262142, well inside the timestamp bound).
#[verifier::external_body]
fn parse_date_midnight(s: &str) -> (r: Option<i64>)
    ensures
        r == date_midnight_secs(s@),
        r matches Some(secs) ==> -MAX_ABS_SECS <= secs <= MAX_ABS_SECS,
{
    match chrono::NaiveDate::parse_from_str(s, "%Y-%m-%d") {
        Ok(d) => d.and_hms_opt(0, 0, 0).map(|t| t.and_utc().timestamp()),
        Err(_) => None,
    }
}

/// Value of a run of decimal digits.
pub open spec fn digits_value(s: Seq<char>) -> int
    decreases s.len(),
{
    if s.len() == 0 {
        0
    } else {
        digits_value(s.drop_last()) * 10 + (s.last() as int - '0' as int)
    }
}

pub open spec fn all_digits(s: Seq<char>) -> bool {
    forall|i: int| 0 <= i < s.len() ==> is_ascii_digit(#[trigger] s[i])
}

/// `str::parse::<i64>`: an optional `+` or `-`, then one or more decimal
/// digits, the value within `i64`.
pub open spec fn parse_i64(s: Seq<char>) -> Option<int> {
    let signed = s.len() > 0 && (s[0] == '+' || s[0] == '-');
    let digits = if signed {
        s.drop_first()
    } else {
        s
    };
    if digits.len() == 0 || !all_digits(digits) {
        None
    } else {
        let v = if signed && s[0] == '-' {
            -digits_value(digits)
        } else {
            digits_value(digits)
        };
        if i64::MIN <= v <= i64::MAX {
            Some(v)
        } else {
            None
        }
    }
}

proof fn lemma_digits_value_monotone(s: Seq<char>, i: int)
    requires
        0 <= i <= s.len(),
        all_digits(s),
    ensures
        digits_value(s.take(i)) <= digits_value(s),
        digits_value(s.take(i)) >= 0,
    decreases s.len() - i,
{
    if i < s.len() {
        assert(s.take(i + 1).drop_last() =~= s.take(i));
        assert(is_ascii_digit(s[i]));
        lemma_digits_value_nonneg(s.take(i));
        lemma_digits_value_monotone(s, i + 1);
    } else {
        assert(s.take(i) =~= s);
        lemma_digits_value_nonneg(s);
    }
}

proof fn lemma_digits_value_nonneg(s: Seq<char>)
    requires
        all_digits(s),
    ensures
        digits_value(s) >= 0,
    decreases s.len(),
{
    if s.len() > 0 {
        assert(is_ascii_digit(s.last()));
        assert(all_digits(s.drop_last()));
        lemma_digits_value_nonneg(s.drop_last());
    }
}

/// Parses a decimal integer as `str::parse::<i64>` does.
pub fn parse_i64_exec(s: &[char]) -> (r: Option<i64>)
    ensures
        match parse_i64(s@) {
            Some(v) => r == Some(v as i64),
            None => r is None,
        },
{
    let signed = s.len() > 0 && (s[0] == '+' || s[0] == '-');
    let negative = signed && s[0] == '-';
    let start: usize = if signed {
        1
    } else {
        0
    };
    let ghost digits = s@.skip(start as int);
    assert(signed ==> digits =~= s@.drop_first());
    assert(!signed ==> digits =~= s@);
    if start >= s.len() {
        return None;
    }
    let mut acc: u128 = 0;
    let mut i: usize = start;
    assert(digits.take(0) =~= Seq::<char>::empty());
    while i < s.len()
        invariant
            start <= i <= s@.len(),
            start < s@.len(),
            digits == s@.skip(start as int),
            signed == (s@.len() > 0 && (s@[0] == '+' || s@[0] == '-')),
            negative == (signed && s@[0] == '-'),
            start == (if signed { 1usize } else { 0usize }),
            signed ==> digits == s@.drop_first(),
            !signed ==> digits == s@,
            all_digits(digits.take(i - start)),
            acc as int == digits_value(digits.take(i - start)),
            acc <= 0x8000_0000_0000_0000,
        decreases s@.len() - i,
    {
        let c = s[i];
        if !('0' <= c && c <= '9') {
            assert(digits[i - start] == c);
            assert(!all_digits(digits));
            return None;
        }
        let ghost k = i - start;
        assert(digits.take(k + 1).drop_last() =~= digits.take(k));
        assert(digits.take(k + 1).last() == c);
        let d = (c as u32 - '0' as u32) as u128;
        acc = acc * 10 + d;
        i = i + 1;
        assert(all_digits(digits.take(i - start))) by {
            assert forall|j: int| 0 <= j < digits.take(i - start).len() implies is_ascii_digit(
                #[trigger] digits.take(i - start)[j],
            ) by {
                if j < k {
                    assert(digits.take(i - start)[j] == digits.take(k)[j]);
                }
            }
        }
        if acc > 0x8000_0000_0000_0000 {
            proof {
                if all_digits(digits) {
                    lemma_digits_value_monotone(digits, i - start);
                    assert(digits_value(digits) > 0x8000_0000_0000_0000);
                }
            }
            return None;
        }
    }
    assert(digits.take(s@.len() - start) =~= digits);
    if negative {
        if acc == 0x8000_0000_0000_0000 {
            Some(i64::MIN)
        } else {
            Some(-(acc as i64))
        }
    } else if acc > 0x7fff_ffff_ffff_ffff {
        None
    } else {
        Some(acc as i64)
    }
}

/// The number of days in a relative date `Nd`: `Some(parse)` when the text
/// ends with `d`, where `parse` is the parse of what comes before it.
pub open spec fn relative_days(t: Seq<char>) -> Option<Option<int>> {
    if t.len() > 0 && t.last() == 'd' {
        Some(parse_i64(t.drop_last()))
    } else {
        None
    }
}

/// The instant `days` days before `now`.
pub open spec fn days_before(now: Timestamp, days: int) -> Timestamp {
    Timestamp { secs: (now.secs - days * 86400) as i64, nanos: now.nanos }
}

/// A relative date that `DateFilter::parse` can place before `now`
/// within the timestamp range.
pub open spec fn relative_in_range(s: Seq<char>, now: Timestamp) -> bool {
    match relative_days(trim(s)) {
        Some(Some(d)) => d < 0 || now.secs - d * 86400 >= -MAX_ABS_SECS,
        _ => true,
    }
}

/// What `DateFilter::parse(s, now)` gives: the threshold, or the message.
pub open spec fn date_filter_spec(s: Seq<char>, now: Timestamp) -> Result<Timestamp, Seq<char>> {
    let t = trim(s);
    match relative_days(t) {
        Some(None) => Err("invalid relative date: "@ + t),
        Some(Some(d)) => if d < 0 {
            Err("days must be non-negative: "@ + t)
        } else {
            Ok(days_before(now, d))
        },
        None => match date_midnight_secs(t) {
            Some(secs) => Ok(Timestamp { secs, nanos: 0 }),
            None => Err("invalid date format (expected YYYY-MM-DD or Nd): "@ + t),
        },
    }
}

/// Whether a relative date in `s` stays within the timestamp range when
/// counted back from `now` (true for any text that is no relative date).
pub fn relative_date_in_range(s: &str, now: Timestamp) -> (r: bool)
    ensures
        r == relative_in_range(s@, now),
{
    let tv = trim_chars(chars_of(s).as_slice());
    let n = tv.len();
    if n == 0 || tv[n - 1] != 'd' {
        return true;
    }
    let mut days_chars: Vec<char> = Vec::new();
    let mut i: usize = 0;
    while i < n - 1
        invariant
            n == tv@.len(),
            i <= n - 1,
            days_chars@ == tv@.take(i as int),
        decreases n - 1 - i,
    {
        days_chars.push(tv[i]);
        i = i + 1;
        assert(days_chars@ =~= tv@.take(i as int));
    }
    assert(days_chars@ =~= tv@.drop_last());
    match parse_i64_exec(days_chars.as_slice()) {
        None => true,
        Some(d) => {
            if d < 0 {
                true
            } else {
                let back: i128 = (now.secs as i128) - (d as i128) * 86400;
                back >= -(MAX_ABS_SECS as i128)
            }
        },
    }
}

/// A filter that matches instants at or after a threshold.
#[derive(Debug, Clone, Copy)]
pub struct DateFilter {
    threshold: Timestamp,
}

impl DateFilter {
    pub closed spec fn spec_threshold(&self) -> Timestamp {
        self.threshold
    }

    /// Parses `YYYY-MM-DD` (that day at midnight UTC) or `Nd` (N days
    /// before `now`); the text is trimmed first.
    pub fn parse(s: &str, now: Timestamp) -> (r: Result<DateFilter, String>)
        requires
            now.wf(),
            relative_in_range(s@, now),
        ensures
            match date_filter_spec(s@, now) {
                Ok(t) => r matches Ok(f) && f.spec_threshold() == t,
                Err(m) => r matches Err(e) && e@ == m,
            },
    {
        let tv = trim_chars(chars_of(s).as_slice());
        let t = string_from_chars(tv.as_slice());
        let n = tv.len();
        if n > 0 && tv[n - 1] == 'd' {
            let mut days_chars: Vec<char> = Vec::new();
            let mut i: usize = 0;
            while i < n - 1
                invariant
                    n == tv@.len(),
                    i <= n - 1,
                    days_chars@ == tv@.take(i as int),
                decreases n - 1 - i,
            {
                days_chars.push(tv[i]);
                i = i + 1;
                assert(days_chars@ =~= tv@.take(i as int));
            }
            assert(days_chars@ =~= tv@.drop_last());
            match parse_i64_exec(days_chars.as_slice()) {
                None => {
                    let mut msg = String::from_str("invalid relative date: ");
                    msg.append(t.as_str());
                    Err(msg)
                },
                Some(days) => {
                    if days < 0 {
                        let mut msg = String::from_str("days must be non-negative: ");
                        msg.append(t.as_str());
                        Err(msg)
                    } else {
                        let secs = now.secs - days * 86400;
                        Ok(DateFilter { threshold: Timestamp { secs, nanos: now.nanos } })
                    }
                },
            }
        } else {
            match parse_date_midnight(t.as_str()) {
                Some(secs) => Ok(DateFilter { threshold: Timestamp { secs, nanos: 0 } }),
                None => {
                    let mut msg = String::from_str(
                        "invalid date format (expected YYYY-MM-DD or Nd): ",
                    );
                    msg.append(t.as_str());
                    Err(msg)
                },
            }
        }
    }

    /// Whether `timestamp` is at or after the threshold.
    pub fn matches(&self, timestamp: Timestamp) -> (r: bool)
        ensures
            r == ts_le(self.spec_threshold(), timestamp),
    {
        self.threshold.is_at_or_before(&timestamp)
    }

    /// The threshold.
    pub fn threshold(&self) -> (r: Timestamp)
        ensures
            r == self.spec_threshold(),
    {
        self.threshold
    }
}

} // verus!
