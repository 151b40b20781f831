//! The `time` module: the local time of day, in 24- or 12-hour form.
use vstd::prelude::*;
use vstd::arithmetic::div_mod::lemma_mod_multiples_vanish;
use crate::detector::ModuleContext;
use crate::error::{PromptError, is_invalid_format, invalid_format};
use crate::text::str_eq;
use std::time::{Duration, SystemTime};

verus! {

/// `std::time::SystemTime`, carried through the clock reading.
#[verifier::external_type_specification]
#[verifier::external_body]
pub struct ExSystemTime(SystemTime);

/// Reads the system clock (`SystemTime::now`). Nothing is stated of the
/// reading: it is the time at which the call is made.
#[verifier::external_body]
fn clock_now() -> SystemTime {
    SystemTime::now()
}

/// `t.duration_since(UNIX_EPOCH).ok()`: how long after the Unix epoch `t`
/// is, or `None` when it is earlier than the epoch. Nothing more is stated.
#[verifier::external_body]
fn since_unix_epoch(t: &SystemTime) -> Option<Duration> {
    t.duration_since(std::time::UNIX_EPOCH).ok()
}

/// `Duration::as_secs`: the whole seconds of `d`. Nothing is stated of the value.
#[verifier::external_body]
fn whole_seconds(d: &Duration) -> u64 {
    d.as_secs()
}

/// `String::push`: appends `c` to `s`.
#[verifier::external_body]
pub(crate) fn push_char(s: &mut String, c: char)
    ensures
        final(s)@ == old(s)@.push(c),
{
    s.push(c)
}

/// How the time is written.
#[derive(Clone, Copy, Debug, PartialEq, Eq, Structural)]
pub enum FormatSpec {
    /// `HH:MM`, 24-hour clock.
    Hm24,
    /// `HH:MM:SS`, 24-hour clock.
    Hms24,
    /// `hh:MMAM`, 12-hour clock.
    Hm12,
    /// `hh:MM:SSAM`, 12-hour clock.
    Hms12,
}

/// The time format that `f` names: `""`/`24h`, `24hs`/`24HS`, `12h`/`12H`,
/// `12hs`/`12HS`.
pub open spec fn time_format_spec(f: Seq<char>) -> Option<FormatSpec> {
    if f == ""@ || f == "24h"@ {
        Some(FormatSpec::Hm24)
    } else if f == "24hs"@ || f == "24HS"@ {
        Some(FormatSpec::Hms24)
    } else if f == "12h"@ || f == "12H"@ {
        Some(FormatSpec::Hm12)
    } else if f == "12hs"@ || f == "12HS"@ {
        Some(FormatSpec::Hms12)
    } else {
        None
    }
}

/// The formats listed when the time module is given one it does not know.
pub open spec fn time_formats_list() -> Seq<char> {
    "24h (default), 12h, 12H, 12hs, 12HS, 24hs, 24HS"@
}

/// The time format named by `format`, if any.
pub fn parse_time_format(format: &str) -> (r: Option<FormatSpec>)
    ensures
        r == time_format_spec(format@),
{
    if str_eq(format, "") || str_eq(format, "24h") {
        Some(FormatSpec::Hm24)
    } else if str_eq(format, "24hs") || str_eq(format, "24HS") {
        Some(FormatSpec::Hms24)
    } else if str_eq(format, "12h") || str_eq(format, "12H") {
        Some(FormatSpec::Hm12)
    } else if str_eq(format, "12hs") || str_eq(format, "12HS") {
        Some(FormatSpec::Hms12)
    } else {
        None
    }
}

/// A time of day.
#[derive(Clone, Copy, Debug, PartialEq, Eq, Structural)]
pub struct TimeParts {
    pub hour24: u8,
    pub minute: u8,
    pub second: u8,
}

/// The hour on a 12-hour clock: 12 for 0 and 12, otherwise `hour24 % 12`.
pub open spec fn hour12_of(hour24: u8) -> u8 {
    if hour24 % 12 == 0 {
        12
    } else {
        (hour24 % 12) as u8
    }
}

/// `"PM"` from noon on, `"AM"` before.
pub open spec fn meridiem_of(hour24: u8) -> Seq<char> {
    if hour24 >= 12 {
        "PM"@
    } else {
        "AM"@
    }
}

/// The decimal digit `d`.
pub open spec fn digit(d: int) -> char {
    seq!['0', '1', '2', '3', '4', '5', '6', '7', '8', '9'][d]
}

/// `n` written in decimal with at least two digits (`{:02}`).
pub open spec fn pad2(n: u8) -> Seq<char> {
    let m = n as int;
    if m < 10 {
        seq!['0', digit(m)]
    } else if m < 100 {
        seq![digit(m / 10), digit(m % 10)]
    } else {
        seq![digit(m / 100), digit((m / 10) % 10), digit(m % 10)]
    }
}

/// The text of the time module for `parts` in format `spec`.
pub open spec fn time_text(spec: FormatSpec, parts: TimeParts) -> Seq<char> {
    match spec {
        FormatSpec::Hm24 => pad2(parts.hour24) + seq![':'] + pad2(parts.minute),
        FormatSpec::Hms24 => pad2(parts.hour24) + seq![':'] + pad2(parts.minute) + seq![':'] + pad2(
            parts.second,
        ),
        FormatSpec::Hm12 => pad2(hour12_of(parts.hour24)) + seq![':'] + pad2(parts.minute)
            + meridiem_of(parts.hour24),
        FormatSpec::Hms12 => pad2(hour12_of(parts.hour24)) + seq![':'] + pad2(parts.minute) + seq![
            ':',
        ] + pad2(parts.second) + meridiem_of(parts.hour24),
    }
}

/// The character of the digit `d`.
fn digit_char(d: u8) -> (c: char)
    requires
        d < 10,
    ensures
        c == digit(d as int),
{
    match d {
        0 => '0',
        1 => '1',
        2 => '2',
        3 => '3',
        4 => '4',
        5 => '5',
        6 => '6',
        7 => '7',
        8 => '8',
        _ => '9',
    }
}

/// Appends `n` with at least two digits.
fn push_pad2(s: &mut String, n: u8)
    ensures
        final(s)@ == old(s)@ + pad2(n),
{
    if n < 10 {
        push_char(s, '0');
        push_char(s, digit_char(n));
    } else if n < 100 {
        push_char(s, digit_char(n / 10));
        push_char(s, digit_char(n % 10));
    } else {
        push_char(s, digit_char(n / 100));
        push_char(s, digit_char((n / 10) % 10));
        push_char(s, digit_char(n % 10));
    }
}

impl TimeParts {
    /// The hour on a 12-hour clock and whether it is AM or PM.
    pub fn hour12(&self) -> (r: (u8, &'static str))
        ensures
            r.0 == hour12_of(self.hour24),
            r.1@ == meridiem_of(self.hour24),
            1 <= r.0 <= 12,
            self.hour24 <= 23 ==> (r.0 % 12) + (if self.hour24 >= 12 { 12int } else { 0 })
                == self.hour24,
    {
        let suffix = if self.hour24 >= 12 {
            "PM"
        } else {
            "AM"
        };
        let mut hour = self.hour24 % 12;
        if hour == 0 {
            hour = 12;
        }
        (hour, suffix)
    }
}

impl FormatSpec {
    /// `parts` written in this format.
    pub fn render(&self, parts: &TimeParts) -> (r: String)
        ensures
            r@ == time_text(*self, *parts),
            parts.hour24 < 100 && parts.minute < 100 && parts.second < 100 ==> r@.len() == match *self {
                FormatSpec::Hm24 => 5int,
                FormatSpec::Hms24 => 8,
                FormatSpec::Hm12 => 7,
                FormatSpec::Hms12 => 10,
            },
    {
        let mut out = String::new();
        proof {
            reveal_strlit("AM");
            reveal_strlit("PM");
        }
        match self {
            FormatSpec::Hm24 => {
                push_pad2(&mut out, parts.hour24);
                push_char(&mut out, ':');
                push_pad2(&mut out, parts.minute);
            },
            FormatSpec::Hms24 => {
                push_pad2(&mut out, parts.hour24);
                push_char(&mut out, ':');
                push_pad2(&mut out, parts.minute);
                push_char(&mut out, ':');
                push_pad2(&mut out, parts.second);
            },
            FormatSpec::Hm12 => {
                let (hour, suffix) = parts.hour12();
                push_pad2(&mut out, hour);
                push_char(&mut out, ':');
                push_pad2(&mut out, parts.minute);
                out.append(suffix);
            },
            FormatSpec::Hms12 => {
                let (hour, suffix) = parts.hour12();
                push_pad2(&mut out, hour);
                push_char(&mut out, ':');
                push_pad2(&mut out, parts.minute);
                push_char(&mut out, ':');
                push_pad2(&mut out, parts.second);
                out.append(suffix);
            },
        }
        assert(out@ =~= time_text(*self, *parts));
        out
    }
}

/// `value` clamped to `0..=max`.
pub open spec fn clamped(value: int, max: u8) -> u8 {
    if value < 0 {
        0
    } else if value > max {
        max
    } else {
        value as u8
    }
}

/// `value.clamp(0, max)` as a `u8`.
pub fn clamp_component(value: i32, max: u8) -> (r: u8)
    ensures
        r == clamped(value as int, max),
{
    if value < 0 {
        0
    } else if value > max as i32 {
        max
    } else {
        value as u8
    }
}

/// The second of the day of local time `secs + utc_offset` (seconds since
/// the Unix epoch, shifted by the offset of local time from UTC).
pub open spec fn second_of_day(secs: i64, utc_offset: i32) -> int {
    (secs + utc_offset) % 86400
}

/// The local time of day at `secs` seconds after the Unix epoch, where local
/// time is `utc_offset` seconds ahead of UTC.
pub open spec fn local_parts(secs: i64, utc_offset: i32) -> TimeParts {
    let d = second_of_day(secs, utc_offset);
    TimeParts { hour24: (d / 3600) as u8, minute: ((d % 3600) / 60) as u8, second: (d % 60) as u8 }
}

impl TimeParts {
    /// The local time of day at `secs` seconds after the Unix epoch, where
    /// local time is `utc_offset` seconds ahead of UTC.
    pub fn from_timestamp(secs: i64, utc_offset: i32) -> (p: TimeParts)
        ensures
            p == local_parts(secs, utc_offset),
            p.hour24 <= 23 && p.minute <= 59 && p.second <= 59,
    {
        let t: i128 = secs as i128 + utc_offset as i128;
        let k: i128 = 106751991200000;
        let shifted: i128 = if t >= 0 {
            t
        } else {
            t + 86400 * k
        };
        proof {
            lemma_mod_multiples_vanish(k as int, t as int, 86400);
            assert(86400 * k == 86400 * 106751991200000int);
        }
        let day = (shifted as u128 % 86400) as u32;
        assert(day as int == second_of_day(secs, utc_offset));
        let hour = clamp_component((day / 3600) as i32, 23);
        let minute = clamp_component(((day % 3600) / 60) as i32, 59);
        let second = clamp_component((day % 60) as i32, 60);
        TimeParts { hour24: hour, minute, second }
    }
}

/// What the time module renders in `context` for `format`: the format error
/// when `format` is not a time format; otherwise the local time of day at
/// some moment after the Unix epoch, in that format, or an I/O error when
/// the clock cannot be read.
pub open spec fn time_renders(r: Result<Option<String>, PromptError>, context: ModuleContext, format: Seq<char>) -> bool {
    match time_format_spec(format) {
        None => r matches Err(e) && is_invalid_format(e, "time"@, format, time_formats_list()),
        Some(spec) => match r {
            Ok(Some(s)) => exists|t: i64|
                t >= 0 && s@ == time_text(spec, #[trigger] local_parts(t, context.utc_offset_secs)),
            Ok(None) => false,
            Err(e) => e is IoError,
        },
    }
}

/// The time module.
pub struct TimeModule;

impl Default for TimeModule {
    fn default() -> Self {
        TimeModule
    }
}

impl TimeModule {
    /// The current local time of day in `format`.
    ///
    /// The clock is read only when `format` is valid; the time shown is that
    /// of the reading, shifted by `context.utc_offset_secs`.
    pub fn render(&self, format: &str, context: &ModuleContext) -> (r: Result<
        Option<String>,
        PromptError,
    >)
        ensures
            time_renders(r, *context, format@),
    {
        let spec = match parse_time_format(format) {
            Some(s) => s,
            None => {
                return Err(
                    invalid_format("time", format, "24h (default), 12h, 12H, 12hs, 12HS, 24hs, 24HS"),
                );
            },
        };
        let now = clock_now();
        let since_epoch = match since_unix_epoch(&now) {
            Some(d) => Some(whole_seconds(&d)),
            None => None,
        };
        let r = time_from_reading(spec, since_epoch, context.utc_offset_secs);
        r
    }
}

/// The time of day in `spec`, for a clock that read `since_epoch` whole
/// seconds after the Unix epoch (`None` when it read a moment before it), in
/// local time `utc_offset` seconds ahead of UTC: an I/O error when there is
/// no reading or it does not fit in a signed 64-bit timestamp, and otherwise
/// the local time of day at that reading.
pub fn time_from_reading(spec: FormatSpec, since_epoch: Option<u64>, utc_offset: i32) -> (r: Result<
    Option<String>,
    PromptError,
>)
    ensures
        match since_epoch {
            None => r matches Err(e) && e is IoError,
            Some(s) => if s > i64::MAX {
                r matches Err(e) && e is IoError
            } else {
                r matches Ok(Some(t)) && t@ == time_text(spec, local_parts(s as i64, utc_offset))
            },
        },
{
    let secs = match since_epoch {
        Some(s) => s,
        None => {
            return Err(PromptError::IoError(String::from_str("system clock is before the Unix epoch")));
        },
    };
    if secs > i64::MAX as u64 {
        return Err(PromptError::IoError(String::from_str("timestamp does not fit in time_t")));
    }
    let t = secs as i64;
    let parts = TimeParts::from_timestamp(t, utc_offset);
    let text = spec.render(&parts);
    Ok(Some(text))
}

/// The two decimal digits of `n` (for `n < 100`).
pub open spec fn two_digits(n: int) -> Seq<char> {
    seq![digit(n / 10), digit(n % 10)]
}

proof fn lemma_pad2_small(n: u8)
    requires
        n < 100,
    ensures
        pad2(n) == two_digits(n as int),
{
    if n < 10 {
        assert(digit(0) == '0');
        assert(pad2(n) =~= two_digits(n as int));
    } else {
        assert(pad2(n) =~= two_digits(n as int));
    }
}

/// The time shown for a clock reading of `s` seconds after the epoch, in
/// local time `utc_offset` seconds ahead of UTC, is that reading's hour,
/// minute and (in the forms with seconds) second of the local day, each with
/// two digits: with `d` the second of the day, `d / 3600`, `d % 3600 / 60`
/// and `d % 60`. Nothing of the reading is rounded away.
pub proof fn law_time_shows_the_reading(spec: FormatSpec, s: u64, utc_offset: i32)
    requires
        s <= i64::MAX,
    ensures
        ({
            let d = (s + utc_offset) % 86400;
            let hm = two_digits(d / 3600) + seq![':'] + two_digits((d % 3600) / 60);
            &&& spec == FormatSpec::Hm24 ==> time_text(spec, local_parts(s as i64, utc_offset)) == hm
            &&& spec == FormatSpec::Hms24 ==> time_text(spec, local_parts(s as i64, utc_offset)) == hm
                + seq![':'] + two_digits(d % 60)
            &&& spec == FormatSpec::Hm12 || spec == FormatSpec::Hms12 ==> time_text(
                spec,
                local_parts(s as i64, utc_offset),
            ).subrange(2, 5) == seq![':'] + two_digits((d % 3600) / 60)
            &&& spec == FormatSpec::Hms12 ==> time_text(spec, local_parts(s as i64, utc_offset)).subrange(
                5,
                8,
            ) == seq![':'] + two_digits(d % 60)
        }),
{
    let d = (s + utc_offset) % 86400;
    let p = local_parts(s as i64, utc_offset);
    assert(0 <= d < 86400);
    assert(p.hour24 as int == d / 3600);
    assert(p.minute as int == (d % 3600) / 60);
    assert(p.second as int == d % 60);
    lemma_pad2_small(p.hour24);
    lemma_pad2_small(p.minute);
    lemma_pad2_small(p.second);
    let h12 = hour12_of(p.hour24);
    assert(h12 < 100);
    lemma_pad2_small(h12);
    let t = time_text(spec, p);
    let mm = seq![':'] + two_digits((d % 3600) / 60);
    let ss = seq![':'] + two_digits(d % 60);
    if spec == FormatSpec::Hm24 {
        assert(t =~= two_digits(d / 3600) + seq![':'] + two_digits((d % 3600) / 60));
    } else if spec == FormatSpec::Hms24 {
        assert(t =~= two_digits(d / 3600) + seq![':'] + two_digits((d % 3600) / 60) + seq![':']
            + two_digits(d % 60));
    } else if spec == FormatSpec::Hm12 {
        assert(t =~= two_digits(h12 as int) + mm + meridiem_of(p.hour24));
        assert(t.subrange(2, 5) =~= mm);
    } else {
        assert(t =~= two_digits(h12 as int) + mm + ss + meridiem_of(p.hour24));
        assert(t.subrange(2, 5) =~= mm);
        assert(t.subrange(5, 8) =~= ss);
    }
}

} // verus!
