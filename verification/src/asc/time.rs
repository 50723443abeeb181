//! The times of an ASC trace: the absolute start time of its `date` header
//! and the text of each frame's time.
use vstd::prelude::*;
use chrono::{Datelike, NaiveDate, NaiveDateTime, TimeDelta, Timelike};
use std::fmt::Write;
use crate::dbc::types::attributes::opt_text;
use crate::text::{chars_of, dec_string, eq_vec, fmt_dec, join_exec, join_with, pad_left, pad_left_exec, split_ws, string_of, tokens, views};

verus! {

/// A date and time of day, taken apart.
#[derive(Clone, Copy, Debug, PartialEq, Eq, Structural)]
pub struct DateTimeParts {
    pub year: i32,
    pub month: u32,
    pub day: u32,
    pub hour: u32,
    pub minute: u32,
    pub second: u32,
    /// Milliseconds within the second (1000 and above in a leap second).
    pub milli: u32,
}

/// The date and time `chrono` reads from `text` in format `fmt`.
pub uninterp spec fn parsed_date_time(text: Seq<char>, fmt: Seq<char>) -> Option<DateTimeParts>;

/// `chrono::NaiveDateTime::parse_from_str`: the date and time that `text`
/// writes in format `fmt`, taken apart by `year`, `month`, `day`, `hour`,
/// `minute`, `second` and `and_utc().timestamp_subsec_millis()`; `None`
/// when it does not parse. Nothing more is stated of it than its name.
#[verifier::external_body]
fn parse_date_time(text: &str, fmt: &str) -> (r: Option<DateTimeParts>)
    ensures
        r == parsed_date_time(text@, fmt@),
{
    match NaiveDateTime::parse_from_str(text, fmt) {
        Ok(t) => Some(DateTimeParts {
            year: t.year(),
            month: t.month(),
            day: t.day(),
            hour: t.hour(),
            minute: t.minute(),
            second: t.second(),
            milli: t.and_utc().timestamp_subsec_millis(),
        }),
        Err(_) => None,
    }
}

/// The text `chrono` writes, in format `fmt`, for the date and time
/// `millis` milliseconds after `start`.
pub uninterp spec fn time_after_text(start: DateTimeParts, millis: i64, fmt: Seq<char>) -> Option<Seq<char>>;

/// `chrono::NaiveDateTime::checked_add_signed`: the date and time built
/// from the parts (`NaiveDate::from_ymd_opt`, `and_hms_milli_opt`), moved by
/// `TimeDelta::try_milliseconds(millis)` and written in format `fmt`;
/// `None` when the parts are no date and time, the result is out of
/// `chrono`'s range or the format cannot be written. Nothing more is stated
/// of it than its name.
#[verifier::external_body]
fn time_after(start: DateTimeParts, millis: i64, fmt: &str) -> (r: Option<String>)
    ensures
        opt_text(r) == time_after_text(start, millis, fmt@),
{
    let t = NaiveDate::from_ymd_opt(start.year, start.month, start.day)?.and_hms_milli_opt(start.hour, start.minute, start.second, start.milli)?;
    let moved = t.checked_add_signed(TimeDelta::try_milliseconds(millis)?)?;
    let mut out = String::new();
    match write!(out, "{}", moved.format(fmt)) {
        Ok(()) => Some(out),
        Err(_) => None,
    }
}

/// The absolute start time of a trace: the text of its `date` header and
/// the date and time it writes.
#[derive(Debug)]
pub struct AbsoluteTime {
    pub text: String,
    pub value: Option<DateTimeParts>,
}

/// Abstract absolute time.
pub struct AbsoluteTimeView {
    pub text: Seq<char>,
    pub value: Option<DateTimeParts>,
}

impl View for AbsoluteTime {
    type V = AbsoluteTimeView;

    open spec fn view(&self) -> AbsoluteTimeView {
        AbsoluteTimeView { text: self.text@, value: self.value }
    }
}

impl AbsoluteTime {
    /// No start time.
    pub fn new() -> (r: AbsoluteTime)
        ensures
            r@.text.len() == 0,
            r@.value is None,
    {
        AbsoluteTime { text: String::new(), value: None }
    }

    /// Forgets the start time.
    pub fn clear(&mut self)
        ensures
            final(self)@.text.len() == 0,
            final(self)@.value is None,
    {
        self.text = String::new();
        self.value = None;
    }
}

/// The view of an optional absolute time.
pub open spec fn opt_time(o: Option<AbsoluteTime>) -> Option<AbsoluteTimeView> {
    match o {
        Some(t) => Some(t@),
        None => None,
    }
}

/// The start time a `date` header gives: a line whose first word (ASCII
/// whitespace between words) is `date`, the following words joined by
/// single spaces, read as `%a %b %d %I:%M:%S%.3f %P %Y`.
pub open spec fn date_header(line: Seq<char>) -> Option<AbsoluteTimeView> {
    let parts = tokens(line, false);
    if parts.len() == 0 || parts[0] != "date"@ {
        None
    } else {
        let text = join_with(parts.skip(1), " "@);
        match parsed_date_time(text, "%a %b %d %I:%M:%S%.3f %P %Y"@) {
            Some(v) => Some(AbsoluteTimeView { text: text, value: Some(v) }),
            None => None,
        }
    }
}

/// Reads the start time of a trace from its `date` header line (see
/// [`date_header`]).
pub fn absolute_time_from_line(line: &str) -> (r: Option<AbsoluteTime>)
    ensures
        opt_time(r) == date_header(line@),
{
    let parts: Vec<Vec<char>> = split_ws(&chars_of(line), false);
    let ghost ps = tokens(line@, false);
    if parts.len() == 0 {
        return None;
    }
    assert(ps[0] == parts@[0]@);
    if !eq_vec(&parts[0], &chars_of("date")) {
        return None;
    }
    let mut rest: Vec<Vec<char>> = Vec::new();
    let mut k: usize = 1;
    while k < parts.len()
        invariant
            1 <= k <= parts.len(),
            ps == views(parts@),
            views(rest@) == ps.subrange(1, k as int),
        decreases parts.len() - k,
    {
        let ghost before = views(rest@);
        assert(ps[k as int] == parts@[k as int]@);
        let w: Vec<char> = crate::text::slice_of(&parts[k], 0, parts[k].len());
        assert(w@ =~= ps[k as int]);
        rest.push(w);
        assert(views(rest@) =~= before.push(ps[k as int]));
        assert(views(rest@) =~= ps.subrange(1, k + 1));
        k = k + 1;
    }
    assert(ps.subrange(1, ps.len() as int) =~= ps.skip(1));
    let text: String = string_of(&join_exec(&rest, &chars_of(" ")));
    match parse_date_time(text.as_str(), "%a %b %d %I:%M:%S%.3f %P %Y") {
        Some(v) => Some(AbsoluteTime { text: text, value: Some(v) }),
        None => None,
    }
}

/// A frame's time without a start time: `2025-01-01` and the hours,
/// minutes, seconds (two digits at least) and milliseconds (three digits)
/// that `total_millis` makes.
pub open spec fn hms_text(total_millis: u64) -> Seq<char> {
    let h = total_millis / 3_600_000;
    let m = (total_millis % 3_600_000) / 60_000;
    let s = (total_millis % 60_000) / 1000;
    let ms = total_millis % 1000;
    "2025-01-01 "@ + pad_left(dec_string(h as nat), 2, '0') + ":"@ + pad_left(dec_string(m as nat), 2, '0') + ":"@
        + pad_left(dec_string(s as nat), 2, '0') + "."@ + pad_left(dec_string(ms as nat), 3, '0')
}

/// Writes [`hms_text`].
pub fn hms_string(total_millis: u64) -> (r: String)
    ensures
        r@ == hms_text(total_millis),
{
    let h: u64 = total_millis / 3_600_000;
    let m: u64 = (total_millis % 3_600_000) / 60_000;
    let s: u64 = (total_millis % 60_000) / 1000;
    let ms: u64 = total_millis % 1000;
    let mut out: Vec<char> = chars_of("2025-01-01 ");
    let mut a: Vec<char> = pad_left_exec(&fmt_dec(h), 2, '0');
    let mut c1: Vec<char> = chars_of(":");
    let mut b: Vec<char> = pad_left_exec(&fmt_dec(m), 2, '0');
    let mut c2: Vec<char> = chars_of(":");
    let mut c: Vec<char> = pad_left_exec(&fmt_dec(s), 2, '0');
    let mut dot: Vec<char> = chars_of(".");
    let mut d: Vec<char> = pad_left_exec(&fmt_dec(ms), 3, '0');
    out.append(&mut a);
    out.append(&mut c1);
    out.append(&mut b);
    out.append(&mut c2);
    out.append(&mut c);
    out.append(&mut dot);
    out.append(&mut d);
    string_of(&out)
}

/// The text of a frame's time, `millis` (the frame's timestamp in
/// milliseconds, rounded) after the trace's start: with a start time, as
/// `chrono` writes `%Y-%m-%d %H:%M:%S%.3f` (`None` when out of its range);
/// without one, [`hms_text`] of `total_millis` (the same milliseconds, as
/// an unsigned count).
pub fn frame_time_text(start: Option<DateTimeParts>, millis: i64, total_millis: u64) -> (r: Option<String>)
    ensures
        match start {
            Some(t) => opt_text(r) == time_after_text(t, millis, "%Y-%m-%d %H:%M:%S%.3f"@),
            None => r matches Some(s) && s@ == hms_text(total_millis),
        },
{
    match start {
        Some(t) => time_after(t, millis, "%Y-%m-%d %H:%M:%S%.3f"),
        None => Some(hms_string(total_millis)),
    }
}

/// The time text of a frame splits its milliseconds into hours, minutes,
/// seconds and milliseconds: whenever `total_millis` is `h` hours, `m`
/// minutes, `s` seconds and `ms` milliseconds with `m` and `s` below 60 and
/// `ms` below 1000, the text shows exactly those, zero-padded (15000 is
/// `00:00:15.000`).
pub proof fn law_hms_text_fields(total_millis: u64, h: nat, m: nat, s: nat, ms: nat)
    requires
        m < 60,
        s < 60,
        ms < 1000,
        h * 3_600_000 + m * 60_000 + s * 1000 + ms == total_millis,
    ensures
        hms_text(total_millis) == "2025-01-01 "@ + pad_left(dec_string(h), 2, '0') + ":"@ + pad_left(dec_string(m), 2, '0')
            + ":"@ + pad_left(dec_string(s), 2, '0') + "."@ + pad_left(dec_string(ms), 3, '0'),
{
    let t = total_millis as int;
    let below_hour = m * 60_000 + s * 1000 + ms;
    assert(0 <= below_hour < 3_600_000);
    vstd::arithmetic::div_mod::lemma_fundamental_div_mod_converse(t, 3_600_000, h as int, below_hour as int);
    let below_minute = s * 1000 + ms;
    assert(0 <= below_minute < 60_000);
    vstd::arithmetic::div_mod::lemma_fundamental_div_mod_converse(below_hour as int, 60_000, m as int, below_minute as int);
    assert(t == (h * 60 + m) * 60_000 + below_minute) by (nonlinear_arith)
        requires
            t == h * 3_600_000 + m * 60_000 + s * 1000 + ms,
            below_minute == s * 1000 + ms,
    ;
    vstd::arithmetic::div_mod::lemma_fundamental_div_mod_converse(t, 60_000, (h * 60 + m) as int, below_minute as int);
    vstd::arithmetic::div_mod::lemma_fundamental_div_mod_converse(below_minute as int, 1000, s as int, ms as int);
    assert(t == (h * 3600 + m * 60 + s) * 1000 + ms) by (nonlinear_arith)
        requires
            t == h * 3_600_000 + m * 60_000 + s * 1000 + ms,
    ;
    vstd::arithmetic::div_mod::lemma_fundamental_div_mod_converse(t, 1000, (h * 3600 + m * 60 + s) as int, ms as int);
}

} // verus!
