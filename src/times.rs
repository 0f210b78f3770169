//! Reading a point in time from user input, through the time crate.
use vstd::prelude::*;
use vstd::string::StrSliceExecFns;

verus! {

/// A calendar date.
#[derive(Clone, Copy, Debug, PartialEq, Eq, Structural)]
pub struct CivilDate {
    pub year: i32,
    pub month: u8,
    pub day: u8,
}

/// A time of day, to the second.
#[derive(Clone, Copy, Debug, PartialEq, Eq, Structural)]
pub struct ClockTime {
    pub hour: u8,
    pub minute: u8,
    pub second: u8,
}

/// Year-month-day, without padding.
pub const ISO_DATE: &'static str = "[year]-[month padding:none]-[day padding:none]";

/// Month/day/year, without padding.
pub const USA_DATE: &'static str = "[month padding:none]/[day padding:none]/[year]";

/// Hours and minutes, with optional seconds.
pub const TIME_OF_DAY: &'static str = "[hour padding:none]:[minute][optional [:[second]]]";

/// The one error: the input is in none of the accepted forms.
pub const ERR_MSG: &'static str = "illegal date/time format; try one of:
    \"2021-01-27 7:20:35\"
    \"1/27/2021 7:20:35\"
    2021-01-27
    1/27/2021
    7:20:35
    7:20
";

/// The date that the time crate reads from `s` in the format described by
/// `format`, if it reads one.
pub uninterp spec fn date_read(s: Seq<char>, format: Seq<char>) -> Option<CivilDate>;

/// The time of day that the time crate reads from `s` in the format
/// described by `format`, if it reads one.
pub uninterp spec fn time_read(s: Seq<char>, format: Seq<char>) -> Option<ClockTime>;

/// The Unix time, in seconds, of `time` on `date` at a UTC offset of
/// `offset` seconds, when the time crate accepts the three.
pub uninterp spec fn unix_time_of(date: CivilDate, time: ClockTime, offset: int) -> Option<i64>;

/// Relies on `time::format_description::parse_owned` (version 2) and
/// `time::Date::parse`: the date read depends on the input and the format
/// description alone.
#[verifier::external_body]
fn parse_date(s: &str, format: &str) -> (r: Option<CivilDate>)
    ensures
        r == date_read(s@, format@),
{
    let items = time::format_description::parse_owned::<2>(format).ok()?;
    let d = time::Date::parse(s, &items).ok()?;
    Some(CivilDate { year: d.year(), month: d.month() as u8, day: d.day() })
}

/// Relies on `time::format_description::parse_owned` (version 2) and
/// `time::Time::parse`: the time read depends on the input and the format
/// description alone.
#[verifier::external_body]
fn parse_clock(s: &str, format: &str) -> (r: Option<ClockTime>)
    ensures
        r == time_read(s@, format@),
{
    let items = time::format_description::parse_owned::<2>(format).ok()?;
    let t = time::Time::parse(s, &items).ok()?;
    Some(ClockTime { hour: t.hour(), minute: t.minute(), second: t.second() })
}

/// Relies on `time::PlainDateTime::assume_offset` and
/// `time::OffsetDateTime::unix_timestamp` (the date, time and offset being
/// built with `from_calendar_date`, `from_hms` and `from_whole_seconds`):
/// the timestamp depends on the three values alone.
#[verifier::external_body]
fn unix_time(date: CivilDate, clock: ClockTime, offset: i32) -> (r: Option<i64>)
    ensures
        r == unix_time_of(date, clock, offset as int),
{
    let month = time::Month::try_from(date.month).ok()?;
    let d = time::Date::from_calendar_date(date.year, month, date.day).ok()?;
    let t = time::Time::from_hms(clock.hour, clock.minute, clock.second).ok()?;
    let off = time::UtcOffset::from_whole_seconds(offset).ok()?;
    Some(d.with_time(t).assume_offset(off).unix_timestamp())
}

/// The characters that separate words: ASCII white space.
pub open spec fn is_ascii_space(c: char) -> bool {
    c == ' ' || c == '\t' || c == '\n' || c == '\x0C' || c == '\r'
}

/// The words found so far in `s`, and the word still being read.
pub open spec fn split_state(s: Seq<char>) -> (Seq<Seq<char>>, Seq<char>)
    decreases s.len(),
{
    if s.len() == 0 {
        (Seq::empty(), Seq::empty())
    } else {
        let (ws, cur) = split_state(s.drop_last());
        if is_ascii_space(s.last()) {
            if cur.len() > 0 {
                (ws.push(cur), Seq::empty())
            } else {
                (ws, Seq::empty())
            }
        } else {
            (ws, cur.push(s.last()))
        }
    }
}

/// The maximal runs of characters other than ASCII white space in `s`.
pub open spec fn words(s: Seq<char>) -> Seq<Seq<char>> {
    let (ws, cur) = split_state(s);
    if cur.len() > 0 {
        ws.push(cur)
    } else {
        ws
    }
}

/// The words of `s`, as slices of it.
pub fn split_words(s: &str) -> (r: Vec<&str>)
    ensures
        r@.len() == words(s@).len(),
        forall|i: int| 0 <= i < r@.len() ==> (#[trigger] r@[i])@ == words(s@)[i],
{
    let n = s.unicode_len();
    let mut ws: Vec<&str> = Vec::new();
    let mut start: usize = 0;
    let mut reading = false;
    let mut i: usize = 0;
    while i < n
        invariant
            n == s@.len(),
            i <= n,
            start <= i,
            ws@.len() == split_state(s@.take(i as int)).0.len(),
            forall|j: int| 0 <= j < ws@.len() ==> (#[trigger] ws@[j])@ == split_state(s@.take(i as int)).0[j],
            split_state(s@.take(i as int)).1 == (if reading {
                s@.subrange(start as int, i as int)
            } else {
                Seq::empty()
            }),
            reading ==> start < i,
        decreases n - i,
    {
        let c = s.get_char(i);
        assert(s@.take(i + 1).drop_last() =~= s@.take(i as int));
        assert(s@.take(i + 1).last() == c);
        let space = c == ' ' || c == '\t' || c == '\n' || c == '\x0C' || c == '\r';
        if space {
            if reading {
                let w = s.substring_char(start, i);
                ws.push(w);
                reading = false;
            }
        } else {
            if !reading {
                start = i;
                reading = true;
                assert(s@.subrange(start as int, i + 1) =~= Seq::<char>::empty().push(c));
            } else {
                assert(s@.subrange(start as int, i + 1) =~= s@.subrange(start as int, i as int).push(c));
            }
        }
        i = i + 1;
    }
    assert(s@.take(n as int) =~= s@);
    if reading {
        let w = s.substring_char(start, n);
        ws.push(w);
    }
    ws
}

/// The date in either accepted form, the ISO one first.
pub open spec fn date_any(w: Seq<char>) -> Option<CivilDate> {
    match date_read(w, ISO_DATE@) {
        Some(d) => Some(d),
        None => date_read(w, USA_DATE@),
    }
}

/// Midnight.
pub open spec fn midnight() -> ClockTime {
    ClockTime { hour: 0, minute: 0, second: 0 }
}

/// The Unix time that `s` denotes, at UTC offset `offset` seconds, with
/// `today` standing for the date when only a time is given: a date and a
/// time; a date alone (at midnight); or a time alone (on `today`).
pub open spec fn time_stamp(s: Seq<char>, offset: int, today: CivilDate) -> Option<i64> {
    let ws = words(s);
    if ws.len() == 2 {
        match (date_any(ws[0]), time_read(ws[1], TIME_OF_DAY@)) {
            (Some(d), Some(t)) => unix_time_of(d, t, offset),
            _ => None,
        }
    } else if ws.len() == 1 {
        match date_any(ws[0]) {
            Some(d) => unix_time_of(d, midnight(), offset),
            None => match time_read(ws[0], TIME_OF_DAY@) {
                Some(t) => unix_time_of(today, t, offset),
                None => None,
            },
        }
    } else {
        None
    }
}

/// Reads a date in either accepted form.
fn try_date(s: &str) -> (r: Option<CivilDate>)
    ensures
        r == date_any(s@),
{
    match parse_date(s, ISO_DATE) {
        Some(d) => Some(d),
        None => parse_date(s, USA_DATE),
    }
}

/// Reads a point in time in one of the forms "2021-01-27 7:20:35",
/// "1/27/2021 7:20:35", "2021-01-27", "1/27/2021", "7:20:35" or "7:20",
/// at the UTC offset `offset` (seconds east), taking `today` as the date
/// when only a time is given. Returns Unix seconds.
pub fn parse_time(tstr: &str, offset: i32, today: CivilDate) -> (r: Result<i64, &'static str>)
    ensures
        r is Ok <==> time_stamp(tstr@, offset as int, today) is Some,
        r matches Ok(x) ==> time_stamp(tstr@, offset as int, today) == Some(x),
        r matches Err(e) ==> e@ == ERR_MSG@,
{
    let ws = split_words(tstr);
    let stamp = if ws.len() == 2 {
        match try_date(ws[0]) {
            None => None,
            Some(d) => match parse_clock(ws[1], TIME_OF_DAY) {
                None => None,
                Some(t) => unix_time(d, t, offset),
            },
        }
    } else if ws.len() == 1 {
        match try_date(ws[0]) {
            Some(d) => unix_time(d, ClockTime { hour: 0, minute: 0, second: 0 }, offset),
            None => match parse_clock(ws[0], TIME_OF_DAY) {
                Some(t) => unix_time(today, t, offset),
                None => None,
            },
        }
    } else {
        None
    };
    match stamp {
        Some(x) => Ok(x),
        None => Err(ERR_MSG),
    }
}

/// Whether a window of modification times can hold anything: when both
/// bounds are given, the lower one must come first.
pub fn window_ok(after: Option<i64>, before: Option<i64>) -> (r: bool)
    ensures
        r == (match (after, before) {
            (Some(a), Some(b)) => a < b,
            _ => true,
        }),
{
    match (after, before) {
        (Some(a), Some(b)) => a < b,
        _ => true,
    }
}

} // verus!
