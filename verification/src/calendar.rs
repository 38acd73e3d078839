//! The calendar side of the system: parsing the eight-digit dates a calendar
//! document carries, and picking the well-formed events out of a parsed
//! document. Fetching the document and reading the clock happen outside;
//! every rule about what counts as a valid entry lives here.

use vstd::prelude::*;

use crate::json::{is_digit, is_digit_char, pow10, str_eq, val_of_digits};

verus! {

/// A calendar date, held as plain year, month and day.
#[derive(Debug, PartialEq, Eq, Clone, Copy)]
pub struct Date {
    pub year: i32,
    pub month: u32,
    pub day: u32,
}

pub open spec fn is_leap_year(y: int) -> bool {
    (y % 4 == 0 && y % 100 != 0) || y % 400 == 0
}

pub open spec fn days_in_month(y: int, m: int) -> int {
    if m == 2 {
        if is_leap_year(y) {
            29
        } else {
            28
        }
    } else if m == 4 || m == 6 || m == 9 || m == 11 {
        30
    } else {
        31
    }
}

/// A well-formed calendar date: the month exists and the day fits the month,
/// leap years included.
pub open spec fn valid_date(y: int, m: int, d: int) -> bool {
    1 <= m <= 12 && 1 <= d <= days_in_month(y, m)
}

/// Why an eight-digit date string was rejected.
#[derive(Debug, PartialEq, Eq)]
pub enum ParseDateError {
    ParseIntError(),
    InvalidLength(usize),
    NothingParsed(),
}

pub open spec fn all_digits(s: Seq<char>) -> bool {
    forall|k: int| 0 <= k < s.len() ==> is_digit(#[trigger] s[k])
}

/// What parsing an eight-digit date string yields: the wrong length is
/// rejected as such; anything non-numeric, or a day that does not exist in
/// its month, yields nothing.
pub open spec fn spec_date_from_string(s: Seq<char>) -> Result<Date, ParseDateError> {
    if s.len() != 8 {
        Err(ParseDateError::InvalidLength(s.len() as usize))
    } else if all_digits(s.subrange(0, 4)) && all_digits(s.subrange(4, 6)) && all_digits(
        s.subrange(6, 8),
    ) {
        let y = val_of_digits(s.subrange(0, 4));
        let m = val_of_digits(s.subrange(4, 6));
        let d = val_of_digits(s.subrange(6, 8));
        if valid_date(y, m, d) {
            Ok(Date { year: y as i32, month: m as u32, day: d as u32 })
        } else {
            Err(ParseDateError::NothingParsed())
        }
    } else {
        Err(ParseDateError::NothingParsed())
    }
}

/// The value of a short all-digit slice of the text, or nothing on the first
/// non-digit.
fn digits_value(s: &str, from: usize, to: usize) -> (r: Option<u32>)
    requires
        from <= to <= s@.len(),
        to - from <= 4,
    ensures
        match r {
            Some(v) => all_digits(s@.subrange(from as int, to as int)) && (v as int)
                == val_of_digits(s@.subrange(from as int, to as int)) && v < 10000,
            None => !all_digits(s@.subrange(from as int, to as int)),
        },
{
    let mut v: u32 = 0;
    let mut k: usize = from;
    while k < to
        invariant
            from <= k <= to,
            to <= s@.len(),
            to - from <= 4,
            all_digits(s@.subrange(from as int, k as int)),
            v as int == val_of_digits(s@.subrange(from as int, k as int)),
            (v as int) < pow10((k - from) as nat),
        decreases to - k,
    {
        let c = s.get_char(k);
        proof {
            assert(pow10(0) == 1);
            assert(pow10(1) == 10);
            assert(pow10(2) == 100);
            assert(pow10(3) == 1000);
            assert(pow10(4) == 10000);
        }
        if !is_digit_char(c) {
            proof {
                assert(s@.subrange(from as int, to as int)[k - from] == s@[k as int]);
            }
            return None;
        }
        let d = (c as u32) - 48;
        proof {
            let sub1 = s@.subrange(from as int, k + 1);
            assert(sub1.drop_last() =~= s@.subrange(from as int, k as int));
            assert(sub1.last() == s@[k as int]);
            assert forall|m: int| 0 <= m < sub1.len() implies is_digit(#[trigger] sub1[m]) by {
                if m < sub1.len() - 1 {
                    assert(sub1[m] == sub1.drop_last()[m]);
                }
            }
        }
        v = v * 10 + d;
        k = k + 1;
    }
    proof {
        assert(pow10(0) == 1);
        assert(pow10(1) == 10);
        assert(pow10(2) == 100);
        assert(pow10(3) == 1000);
        assert(pow10(4) == 10000);
    }
    Some(v)
}

/// Whether the given numbers name a real calendar day.
fn is_valid_date(y: u32, m: u32, d: u32) -> (r: bool)
    ensures
        r == valid_date(y as int, m as int, d as int),
{
    if m < 1 || m > 12 {
        return false;
    }
    let dim: u32 = if m == 2 {
        if (y % 4 == 0 && y % 100 != 0) || y % 400 == 0 {
            29
        } else {
            28
        }
    } else if m == 4 || m == 6 || m == 9 || m == 11 {
        30
    } else {
        31
    };
    1 <= d && d <= dim
}

/// Parses an eight-digit `YYYYMMDD` date string.
pub fn date_from_string(value: &str) -> (r: Result<Date, ParseDateError>)
    ensures
        r == spec_date_from_string(value@),
{
    let n = value.unicode_len();
    if n != 8 {
        return Err(ParseDateError::InvalidLength(n));
    }
    let year = digits_value(value, 0, 4);
    let month = digits_value(value, 4, 6);
    let day = digits_value(value, 6, 8);
    match (year, month, day) {
        (Some(y), Some(m), Some(d)) => {
            if is_valid_date(y, m, d) {
                Ok(Date { year: y as i32, month: m, day: d })
            } else {
                Err(ParseDateError::NothingParsed())
            }
        },
        _ => Err(ParseDateError::NothingParsed()),
    }
}

/// One property of a calendar entry: its name, and its value if it has one.
#[derive(Debug)]
pub struct CalProperty {
    pub name: String,
    pub value: Option<String>,
}

impl DeepView for CalProperty {
    type V = (Seq<char>, Option<Seq<char>>);

    open spec fn deep_view(&self) -> (Seq<char>, Option<Seq<char>>) {
        (
            self.name@,
            match self.value {
                Some(v) => Some(v@),
                None => None,
            },
        )
    }
}

/// A calendar event the system schedules a notification for.
#[derive(Debug, PartialEq, Eq)]
pub struct Event {
    pub uid: String,
    pub name: String,
    pub date: Date,
}

/// Mathematical model of an [`Event`].
pub struct EventModel {
    pub uid: Seq<char>,
    pub name: Seq<char>,
    pub date: Date,
}

impl View for Event {
    type V = EventModel;

    open spec fn view(&self) -> EventModel {
        EventModel { uid: self.uid@, name: self.name@, date: self.date }
    }
}

impl DeepView for Event {
    type V = EventModel;

    open spec fn deep_view(&self) -> EventModel {
        self.view()
    }
}

/// Why calendar information could not be had: the document could not be
/// fetched, or it does not parse as a calendar.
#[derive(Debug)]
pub enum CalendarError {
    ReqwestError(),
    ParseError(),
}

/// The value of the last `UID` property, if any.
pub open spec fn last_uid(props: Seq<(Seq<char>, Option<Seq<char>>)>) -> Option<Seq<char>>
    decreases props.len(),
{
    if props.len() == 0 {
        None
    } else if props.last().0 == "UID"@ {
        props.last().1
    } else {
        last_uid(props.drop_last())
    }
}

/// The value of the last `SUMMARY` property, if any.
pub open spec fn last_summary(props: Seq<(Seq<char>, Option<Seq<char>>)>) -> Option<Seq<char>>
    decreases props.len(),
{
    if props.len() == 0 {
        None
    } else if props.last().0 == "SUMMARY"@ {
        props.last().1
    } else {
        last_summary(props.drop_last())
    }
}

pub open spec fn date_ok(v: Seq<char>) -> Option<Date> {
    match spec_date_from_string(v) {
        Ok(d) => Some(d),
        Err(_) => None,
    }
}

/// The date of the last valued `DTSTART` property: a later unparsable date
/// overrides an earlier good one, exactly as the scan does.
pub open spec fn last_date(props: Seq<(Seq<char>, Option<Seq<char>>)>) -> Option<Date>
    decreases props.len(),
{
    if props.len() == 0 {
        None
    } else if props.last().0 == "DTSTART"@ {
        match props.last().1 {
            Some(v) => date_ok(v),
            None => last_date(props.drop_last()),
        }
    } else {
        last_date(props.drop_last())
    }
}

/// The event a property list describes, if it carries a unique id, a name
/// and a valid date.
pub open spec fn event_of(props: Seq<(Seq<char>, Option<Seq<char>>)>) -> Option<EventModel> {
    match (last_uid(props), last_summary(props), last_date(props)) {
        (Some(uid), Some(name), Some(date)) => Some(EventModel { uid, name, date }),
        _ => None,
    }
}

/// The events of a whole document, in order; entries missing anything are
/// skipped.
pub open spec fn events_of_props(evs: Seq<Seq<(Seq<char>, Option<Seq<char>>)>>) -> Seq<
    EventModel,
>
    decreases evs.len(),
{
    if evs.len() == 0 {
        Seq::empty()
    } else {
        events_of_props(evs.drop_last()) + (match event_of(evs.last()) {
            Some(e) => seq![e],
            None => Seq::empty(),
        })
    }
}

pub open spec fn opt_str_view(o: Option<String>) -> Option<Seq<char>> {
    match o {
        Some(s) => Some(s@),
        None => None,
    }
}

/// Scans one entry's properties for its id, name and date; the last
/// occurrence of each property wins.
fn extract_event(props: &Vec<CalProperty>) -> (r: Option<Event>)
    ensures
        match r {
            Some(e) => event_of(props.deep_view()) == Some(e@),
            None => event_of(props.deep_view()) is None,
        },
{
    let ghost pd = props.deep_view();
    let mut uid: Option<String> = None;
    let mut name: Option<String> = None;
    let mut date: Option<Date> = None;
    let mut k: usize = 0;
    while k < props.len()
        invariant
            k <= props@.len(),
            pd == props.deep_view(),
            pd.len() == props@.len(),
            opt_str_view(uid) == last_uid(pd.take(k as int)),
            opt_str_view(name) == last_summary(pd.take(k as int)),
            date == last_date(pd.take(k as int)),
        decreases props@.len() - k,
    {
        let p = &props[k];
        proof {
            reveal_strlit("UID");
            reveal_strlit("SUMMARY");
            reveal_strlit("DTSTART");
            assert("UID"@.len() == 3);
            assert("SUMMARY"@.len() == 7);
            assert("DTSTART"@.len() == 7);
            assert("SUMMARY"@[0] == 'S');
            assert("DTSTART"@[0] == 'D');
            assert("UID"@ != "SUMMARY"@);
            assert("UID"@ != "DTSTART"@);
            assert("SUMMARY"@ != "DTSTART"@);
            assert(pd.take(k + 1).drop_last() =~= pd.take(k as int));
            assert(pd.take(k + 1).last() == pd[k as int]);
        }
        if str_eq(p.name.as_str(), "UID") {
            uid = match &p.value {
                Some(v) => Some(v.clone()),
                None => None,
            };
        } else if str_eq(p.name.as_str(), "SUMMARY") {
            name = match &p.value {
                Some(v) => Some(v.clone()),
                None => None,
            };
        } else if str_eq(p.name.as_str(), "DTSTART") {
            match &p.value {
                Some(v) => {
                    date = match date_from_string(v.as_str()) {
                        Ok(d) => Some(d),
                        Err(_) => None,
                    };
                },
                None => {},
            }
        }
        k = k + 1;
    }
    proof {
        assert(pd.take(props@.len() as int) =~= pd);
    }
    match (uid, name, date) {
        (Some(u), Some(nm), Some(d)) => Some(Event { uid: u, name: nm, date: d }),
        _ => None,
    }
}

/// Picks the well-formed events out of a parsed document, in order; entries
/// missing a unique id, a name or a valid date are skipped, never fatal.
pub fn extract_events(cals: &Vec<Vec<CalProperty>>) -> (evs: Vec<Event>)
    ensures
        evs.deep_view() == events_of_props(cals.deep_view()),
{
    let ghost cd = cals.deep_view();
    let mut out: Vec<Event> = Vec::new();
    let mut j: usize = 0;
    while j < cals.len()
        invariant
            j <= cals@.len(),
            cd == cals.deep_view(),
            cd.len() == cals@.len(),
            out.deep_view() == events_of_props(cd.take(j as int)),
        decreases cals@.len() - j,
    {
        proof {
            assert(cd.take(j + 1).drop_last() =~= cd.take(j as int));
            assert(cd.take(j + 1).last() == cd[j as int]);
        }
        let ghost prev = out.deep_view();
        match extract_event(&cals[j]) {
            Some(e) => {
                out.push(e);
                proof {
                    assert(out.deep_view() =~= prev.push(e@));
                    assert(out.deep_view() =~= events_of_props(cd.take(j + 1)));
                }
            },
            None => {
                proof {
                    assert(out.deep_view() =~= events_of_props(cd.take(j + 1)));
                }
            },
        }
        j = j + 1;
    }
    proof {
        assert(cd.take(cals@.len() as int) =~= cd);
    }
    out
}

/// What the calendar parser yields on given text, event by event and
/// property by property, or nothing where the text is no calendar.
pub uninterp spec fn ical_events_of(text: Seq<char>) -> Option<
    Seq<Seq<(Seq<char>, Option<Seq<char>>)>>,
>;

/// Relies on ical's IcalParser: parsing is a function of the text alone, and
/// yields every calendar's events' property lists, in document order, or
/// fails on a document that is no calendar.
#[verifier::external_body]
fn parse_ical(text: &str) -> (r: Result<Vec<Vec<CalProperty>>, CalendarError>)
    ensures
        match r {
            Ok(evs) => ical_events_of(text@) == Some(evs.deep_view()),
            Err(e) => ical_events_of(text@) is None && e is ParseError,
        },
{
    let mut out: Vec<Vec<CalProperty>> = Vec::new();
    for cal in ical::IcalParser::new(text.as_bytes()) {
        let cal = match cal {
            Ok(c) => c,
            Err(_) => return Err(CalendarError::ParseError()),
        };
        for ev in cal.events {
            out.push(
                ev.properties.into_iter().map(
                    |p| CalProperty { name: p.name, value: p.value },
                ).collect(),
            );
        }
    }
    Ok(out)
}

/// Reads the events out of a fetched calendar document: parses it and keeps
/// exactly the entries that carry a unique id, a name and a valid date.
pub fn events_from_ics(text: &str) -> (r: Result<Vec<Event>, CalendarError>)
    ensures
        match r {
            Ok(evs) => ical_events_of(text@) matches Some(props) && evs.deep_view()
                == events_of_props(props),
            Err(e) => ical_events_of(text@) is None && e is ParseError,
        },
{
    let props = match parse_ical(text) {
        Ok(p) => p,
        Err(e) => {
            return Err(e);
        },
    };
    Ok(extract_events(&props))
}

} // verus!
