use vstd::prelude::*;

use chrono::Datelike;

use crate::records::Meeting;
use vstd::string::StringSliceAdditionalSpecFns;
use crate::text::{
    string_views, append_text, ascii_lower, has_substring, new_text, trimmed, text_eq, to_ascii_lowercase,
    contains, trim,
};

verus! {

/// Days the forecast service looks back from today.
pub const FORECAST_PAST_DAYS: i64 = 92;

/// Days the forecast service looks ahead from today.
pub const FORECAST_FUTURE_DAYS: i64 = 16;

/// The first day (counted as `chrono::Datelike::num_days_from_ce` counts) that a calendar date
/// can have: 1 January of year -262143.
pub const FIRST_DAY: i64 = -95_746_129;

/// The last day (counted as `num_days_from_ce` counts) that a calendar date can have:
/// 31 December of year 262142.
pub const LAST_DAY: i64 = 95_745_399;

// ---------------------------------------------------------------------------------------------
// Weather codes
pub open spec fn weather_code_text(code: i64) -> Seq<char> {
    if code == 0 {
        "Clear sky"@
    } else if code == 1 {
        "Mainly clear"@
    } else if code == 2 {
        "Partly cloudy"@
    } else if code == 3 {
        "Overcast"@
    } else if code == 45 || code == 48 {
        "Fog"@
    } else if code == 51 || code == 53 || code == 55 {
        "Drizzle"@
    } else if code == 56 || code == 57 {
        "Freezing drizzle"@
    } else if code == 61 {
        "Light rain"@
    } else if code == 63 {
        "Rain"@
    } else if code == 65 {
        "Heavy rain"@
    } else if code == 66 || code == 67 {
        "Freezing rain"@
    } else if code == 71 {
        "Light snow"@
    } else if code == 73 {
        "Snow"@
    } else if code == 75 {
        "Heavy snow"@
    } else if code == 77 {
        "Snow grains"@
    } else if code == 80 {
        "Light showers"@
    } else if code == 81 {
        "Showers"@
    } else if code == 82 {
        "Heavy showers"@
    } else if code == 85 {
        "Light snow showers"@
    } else if code == 86 {
        "Snow showers"@
    } else if code == 95 {
        "Thunderstorm"@
    } else if code == 96 || code == 99 {
        "Thunderstorm with hail"@
    } else {
        "Unknown"@
    }
}

/// The words for a WMO weather code, as the forecast service numbers them.
pub fn weather_code_description(code: i64) -> (r: String)
    ensures
        r@ == weather_code_text(code),
{
    let text = if code == 0 {
        "Clear sky"
    } else if code == 1 {
        "Mainly clear"
    } else if code == 2 {
        "Partly cloudy"
    } else if code == 3 {
        "Overcast"
    } else if code == 45 || code == 48 {
        "Fog"
    } else if code == 51 || code == 53 || code == 55 {
        "Drizzle"
    } else if code == 56 || code == 57 {
        "Freezing drizzle"
    } else if code == 61 {
        "Light rain"
    } else if code == 63 {
        "Rain"
    } else if code == 65 {
        "Heavy rain"
    } else if code == 66 || code == 67 {
        "Freezing rain"
    } else if code == 71 {
        "Light snow"
    } else if code == 73 {
        "Snow"
    } else if code == 75 {
        "Heavy snow"
    } else if code == 77 {
        "Snow grains"
    } else if code == 80 {
        "Light showers"
    } else if code == 81 {
        "Showers"
    } else if code == 82 {
        "Heavy showers"
    } else if code == 85 {
        "Light snow showers"
    } else if code == 86 {
        "Snow showers"
    } else if code == 95 {
        "Thunderstorm"
    } else if code == 96 || code == 99 {
        "Thunderstorm with hail"
    } else {
        "Unknown"
    };
    new_text(text)
}

// ---------------------------------------------------------------------------------------------
// Looking the venue up
/// Adds a search term: trimmed, at least two bytes long, and not there yet.
pub open spec fn push_term(terms: Seq<Seq<char>>, value: Seq<char>) -> Seq<Seq<char>> {
    let t = trimmed(value);
    if vstd::utf8::encode_utf8(t).len() >= 2 && !terms.contains(t) {
        terms.push(t)
    } else {
        terms
    }
}

/// The names to search the venue by, in order: "Monaco" first for Monaco, then the location,
/// the country, the circuit and `location country`.
pub open spec fn search_terms(m: Meeting) -> Seq<Seq<char>> {
    let start = if ascii_lower(m.country_name@) == ascii_lower("Monaco"@) {
        push_term(seq![], "Monaco"@)
    } else {
        seq![]
    };
    push_term(
        push_term(
            push_term(push_term(start, m.location@), m.country_name@),
            m.circuit_short_name@,
        ),
        m.location@ + " "@ + m.country_name@,
    )
}

/// `a.eq_ignore_ascii_case(b)`.
pub fn same_ignoring_ascii_case(a: &str, b: &str) -> (r: bool)
    ensures
        r == (ascii_lower(a@) == ascii_lower(b@)),
{
    let la = to_ascii_lowercase(a);
    let lb = to_ascii_lowercase(b);
    text_eq(la.as_str(), lb.as_str())
}

fn push_search_term(terms: &mut Vec<String>, value: &str)
    ensures
        string_views(final(terms)@) == push_term(string_views(old(terms)@), value@),
{
    let trimmed = trim(value);
    if trimmed.as_bytes().len() >= 2 {
        let ghost views = string_views(terms@);
        let mut seen = false;
        let mut j: usize = 0;
        while j < terms.len()
            invariant
                j <= terms@.len(),
                views == string_views(terms@),
                seen == exists|x: int| 0 <= x < j && views[x] == trimmed@,
            decreases terms.len() - j,
        {
            assert(views[j as int] == terms@[j as int]@);
            if text_eq(terms[j].as_str(), trimmed) {
                seen = true;
            }
            j = j + 1;
        }
        if !seen {
            terms.push(new_text(trimmed));
            assert(string_views(terms@) =~= views.push(trimmed@));
        } else {
            assert(views.contains(trimmed@));
        }
    } else {
        assert(trimmed.spec_bytes().len() < 2);
    }
}

pub fn geocode_search_terms(meeting: &Meeting) -> (r: Vec<String>)
    ensures
        string_views(r@) == search_terms(*meeting),
{
    let mut terms: Vec<String> = Vec::new();
    assert(string_views(terms@) =~= seq![]);
    if same_ignoring_ascii_case(meeting.country_name.as_str(), "Monaco") {
        push_search_term(&mut terms, "Monaco");
    }
    push_search_term(&mut terms, meeting.location.as_str());
    push_search_term(&mut terms, meeting.country_name.as_str());
    push_search_term(&mut terms, meeting.circuit_short_name.as_str());
    let mut both = new_text(meeting.location.as_str());
    append_text(&mut both, " ");
    append_text(&mut both, meeting.country_name.as_str());
    push_search_term(&mut terms, both.as_str());
    terms
}

/// What choosing among geocoding results reads of a result.
#[derive(Debug, Clone, PartialEq, Eq)]
pub struct GeocodeCandidate {
    pub name: String,
    pub country: String,
    pub country_code: String,
}

pub open spec fn monaco_like(c: GeocodeCandidate) -> bool {
    ascii_lower(c.country_code@) == ascii_lower("MC"@) || ascii_lower(c.country@) == ascii_lower(
        "Monaco"@,
    )
}

pub open spec fn same_country(c: GeocodeCandidate, country: Seq<char>) -> bool {
    ascii_lower(c.country@) == country
}

pub open spec fn name_fits(c: GeocodeCandidate, location: Seq<char>, circuit: Seq<char>) -> bool {
    let name = ascii_lower(c.name@);
    name == location || name == circuit || has_substring(name, location) || has_substring(
        location,
        name,
    )
}

/// How well candidate `c` fits the meeting, by the rule that is being tried.
pub open spec fn fits(m: Meeting, c: GeocodeCandidate, rule: int) -> bool {
    if rule == 0 {
        monaco_like(c)
    } else if rule == 1 {
        same_country(c, ascii_lower(m.country_name@))
    } else {
        name_fits(c, ascii_lower(m.location@), ascii_lower(m.circuit_short_name@))
    }
}

/// `k` is the first candidate that fits by `rule`.
pub open spec fn first_fit(m: Meeting, cs: Seq<GeocodeCandidate>, rule: int, k: int) -> bool {
    0 <= k < cs.len() && fits(m, cs[k], rule) && forall|j: int| 0 <= j < k ==> !fits(m, cs[j], rule)
}

pub open spec fn any_fit(m: Meeting, cs: Seq<GeocodeCandidate>, rule: int) -> bool {
    exists|k: int| first_fit(m, cs, rule, k)
}

/// The candidate to take for the meeting: for Monaco the first in Monaco; else the first in
/// the meeting's country; else the first whose name matches the location or the circuit (or
/// holds one in the other); else the first; none when there are no candidates.
pub open spec fn picked_location(m: Meeting, cs: Seq<GeocodeCandidate>) -> Option<int> {
    if cs.len() == 0 {
        None
    } else if ascii_lower(m.country_name@) == "monaco"@ && any_fit(m, cs, 0) {
        Some(choose|k: int| first_fit(m, cs, 0, k))
    } else if any_fit(m, cs, 1) {
        Some(choose|k: int| first_fit(m, cs, 1, k))
    } else if any_fit(m, cs, 2) {
        Some(choose|k: int| first_fit(m, cs, 2, k))
    } else {
        Some(0)
    }
}

fn fits_rule(
    c: &GeocodeCandidate,
    rule: u8,
    country: &String,
    location: &String,
    circuit: &String,
    m: Ghost<Meeting>,
) -> (r: bool)
    requires
        rule <= 2,
        country@ == ascii_lower(m@.country_name@),
        location@ == ascii_lower(m@.location@),
        circuit@ == ascii_lower(m@.circuit_short_name@),
    ensures
        r == fits(m@, *c, rule as int),
{
    if rule == 0 {
        same_ignoring_ascii_case(c.country_code.as_str(), "MC") || same_ignoring_ascii_case(
            c.country.as_str(),
            "Monaco",
        )
    } else if rule == 1 {
        let lower = to_ascii_lowercase(c.country.as_str());
        text_eq(lower.as_str(), country.as_str())
    } else {
        let name = to_ascii_lowercase(c.name.as_str());
        text_eq(name.as_str(), location.as_str()) || text_eq(name.as_str(), circuit.as_str())
            || contains(name.as_str(), location.as_str()) || contains(
            location.as_str(),
            name.as_str(),
        )
    }
}

fn first_fitting(
    candidates: &Vec<GeocodeCandidate>,
    rule: u8,
    country: &String,
    location: &String,
    circuit: &String,
    m: Ghost<Meeting>,
) -> (r: Option<usize>)
    requires
        rule <= 2,
        country@ == ascii_lower(m@.country_name@),
        location@ == ascii_lower(m@.location@),
        circuit@ == ascii_lower(m@.circuit_short_name@),
    ensures
        match r {
            Some(k) => first_fit(m@, candidates@, rule as int, k as int),
            None => !any_fit(m@, candidates@, rule as int),
        },
{
    let mut i: usize = 0;
    while i < candidates.len()
        invariant
            rule <= 2,
            country@ == ascii_lower(m@.country_name@),
            location@ == ascii_lower(m@.location@),
            circuit@ == ascii_lower(m@.circuit_short_name@),
            i <= candidates@.len(),
            forall|j: int| 0 <= j < i ==> !fits(m@, #[trigger] candidates@[j], rule as int),
        decreases candidates.len() - i,
    {
        if fits_rule(&candidates[i], rule, country, location, circuit, m) {
            assert(first_fit(m@, candidates@, rule as int, i as int));
            return Some(i);
        }
        i = i + 1;
    }
    assert forall|k: int| !first_fit(m@, candidates@, rule as int, k) by {
        if 0 <= k < candidates@.len() {
            assert(!fits(m@, candidates@[k], rule as int));
        }
    }
    None
}

/// The index of the geocoding result to use for the meeting (see `picked_location`).
pub fn pick_location(meeting: &Meeting, candidates: &Vec<GeocodeCandidate>) -> (r: Option<usize>)
    ensures
        match r {
            Some(k) => picked_location(*meeting, candidates@) == Some(k as int),
            None => picked_location(*meeting, candidates@) is None,
        },
{
    if candidates.len() == 0 {
        return None;
    }
    let country = to_ascii_lowercase(meeting.country_name.as_str());
    let location = to_ascii_lowercase(meeting.location.as_str());
    let circuit = to_ascii_lowercase(meeting.circuit_short_name.as_str());
    let m = Ghost(*meeting);
    let ghost cs = candidates@;
    if text_eq(country.as_str(), "monaco") {
        if let Some(k) = first_fitting(candidates, 0, &country, &location, &circuit, m) {
            proof {
                reveal_strlit("monaco");
                assert forall|x: int| first_fit(*meeting, cs, 0, x) implies x == k by {
                    if x < k {
                    } else if x > k {
                        assert(fits(*meeting, cs[k as int], 0));
                    }
                }
            }
            return Some(k);
        }
    }
    if let Some(k) = first_fitting(candidates, 1, &country, &location, &circuit, m) {
        assert forall|x: int| first_fit(*meeting, cs, 1, x) implies x == k by {
            if x < k {
            } else if x > k {
                assert(fits(*meeting, cs[k as int], 1));
            }
        }
        return Some(k);
    }
    if let Some(k) = first_fitting(candidates, 2, &country, &location, &circuit, m) {
        assert forall|x: int| first_fit(*meeting, cs, 2, x) implies x == k by {
            if x < k {
            } else if x > k {
                assert(fits(*meeting, cs[k as int], 2));
            }
        }
        return Some(k);
    }
    Some(0)
}

// ---------------------------------------------------------------------------------------------
// The forecast window
/// Why no forecast can be asked for a race weekend.
#[derive(Debug, Clone, Copy, PartialEq, Eq, Structural)]
pub enum ForecastError {
    /// A meeting date does not parse.
    InvalidResponse,
    /// The weekend ended before the service's past window.
    OutsideWindow,
    /// The weekend starts after the service's future window.
    TooFarAhead,
    /// No day of the answer falls on the weekend.
    NoOverlap,
}

pub open spec fn forecast_error_text(e: ForecastError) -> Seq<char> {
    match e {
        ForecastError::InvalidResponse => "invalid response"@,
        ForecastError::OutsideWindow => "forecast unavailable: Race weekend is outside the forecast window"@,
        ForecastError::TooFarAhead => "forecast unavailable: Race weekend is too far ahead for a forecast"@,
        ForecastError::NoOverlap => "forecast unavailable: No forecast days overlap this race weekend"@,
    }
}

impl ForecastError {
    /// The text shown for the error.
    pub fn message(&self) -> (r: &'static str)
        ensures
            r@ == forecast_error_text(*self),
    {
        match self {
            ForecastError::InvalidResponse => "invalid response",
            ForecastError::OutsideWindow => "forecast unavailable: Race weekend is outside the forecast window",
            ForecastError::TooFarAhead => "forecast unavailable: Race weekend is too far ahead for a forecast",
            ForecastError::NoOverlap => "forecast unavailable: No forecast days overlap this race weekend",
        }
    }
}

/// Today is far enough from the ends of the calendar for the window around it to be dates.
pub open spec fn today_in_range(today: i64) -> bool {
    FIRST_DAY <= today - FORECAST_PAST_DAYS && today + FORECAST_FUTURE_DAYS <= LAST_DAY
}

/// The days to ask the forecast for: the weekend clipped to the window from 92 days before
/// today to 16 days after; an error when the weekend lies outside it.
pub open spec fn request_window(start: i64, end: i64, today: i64) -> Result<(i64, i64), ForecastError> {
    let earliest = today - FORECAST_PAST_DAYS;
    let latest = today + FORECAST_FUTURE_DAYS;
    if end < earliest {
        Err(ForecastError::OutsideWindow)
    } else if start > latest {
        Err(ForecastError::TooFarAhead)
    } else {
        let s: int = if start > earliest {
            start as int
        } else {
            earliest
        };
        let e: int = if end < latest {
            end as int
        } else {
            latest
        };
        if e < s {
            Err(ForecastError::OutsideWindow)
        } else {
            Ok((s as i64, e as i64))
        }
    }
}

/// Dates are day numbers (as `num_days_from_ce` counts them).
pub fn forecast_request_dates(meeting_start: i64, meeting_end: i64, today: i64) -> (r: Result<
    (i64, i64),
    ForecastError,
>)
    requires
        today_in_range(today),
    ensures
        r == request_window(meeting_start, meeting_end, today),
{
    let earliest = today - FORECAST_PAST_DAYS;
    let latest = today + FORECAST_FUTURE_DAYS;
    if meeting_end < earliest {
        return Err(ForecastError::OutsideWindow);
    }
    if meeting_start > latest {
        return Err(ForecastError::TooFarAhead);
    }
    let start_date = if meeting_start > earliest {
        meeting_start
    } else {
        earliest
    };
    let end_date = if meeting_end < latest {
        meeting_end
    } else {
        latest
    };
    if end_date < start_date {
        return Err(ForecastError::OutsideWindow);
    }
    Ok((start_date, end_date))
}

/// The calendar day (in the text's own offset) of an RFC 3339 instant, as a day number.
pub uninterp spec fn spec_rfc3339_date(text: Seq<char>) -> Option<i64>;

/// The day number of a `YYYY-MM-DD` text.
pub uninterp spec fn spec_ymd_date(text: Seq<char>) -> Option<i64>;

/// `chrono::DateTime::parse_from_rfc3339`, then `date_naive` and `num_days_from_ce`. The result
/// is named by `spec_rfc3339_date`.
#[verifier::external_body]
fn parse_rfc3339_date(value: &str) -> (r: Option<i64>)
    ensures
        r == spec_rfc3339_date(value@),
{
    chrono::DateTime::parse_from_rfc3339(value).ok().map(|dt| dt.date_naive().num_days_from_ce() as i64)
}

/// `chrono::NaiveDate::parse_from_str` with the format `%Y-%m-%d`, then `num_days_from_ce`. The
/// result is named by `spec_ymd_date`.
#[verifier::external_body]
fn parse_ymd_date(value: &str) -> (r: Option<i64>)
    ensures
        r == spec_ymd_date(value@),
{
    chrono::NaiveDate::parse_from_str(value, "%Y-%m-%d").ok().map(|d| d.num_days_from_ce() as i64)
}

/// The window to ask the forecast of a meeting for (see `request_window`).
pub open spec fn meeting_window(m: Meeting, today: i64) -> Result<(i64, i64), ForecastError> {
    match spec_rfc3339_date(m.date_start@) {
        None => Err(ForecastError::InvalidResponse),
        Some(start) => match spec_rfc3339_date(m.date_end@) {
            None => Err(ForecastError::InvalidResponse),
            Some(end) => request_window(start, end, today),
        },
    }
}

pub fn meeting_forecast_window(meeting: &Meeting, today: i64) -> (r: Result<(i64, i64), ForecastError>)
    requires
        today_in_range(today),
    ensures
        r == meeting_window(*meeting, today),
{
    let start = match parse_rfc3339_date(meeting.date_start.as_str()) {
        Some(d) => d,
        None => return Err(ForecastError::InvalidResponse),
    };
    let end = match parse_rfc3339_date(meeting.date_end.as_str()) {
        Some(d) => d,
        None => return Err(ForecastError::InvalidResponse),
    };
    forecast_request_dates(start, end, today)
}

/// The first and last day of a meeting (the dates of its start and end), or an invalid-answer
/// error when either does not parse.
pub fn meeting_dates(meeting: &Meeting) -> (r: Result<(i64, i64), ForecastError>)
    ensures
        r == (match (spec_rfc3339_date(meeting.date_start@), spec_rfc3339_date(meeting.date_end@)) {
            (Some(start), Some(end)) => Ok((start, end)),
            _ => Err(ForecastError::InvalidResponse),
        }),
{
    let start = match parse_rfc3339_date(meeting.date_start.as_str()) {
        Some(d) => d,
        None => return Err(ForecastError::InvalidResponse),
    };
    let end = match parse_rfc3339_date(meeting.date_end.as_str()) {
        Some(d) => d,
        None => return Err(ForecastError::InvalidResponse),
    };
    Ok((start, end))
}

/// The days of the answer that fall on the weekend: their index and day number, in order.
pub open spec fn days_on_weekend(times: Seq<String>, start: i64, end: i64) -> Seq<(usize, i64)>
    decreases times.len(),
{
    if times.len() == 0 {
        seq![]
    } else {
        let rest = days_on_weekend(times.drop_last(), start, end);
        match spec_ymd_date(times.last()@) {
            Some(d) => if start <= d && d <= end {
                rest.push(((times.len() - 1) as usize, d))
            } else {
                rest
            },
            None => rest,
        }
    }
}

/// Picks the forecast days to show: those whose date parses and lies in `start..=end`. An
/// error when there is none.
pub fn forecast_day_indices(times: &Vec<String>, start: i64, end: i64) -> (r: Result<
    Vec<(usize, i64)>,
    ForecastError,
>)
    ensures
        match r {
            Ok(v) => v@ == days_on_weekend(times@, start, end) && v@.len() > 0,
            Err(e) => e == ForecastError::NoOverlap && days_on_weekend(times@, start, end).len()
                == 0,
        },
{
    let mut picked: Vec<(usize, i64)> = Vec::new();
    let mut i: usize = 0;
    while i < times.len()
        invariant
            i <= times@.len(),
            picked@ == days_on_weekend(times@.subrange(0, i as int), start, end),
        decreases times.len() - i,
    {
        assert(times@.subrange(0, (i + 1) as int).drop_last() =~= times@.subrange(0, i as int));
        assert(times@.subrange(0, (i + 1) as int).last() == times@[i as int]);
        if let Some(d) = parse_ymd_date(times[i].as_str()) {
            if start <= d && d <= end {
                picked.push((i, d));
            }
        }
        i = i + 1;
    }
    assert(times@.subrange(0, times@.len() as int) =~= times@);
    if picked.len() == 0 {
        Err(ForecastError::NoOverlap)
    } else {
        Ok(picked)
    }
}

} // verus!

verus! {

/// The days asked for lie within the weekend and within the window the forecast service
/// serves: from `FORECAST_PAST_DAYS` before today to `FORECAST_FUTURE_DAYS` after, first day
/// not after the last.
pub proof fn law_request_window_bounds(start: i64, end: i64, today: i64)
    requires
        today_in_range(today),
    ensures
        request_window(start, end, today) matches Ok((first, last)) ==> {
            &&& today - FORECAST_PAST_DAYS <= first <= last <= today + FORECAST_FUTURE_DAYS
            &&& (start <= first || first == today - FORECAST_PAST_DAYS)
            &&& last <= end
        },
{
}

} // verus!
