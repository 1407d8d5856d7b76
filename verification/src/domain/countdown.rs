use vstd::prelude::*;

use crate::clock::{
    meeting_ends, meeting_ends_resolve, meeting_starts, meeting_starts_resolve, session_starts,
    session_starts_resolve,
};
use crate::order::{keys_view, stable_order, stable_sort_indices};
use crate::records::{pick_sessions, Meeting, Session};
use crate::text::{append_text, nat_digits, new_text, push_padded, zero_pad};

verus! {

/// The sessions of one meeting, in start order.
#[derive(Debug, Clone)]
pub struct SessionSchedule {
    pub meeting_key: i64,
    pub sessions: Vec<Session>,
}

/// What the countdown counts down to. `starts_at` is in milliseconds since the epoch.
#[derive(Debug, Clone, PartialEq, Eq)]
pub enum CountdownTarget {
    NextSession { session_name: String, starts_at: i64 },
    SchedulePending,
    SeasonComplete,
}

/// One field of the countdown clock (`value` over its `label`).
#[derive(Debug, Clone, PartialEq, Eq)]
pub struct CountdownSegment {
    pub value: String,
    pub label: &'static str,
}

pub open spec fn arrange<T>(s: Seq<T>, order: Seq<usize>) -> Seq<T> {
    order.map_values(|i: usize| s[i as int])
}

pub open spec fn single_keys(times: Seq<i64>) -> Seq<Seq<i64>> {
    times.map_values(|t: i64| seq![t])
}

/// The numbers `vals` taken in the order `o` never go down (never go up, when `desc`).
pub open spec fn values_ordered(vals: Seq<i64>, o: Seq<usize>, desc: bool) -> bool {
    forall|a: int, b: int|
        #![trigger o[a], o[b]]
        0 <= a < b < o.len() ==> if desc {
            vals[o[a] as int] >= vals[o[b] as int]
        } else {
            vals[o[a] as int] <= vals[o[b] as int]
        }
}

/// A stable sort by one number per item puts the numbers in order (ascending, or descending
/// when `desc`), and lists each index once.
pub proof fn lemma_single_keys_sorted(vals: Seq<i64>, desc: bool)
    requires
        vals.len() <= usize::MAX,
    ensures
        stable_order(single_keys(vals), desc, vals.len()).len() == vals.len(),
        forall|m: int|
            0 <= m < vals.len() ==> (#[trigger] stable_order(single_keys(vals), desc, vals.len())[m]
                as int) < vals.len(),
        values_ordered(vals, stable_order(single_keys(vals), desc, vals.len()), desc),
{
    let keys = single_keys(vals);
    let o = stable_order(keys, desc, vals.len());
    crate::order::lemma_stable_order_permutes(keys, desc, vals.len());
    crate::order::lemma_stable_order_sorted(keys, desc, vals.len());
    assert forall|a: int, b: int| 0 <= a < b < o.len() implies (if desc {
        vals[o[a] as int] >= vals[o[b] as int]
    } else {
        vals[o[a] as int] <= vals[o[b] as int]
    }) by {
        let x = vals[o[a] as int];
        let y = vals[o[b] as int];
        assert(keys[o[a] as int] == seq![x]);
        assert(keys[o[b] as int] == seq![y]);
        assert(!crate::order::goes_before(keys[o[b] as int], keys[o[a] as int], desc));
        crate::order::lemma_single_key_lt(y, x);
        crate::order::lemma_single_key_lt(x, y);
    }
}

pub fn single_key_vec(times: &Vec<i64>) -> (r: Vec<Vec<i64>>)
    ensures
        keys_view(r@) == single_keys(times@),
{
    let mut r: Vec<Vec<i64>> = Vec::new();
    let mut i: usize = 0;
    while i < times.len()
        invariant
            i <= times@.len(),
            r@.len() == i,
            forall|j: int| 0 <= j < i ==> (#[trigger] r@[j])@ == seq![times@[j]],
        decreases times.len() - i,
    {
        let mut k: Vec<i64> = Vec::new();
        k.push(times[i]);
        assert(k@ =~= seq![times@[i as int]]);
        r.push(k);
        i = i + 1;
    }
    assert(keys_view(r@) =~= single_keys(times@));
    r
}

pub open spec fn in_schedule(meeting_key: i64) -> spec_fn(Session) -> bool {
    |s: Session| s.meeting_key == meeting_key && !s.is_cancelled
}

/// The schedule of `meeting_key` in start order, for the instants the session dates stand for.
pub open spec fn schedule_for(
    sessions: Seq<Session>,
    meeting_key: i64,
    starts: Seq<i64>,
    result: Seq<Session>,
) -> bool {
    let list = sessions.filter(in_schedule(meeting_key));
    session_starts_resolve(list, starts) && result == arrange(
        list,
        stable_order(single_keys(starts), false, list.len()),
    )
}

fn schedule_sessions(sessions: &Vec<Session>, meeting_key: i64) -> (r: Vec<Session>)
    ensures
        r@ == sessions@.filter(in_schedule(meeting_key)),
{
    let mut r: Vec<Session> = Vec::new();
    let mut i: usize = 0;
    while i < sessions.len()
        invariant
            i <= sessions@.len(),
            r@ == sessions@.subrange(0, i as int).filter(in_schedule(meeting_key)),
        decreases sessions.len() - i,
    {
        proof {
            reveal(Seq::filter);
            assert(sessions@.subrange(0, (i + 1) as int).drop_last() =~= sessions@.subrange(
                0,
                i as int,
            ));
        }
        if sessions[i].meeting_key == meeting_key && !sessions[i].is_cancelled {
            r.push(sessions[i].duplicate());
        }
        i = i + 1;
    }
    assert(sessions@.subrange(0, sessions@.len() as int) =~= sessions@);
    r
}

/// The uncancelled sessions of `meeting_key`, sorted by start (stable).
pub fn sessions_for_meeting(sessions: &Vec<Session>, meeting_key: i64) -> (r: SessionSchedule)
    ensures
        r.meeting_key == meeting_key,
        exists|starts: Seq<i64>| #[trigger] schedule_for(sessions@, meeting_key, starts, r.sessions@),
{
    let list = schedule_sessions(sessions, meeting_key);
    let starts = session_starts(&list);
    let keys = single_key_vec(&starts);
    let order = stable_sort_indices(&keys, false);
    assert(keys_view(keys@).len() == keys@.len());
    assert(keys@.len() == list@.len());
    let sorted = pick_sessions(&list, &order);
    assert(sorted@ =~= arrange(list@, order@));
    let r = SessionSchedule { meeting_key, sessions: sorted };
    assert(schedule_for(sessions@, meeting_key, starts@, r.sessions@));
    r
}

// ---------------------------------------------------------------------------------------------
// Next session
pub open spec fn is_future(s: Session, start: i64, now: i64) -> bool {
    !s.is_cancelled && start > now
}

/// `i` is the earliest future session; among equal starts, the first listed.
pub open spec fn earliest_future(sessions: Seq<Session>, starts: Seq<i64>, now: i64, i: int) -> bool {
    &&& 0 <= i < sessions.len()
    &&& is_future(sessions[i], starts[i], now)
    &&& forall|j: int|
        0 <= j < sessions.len() && is_future(sessions[j], starts[j], now) ==> starts[i]
            <= #[trigger] starts[j]
    &&& forall|j: int|
        0 <= j < i && is_future(sessions[j], starts[j], now) ==> starts[i] < #[trigger] starts[j]
}

pub open spec fn meeting_live(m: Meeting, start: i64, end: i64, now: i64) -> bool {
    !m.is_cancelled && start <= now && now <= end
}

pub open spec fn any_meeting_live(
    meetings: Seq<Meeting>,
    mstarts: Seq<i64>,
    mends: Seq<i64>,
    now: i64,
) -> bool {
    exists|k: int|
        0 <= k < meetings.len() && #[trigger] meeting_live(meetings[k], mstarts[k], mends[k], now)
}

/// The countdown target for the given instants of the sessions and meetings.
pub open spec fn countdown_target_is(
    r: CountdownTarget,
    meetings: Seq<Meeting>,
    mstarts: Seq<i64>,
    mends: Seq<i64>,
    sessions: Seq<Session>,
    starts: Seq<i64>,
    now: i64,
) -> bool {
    if exists|i: int| earliest_future(sessions, starts, now, i) {
        let i = choose|i: int| earliest_future(sessions, starts, now, i);
        r matches CountdownTarget::NextSession { session_name, starts_at } && session_name@
            == sessions[i].session_name@ && starts_at == starts[i]
    } else if any_meeting_live(meetings, mstarts, mends, now) {
        r == CountdownTarget::SchedulePending
    } else {
        r == CountdownTarget::SeasonComplete
    }
}

pub open spec fn season_countdown(
    meetings: Seq<Meeting>,
    mstarts: Seq<i64>,
    mends: Seq<i64>,
    sessions: Seq<Session>,
    starts: Seq<i64>,
    now: i64,
    r: CountdownTarget,
) -> bool {
    &&& meeting_starts_resolve(meetings, mstarts)
    &&& meeting_ends_resolve(meetings, mends)
    &&& session_starts_resolve(sessions, starts)
    &&& countdown_target_is(r, meetings, mstarts, mends, sessions, starts, now)
}

/// `r` is the countdown target of the meetings and sessions at `now`, for the instants their
/// dates stand for.
pub open spec fn countdown_of(
    meetings: Seq<Meeting>,
    sessions: Seq<Session>,
    now: i64,
    r: CountdownTarget,
) -> bool {
    exists|mstarts: Seq<i64>, mends: Seq<i64>, starts: Seq<i64>|
        #[trigger] season_countdown(meetings, mstarts, mends, sessions, starts, now, r)
}

/// The countdown target for sessions and meetings whose instants are already known.
pub fn countdown_target_at(
    meetings: &Vec<Meeting>,
    mstarts: &Vec<i64>,
    mends: &Vec<i64>,
    sessions: &Vec<Session>,
    starts: &Vec<i64>,
    now: i64,
) -> (r: CountdownTarget)
    requires
        mstarts@.len() == meetings@.len(),
        mends@.len() == meetings@.len(),
        starts@.len() == sessions@.len(),
    ensures
        countdown_target_is(r, meetings@, mstarts@, mends@, sessions@, starts@, now),
{
    let mut best: Option<usize> = None;
    let mut i: usize = 0;
    while i < sessions.len()
        invariant
            i <= sessions@.len(),
            starts@.len() == sessions@.len(),
            match best {
                Some(b) => earliest_future(
                    sessions@.subrange(0, i as int),
                    starts@.subrange(0, i as int),
                    now,
                    b as int,
                ),
                None => forall|j: int|
                    0 <= j < i ==> !is_future(#[trigger] sessions@[j], starts@[j], now),
            },
        decreases sessions.len() - i,
    {
        let ghost ss = sessions@.subrange(0, (i + 1) as int);
        let ghost ts = starts@.subrange(0, (i + 1) as int);
        if !sessions[i].is_cancelled && starts[i] > now {
            match best {
                Some(b) => {
                    if starts[i] < starts[b] {
                        assert(earliest_future(ss, ts, now, i as int)) by {
                            assert forall|j: int|
                                0 <= j < ss.len() && is_future(ss[j], ts[j], now) implies ts[i as int]
                                <= #[trigger] ts[j] by {
                                if j < i {
                                    assert(sessions@.subrange(0, i as int)[j] == ss[j]);
                                    assert(starts@.subrange(0, i as int)[j] == ts[j]);
                                }
                            }
                            assert forall|j: int|
                                0 <= j < i && is_future(ss[j], ts[j], now) implies ts[i as int]
                                < #[trigger] ts[j] by {
                                assert(sessions@.subrange(0, i as int)[j] == ss[j]);
                                assert(starts@.subrange(0, i as int)[j] == ts[j]);
                            }
                        }
                        best = Some(i);
                    } else {
                        assert(earliest_future(ss, ts, now, b as int)) by {
                            assert forall|j: int|
                                0 <= j < ss.len() && is_future(ss[j], ts[j], now) implies ts[b as int]
                                <= #[trigger] ts[j] by {
                                if j < i {
                                    assert(sessions@.subrange(0, i as int)[j] == ss[j]);
                                    assert(starts@.subrange(0, i as int)[j] == ts[j]);
                                }
                            }
                            assert forall|j: int|
                                0 <= j < b && is_future(ss[j], ts[j], now) implies ts[b as int]
                                < #[trigger] ts[j] by {
                                assert(sessions@.subrange(0, i as int)[j] == ss[j]);
                                assert(starts@.subrange(0, i as int)[j] == ts[j]);
                            }
                        }
                    }
                },
                None => {
                    assert(earliest_future(ss, ts, now, i as int));
                    best = Some(i);
                },
            }
        } else {
            match best {
                Some(b) => {
                    assert(earliest_future(ss, ts, now, b as int)) by {
                        assert forall|j: int|
                            0 <= j < ss.len() && is_future(ss[j], ts[j], now) implies ts[b as int]
                            <= #[trigger] ts[j] by {
                            if j < i {
                                assert(sessions@.subrange(0, i as int)[j] == ss[j]);
                                assert(starts@.subrange(0, i as int)[j] == ts[j]);
                            }
                        }
                        assert forall|j: int|
                            0 <= j < b && is_future(ss[j], ts[j], now) implies ts[b as int]
                            < #[trigger] ts[j] by {
                            assert(sessions@.subrange(0, i as int)[j] == ss[j]);
                            assert(starts@.subrange(0, i as int)[j] == ts[j]);
                        }
                    }
                },
                None => {},
            }
        }
        i = i + 1;
    }
    assert(sessions@.subrange(0, sessions@.len() as int) =~= sessions@);
    assert(starts@.subrange(0, starts@.len() as int) =~= starts@);
    if let Some(b) = best {
        assert forall|k: int| earliest_future(sessions@, starts@, now, k) implies k == b by {
            if k < b {
            } else if k > b {
            }
        }
        return CountdownTarget::NextSession {
            session_name: sessions[b].session_name.clone(),
            starts_at: starts[b],
        };
    }
    assert(!exists|k: int| earliest_future(sessions@, starts@, now, k));
    let mut k: usize = 0;
    while k < meetings.len()
        invariant
            k <= meetings@.len(),
            mstarts@.len() == meetings@.len(),
            mends@.len() == meetings@.len(),
            !exists|k: int| earliest_future(sessions@, starts@, now, k),
            forall|j: int|
                0 <= j < k ==> !meeting_live(#[trigger] meetings@[j], mstarts@[j], mends@[j], now),
        decreases meetings.len() - k,
    {
        if !meetings[k].is_cancelled && mstarts[k] <= now && now <= mends[k] {
            assert(meeting_live(meetings@[k as int], mstarts@[k as int], mends@[k as int], now));
            return CountdownTarget::SchedulePending;
        }
        k = k + 1;
    }
    CountdownTarget::SeasonComplete
}

/// Next session across the full season calendar (advances to the next meeting when the current
/// one has no future sessions left); `SchedulePending` while a meeting is on without further
/// sessions, `SeasonComplete` otherwise.
pub fn next_season_countdown(meetings: &Vec<Meeting>, sessions: &Vec<Session>, now: i64) -> (r:
    CountdownTarget)
    ensures
        countdown_of(meetings@, sessions@, now, r),
{
    let starts = session_starts(sessions);
    let mstarts = meeting_starts(meetings);
    let mends = meeting_ends(meetings);
    let r = countdown_target_at(meetings, &mstarts, &mends, sessions, &starts, now);
    assert(season_countdown(meetings@, mstarts@, mends@, sessions@, starts@, now, r));
    r
}

/// Countdown target within one meeting's schedule.
pub fn next_countdown(schedule: &SessionSchedule, now: i64) -> (r: CountdownTarget)
    ensures
        countdown_of(Seq::<Meeting>::empty(), schedule.sessions@, now, r),
{
    let none: Vec<Meeting> = Vec::new();
    let r = next_season_countdown(&none, &schedule.sessions, now);
    assert(none@ =~= Seq::<Meeting>::empty());
    r
}

// ---------------------------------------------------------------------------------------------
// Countdown clock
pub const MS_PER_SECOND: u64 = 1000;

pub const MS_PER_MINUTE: u64 = 60_000;

pub const MS_PER_HOUR: u64 = 3_600_000;

pub const MS_PER_DAY: u64 = 86_400_000;

/// Days, hours, minutes, seconds and milliseconds of a non-negative span of milliseconds.
pub open spec fn decomposed(total: u64) -> (u64, u64, u64, u64, u64) {
    (
        total / 86_400_000,
        (total / 3_600_000) % 24,
        (total / 60_000) % 60,
        (total / 1000) % 60,
        total % 1000,
    )
}

/// Splits a span into clock fields; the fields add back up to the span.
pub fn decompose_remaining(total_ms: u64) -> (r: (u64, u64, u64, u64, u64))
    ensures
        r == decomposed(total_ms),
        r.0 * 86_400_000 + r.1 * 3_600_000 + r.2 * 60_000 + r.3 * 1000 + r.4 == total_ms,
        r.1 < 24 && r.2 < 60 && r.3 < 60 && r.4 < 1000,
{
    let millis = total_ms % 1000;
    let total_secs = total_ms / 1000;
    let secs = total_secs % 60;
    let mins = (total_secs / 60) % 60;
    let hours = (total_secs / 3600) % 24;
    let days = total_secs / 86400;
    assert(total_secs / 60 == total_ms / 60_000) by (nonlinear_arith)
        requires
            total_secs == total_ms / 1000,
    ;
    assert(total_secs / 3600 == total_ms / 3_600_000) by (nonlinear_arith)
        requires
            total_secs == total_ms / 1000,
    ;
    assert(total_secs / 86400 == total_ms / 86_400_000) by (nonlinear_arith)
        requires
            total_secs == total_ms / 1000,
    ;
    assert(days * 86_400_000 + hours * 3_600_000 + mins * 60_000 + secs * 1000 + millis
        == total_ms) by (nonlinear_arith)
        requires
            millis == total_ms % 1000,
            total_secs == total_ms / 1000,
            secs == total_secs % 60,
            mins == (total_secs / 60) % 60,
            hours == (total_secs / 3600) % 24,
            days == total_secs / 86400,
    {
        assert(total_ms == total_secs * 1000 + millis);
        assert(total_secs == (total_secs / 60) * 60 + secs);
        assert(total_secs / 60 == (total_secs / 3600) * 60 + mins);
        assert(total_secs / 3600 == days * 24 + hours);
    }
    (days, hours, mins, secs, millis)
}

pub open spec fn segment_is(s: CountdownSegment, value: Seq<char>, label: Seq<char>) -> bool {
    s.value@ == value && s.label@ == label
}

/// The clock fields of `f`: days only when there is at least one.
pub open spec fn segments_are(r: Seq<CountdownSegment>, f: (u64, u64, u64, u64, u64)) -> bool {
    let (days, hours, mins, secs, millis) = f;
    let off: int = if days > 0 {
        1
    } else {
        0
    };
    &&& r.len() == 4 + off
    &&& days > 0 ==> segment_is(r[0], zero_pad(nat_digits(days as nat), 2), "DAYS"@)
    &&& segment_is(r[off], zero_pad(nat_digits(hours as nat), 2), "HRS"@)
    &&& segment_is(r[off + 1], zero_pad(nat_digits(mins as nat), 2), "MIN"@)
    &&& segment_is(r[off + 2], zero_pad(nat_digits(secs as nat), 2), "SEC"@)
    &&& segment_is(r[off + 3], zero_pad(nat_digits(millis as nat), 3), "MS"@)
}

fn segment(n: u64, width: usize, label: &'static str) -> (r: CountdownSegment)
    ensures
        segment_is(r, zero_pad(nat_digits(n as nat), width as nat), label@),
{
    let mut value = String::new();
    push_padded(&mut value, n, width);
    CountdownSegment { value, label }
}

fn build_countdown_segments(f: (u64, u64, u64, u64, u64)) -> (r: Vec<CountdownSegment>)
    ensures
        segments_are(r@, f),
{
    let (days, hours, mins, secs, millis) = f;
    let mut segments: Vec<CountdownSegment> = Vec::new();
    if days > 0 {
        segments.push(segment(days, 2, "DAYS"));
    }
    segments.push(segment(hours, 2, "HRS"));
    segments.push(segment(mins, 2, "MIN"));
    segments.push(segment(secs, 2, "SEC"));
    segments.push(segment(millis, 3, "MS"));
    segments
}

/// The clock at zero (`00:00:00.000`).
pub fn countdown_segments_zero() -> (r: Vec<CountdownSegment>)
    ensures
        segments_are(r@, (0, 0, 0, 0, 0)),
{
    build_countdown_segments((0, 0, 0, 0, 0))
}

/// The clock shown while the schedule is pending (`--:--:--.---`).
pub fn countdown_segments_pending() -> (r: Vec<CountdownSegment>)
    ensures
        r@.len() == 4,
        segment_is(r@[0], "--"@, "HRS"@),
        segment_is(r@[1], "--"@, "MIN"@),
        segment_is(r@[2], "--"@, "SEC"@),
        segment_is(r@[3], "---"@, "MS"@),
{
    let mut r: Vec<CountdownSegment> = Vec::new();
    r.push(CountdownSegment { value: new_text("--"), label: "HRS" });
    r.push(CountdownSegment { value: new_text("--"), label: "MIN" });
    r.push(CountdownSegment { value: new_text("--"), label: "SEC" });
    r.push(CountdownSegment { value: new_text("---"), label: "MS" });
    r
}

/// Clock fields of the time left from `now` to `target` (both in milliseconds); all zero once the
/// target has passed.
pub fn countdown_segments(now: i64, target: i64) -> (r: Vec<CountdownSegment>)
    ensures
        target <= now ==> segments_are(r@, (0, 0, 0, 0, 0)),
        target > now ==> segments_are(r@, decomposed((target - now) as u64)),
{
    if target <= now {
        return countdown_segments_zero();
    }
    let remaining = (target as i128 - now as i128) as u64;
    build_countdown_segments(decompose_remaining(remaining))
}

/// `DD:HH:MM:SS.mmm`-style text of the clock fields: all but the last joined by `:`, then `.`
/// and the last.
pub open spec fn joined_clock(segments: Seq<CountdownSegment>) -> Seq<char>
    decreases segments.len(),
{
    if segments.len() <= 1 {
        if segments.len() == 1 {
            segments[0].value@
        } else {
            "00:00:00.000"@
        }
    } else if segments.len() == 2 {
        segments[0].value@ + "."@ + segments[1].value@
    } else {
        segments[0].value@ + ":"@ + joined_clock(segments.drop_first())
    }
}

pub fn format_countdown_segments(segments: &Vec<CountdownSegment>) -> (r: String)
    ensures
        r@ == joined_clock(segments@),
    decreases segments@.len(),
{
    if segments.len() < 2 {
        if segments.len() == 1 {
            return segments[0].value.clone();
        }
        return new_text("00:00:00.000");
    }
    let n = segments.len();
    let mut text = String::new();
    let mut i: usize = n - 1;
    let mut suffix = new_text(".");
    append_text(&mut suffix, segments[n - 1].value.as_str());
    text = segments[n - 2].value.clone();
    append_text(&mut text, suffix.as_str());
    assert(text@ == joined_clock(segments@.subrange(n - 2, n as int))) by {
        assert(segments@.subrange(n - 2, n as int).len() == 2);
    }
    i = n - 2;
    while i > 0
        invariant
            n == segments@.len(),
            n >= 2,
            i <= n - 2,
            text@ == joined_clock(segments@.subrange(i as int, n as int)),
        decreases i,
    {
        let mut next = segments[i - 1].value.clone();
        append_text(&mut next, ":");
        append_text(&mut next, text.as_str());
        assert(segments@.subrange((i - 1) as int, n as int).drop_first() =~= segments@.subrange(
            i as int,
            n as int,
        ));
        text = next;
        i = i - 1;
    }
    assert(segments@.subrange(0, n as int) =~= segments@);
    text
}

/// F1-style countdown text with millisecond precision (`DD:HH:MM:SS.mmm` or `HH:MM:SS.mmm`).
pub fn format_countdown_precise(now: i64, target: i64) -> (r: String)
    ensures
        exists|segs: Seq<CountdownSegment>|
            #![trigger joined_clock(segs)]
            r@ == joined_clock(segs) && (target <= now ==> segments_are(segs, (0, 0, 0, 0, 0)))
                && (target > now ==> segments_are(segs, decomposed((target - now) as u64))),
{
    let segs = countdown_segments(now, target);
    format_countdown_segments(&segs)
}

pub fn format_countdown(now: i64, target: i64) -> (r: String)
    ensures
        exists|segs: Seq<CountdownSegment>|
            #![trigger joined_clock(segs)]
            r@ == joined_clock(segs) && (target <= now ==> segments_are(segs, (0, 0, 0, 0, 0)))
                && (target > now ==> segments_are(segs, decomposed((target - now) as u64))),
{
    format_countdown_precise(now, target)
}

} // verus!
