use vstd::prelude::*;

use crate::db::settings::Settings;
use crate::domain::calendar::{lead_in_range, next_session_reminder_at, reminder_is};
use crate::domain::championship::{driver_entry, find_driver_entry, ChampionshipRoundSnapshot, DriverStandingSnapshot};
use crate::domain::drivers::{
    display_name_text, driver_display_name, find_driver_index, roster_lookup, roster_match,
    PinnedDriver,
};
use crate::domain::narrative::{signature_text, standings_signature};
use crate::records::{Driver, Session};
use crate::state::view::SettingsToggle;
use crate::text::{append_text, i64_text, int_text, new_text, text_eq};

verus! {

// ---------------------------------------------------------------------------------------------
// Notification texts
/// A desktop notification: title and body.
#[derive(Debug, Clone)]
pub struct Notice {
    pub title: String,
    pub body: String,
}

pub open spec fn notice_view(n: Notice) -> (Seq<char>, Seq<char>) {
    (n.title@, n.body@)
}

pub open spec fn standings_change_text(name: Seq<char>, position: i64, points: i64) -> (Seq<char>, Seq<char>) {
    (
        "Championship update"@,
        name + " is now P"@ + int_text(position as int) + " with "@ + int_text(points as int)
            + " points"@,
    )
}

/// The notice that a pinned driver's standing changed.
pub fn standings_change_notice(driver_name: &str, position: i64, points: i64) -> (r: Notice)
    ensures
        notice_view(r) == standings_change_text(driver_name@, position, points),
{
    let mut body = new_text(driver_name);
    append_text(&mut body, " is now P");
    let p = i64_text(position);
    append_text(&mut body, p.as_str());
    append_text(&mut body, " with ");
    let q = i64_text(points);
    append_text(&mut body, q.as_str());
    append_text(&mut body, " points");
    Notice { title: new_text("Championship update"), body }
}

pub open spec fn session_reminder_text(session_name: Seq<char>, starts_in: Seq<char>) -> (Seq<char>, Seq<char>) {
    ("Upcoming session"@, session_name + " starts in "@ + starts_in)
}

/// The notice that a session is about to start.
pub fn session_reminder_notice(session_name: &str, starts_in: &str) -> (r: Notice)
    ensures
        notice_view(r) == session_reminder_text(session_name@, starts_in@),
{
    let mut body = new_text(session_name);
    append_text(&mut body, " starts in ");
    append_text(&mut body, starts_in);
    Notice { title: new_text("Upcoming session"), body }
}

// ---------------------------------------------------------------------------------------------
// Standings notifications
/// A pinned driver's standing to announce.
#[derive(Debug, Clone)]
pub struct StandingNotice {
    pub name: String,
    pub position: i64,
    pub points: i64,
}

pub type StandingNoticeView = (Seq<char>, i64, i64);

pub open spec fn standing_notice_views(v: Seq<StandingNotice>) -> Seq<StandingNoticeView> {
    v.map_values(|n: StandingNotice| (n.name@, n.position, n.points))
}

/// For each pin in order, the driver's name, position and points, when the latest standings
/// list the driver and the roster knows him.
pub open spec fn pin_notices(
    pins: Seq<PinnedDriver>,
    standings: Seq<DriverStandingSnapshot>,
    roster: Seq<Driver>,
) -> Seq<StandingNoticeView>
    decreases pins.len(),
{
    if pins.len() == 0 {
        seq![]
    } else {
        let rest = pin_notices(pins.drop_last(), standings, roster);
        let n = pins.last().driver_number;
        match driver_entry(standings, n) {
            Some(e) => match roster_lookup(roster, n) {
                Some(d) => rest.push((display_name_text(d), e.position, e.points)),
                None => rest,
            },
            None => rest,
        }
    }
}

pub open spec fn stored_view(stored: Option<&str>) -> Option<Seq<char>> {
    match stored {
        Some(s) => Some(s@),
        None => None,
    }
}

/// What to do about the latest standings: nothing when standings notifications are off, when
/// there is no round, or when these standings were announced already (same signature);
/// otherwise store the new signature and announce the pinned drivers' standings.
pub open spec fn standings_plan(
    settings: Settings,
    rounds: Seq<ChampionshipRoundSnapshot>,
    stored: Option<Seq<char>>,
    pins: Seq<PinnedDriver>,
    roster: Seq<Driver>,
) -> Option<(Seq<char>, Seq<StandingNoticeView>)> {
    if !settings.notifications_enabled || !settings.notify_standings || rounds.len() == 0 {
        None
    } else {
        let latest = rounds.last().drivers@;
        let sig = signature_text(latest);
        if stored == Some(sig) {
            None
        } else {
            Some((sig, pin_notices(pins, latest, roster)))
        }
    }
}

pub open spec fn standings_plan_view(r: Option<(String, Vec<StandingNotice>)>) -> Option<
    (Seq<char>, Seq<StandingNoticeView>),
> {
    match r {
        Some((s, v)) => Some((s@, standing_notice_views(v@))),
        None => None,
    }
}

pub fn standings_notification_plan(
    settings: &Settings,
    rounds: &Vec<ChampionshipRoundSnapshot>,
    stored_signature: Option<&str>,
    pins: &Vec<PinnedDriver>,
    roster: &Vec<Driver>,
) -> (r: Option<(String, Vec<StandingNotice>)>)
    ensures
        standings_plan_view(r) == standings_plan(
            *settings,
            rounds@,
            stored_view(stored_signature),
            pins@,
            roster@,
        ),
{
    if !settings.notifications_enabled || !settings.notify_standings || rounds.len() == 0 {
        return None;
    }
    let latest = &rounds[rounds.len() - 1];
    let signature = standings_signature(&latest.drivers);
    match stored_signature {
        Some(stored) => {
            if text_eq(stored, signature.as_str()) {
                return None;
            }
        },
        None => {},
    }
    let mut notices: Vec<StandingNotice> = Vec::new();
    let mut i: usize = 0;
    while i < pins.len()
        invariant
            i <= pins@.len(),
            standing_notice_views(notices@) == pin_notices(
                pins@.subrange(0, i as int),
                latest.drivers@,
                roster@,
            ),
        decreases pins.len() - i,
    {
        assert(pins@.subrange(0, (i + 1) as int).drop_last() =~= pins@.subrange(0, i as int));
        assert(pins@.subrange(0, (i + 1) as int).last() == pins@[i as int]);
        let n = pins[i].driver_number;
        if let Some(entry) = find_driver_entry(&latest.drivers, n) {
            if let Some(k) = find_driver_index(roster, n) {
                proof {
                    assert forall|x: int| roster_match(roster@, n, x) implies x == k by {
                        if x < k {
                        } else if x > k {
                            assert(roster@[k as int].driver_number == n);
                        }
                    }
                }
                let notice = StandingNotice {
                    name: new_text(driver_display_name(&roster[k])),
                    position: entry.position,
                    points: entry.points,
                };
                let ghost before = notices@;
                notices.push(notice);
                assert(standing_notice_views(notices@) =~= standing_notice_views(before).push(
                    (notice.name@, notice.position, notice.points),
                ));
            }
        }
        i = i + 1;
    }
    assert(pins@.subrange(0, pins@.len() as int) =~= pins@);
    Some((signature, notices))
}

// ---------------------------------------------------------------------------------------------
// Session reminders
/// A reminder to show: the signature to store, the session and the lead time.
#[derive(Debug, Clone)]
pub struct SessionReminder {
    pub signature: String,
    pub session_name: String,
    pub lead_minutes: i64,
}

pub open spec fn reminder_signature(session_name: Seq<char>, lead: i64) -> Seq<char> {
    session_name + ":"@ + int_text(lead as int)
}

/// Given the next reminder, what to do at `now`: nothing before the reminder time or when this
/// reminder (same session and lead) was shown already.
pub open spec fn reminder_plan_from(
    next: Option<(i64, String)>,
    now: i64,
    lead: i64,
    stored: Option<Seq<char>>,
) -> Option<(Seq<char>, Seq<char>, i64)> {
    match next {
        None => None,
        Some((at, name)) => if now < at {
            None
        } else {
            let sig = reminder_signature(name@, lead);
            if stored == Some(sig) {
                None
            } else {
                Some((sig, name@, lead))
            }
        },
    }
}

pub open spec fn reminder_view(r: Option<SessionReminder>) -> Option<(Seq<char>, Seq<char>, i64)> {
    match r {
        Some(x) => Some((x.signature@, x.session_name@, x.lead_minutes)),
        None => None,
    }
}

/// The reminder to show at `now`, if any: session reminders must be on, then see
/// `reminder_plan_from` for the next session (`next_session_reminder_at`).
pub open spec fn session_plan(
    settings: Settings,
    sessions: Seq<Session>,
    now: i64,
    stored: Option<Seq<char>>,
    r: Option<(Seq<char>, Seq<char>, i64)>,
) -> bool {
    if !settings.notifications_enabled || !settings.notify_sessions {
        r is None
    } else {
        exists|next: Option<(i64, String)>|
            #[trigger] reminder_is(sessions, now, settings.session_reminder_minutes, next) && r
                == reminder_plan_from(next, now, settings.session_reminder_minutes, stored)
    }
}

pub fn session_reminder_plan(
    settings: &Settings,
    sessions: &Vec<Session>,
    now: i64,
    stored: Option<&str>,
) -> (r: Option<SessionReminder>)
    requires
        settings.notifications_enabled && settings.notify_sessions ==> lead_in_range(
            settings.session_reminder_minutes,
        ),
    ensures
        session_plan(*settings, sessions@, now, stored_view(stored), reminder_view(r)),
{
    if !settings.notifications_enabled || !settings.notify_sessions {
        return None;
    }
    let lead = settings.session_reminder_minutes;
    let next = next_session_reminder_at(sessions, now, lead);
    let ghost g = next;
    let r = match next {
        None => None,
        Some((at, name)) => {
            if now < at {
                None
            } else {
                let mut signature = name.clone();
                append_text(&mut signature, ":");
                let digits = i64_text(lead);
                append_text(&mut signature, digits.as_str());
                let seen = match stored {
                    Some(s) => text_eq(s, signature.as_str()),
                    None => false,
                };
                if seen {
                    None
                } else {
                    Some(SessionReminder { signature, session_name: name, lead_minutes: lead })
                }
            }
        },
    };
    assert(reminder_is(sessions@, now, lead, g));
    r
}

// ---------------------------------------------------------------------------------------------
// When to fetch again
/// How a cached resource is shown when the app starts: the cache if there is one (stale when
/// not fresh), and a fetch unless the cache is fresh.
#[derive(Debug, Clone, Copy, PartialEq, Eq, Structural)]
pub struct CachedLoad {
    pub show_cached: bool,
    pub stale: bool,
    pub fetch: bool,
}

pub fn cached_load(cached: bool, fresh: bool) -> (r: CachedLoad)
    ensures
        r.show_cached == cached,
        r.stale == (cached && !fresh),
        r.fetch == (!cached || !fresh),
{
    if cached {
        CachedLoad { show_cached: true, stale: !fresh, fetch: !fresh }
    } else {
        CachedLoad { show_cached: false, stale: false, fetch: true }
    }
}

/// Whether the championship is fetched again: when asked to, when the cache is not fresh, or
/// when the cached rounds fall short of the completed races.
pub fn championship_refresh_needed(force: bool, fresh: bool, rounds_stale: bool) -> (r: bool)
    ensures
        r == (force || !fresh || rounds_stale),
{
    force || !fresh || rounds_stale
}

/// What the weekend panel does: whether it fetches, and how stale the shown data is.
#[derive(Debug, Clone, Copy, PartialEq, Eq, Structural)]
pub struct WeekendRefresh {
    /// Fetch the weekend's grid and weather.
    pub fetch: bool,
    /// Staleness for weekend data shown for the first time.
    pub stale_if_new: bool,
    /// Staleness for weekend data already on screen.
    pub stale_if_shown: bool,
}

/// The weekend is fetched when asked to, when the qualifying grid is stale, or when some
/// meeting's weather is no longer fresh. Data already on screen is marked stale by the weather,
/// the grid or a fetch that starts; data shown for the first time from the cache is marked stale
/// when no fetch follows, and again when one starts, so always.
pub fn weekend_refresh(force: bool, grid_stale: bool, weather_stale: bool, weather_needs: bool) -> (r:
    WeekendRefresh)
    ensures
        r.fetch == (force || grid_stale || weather_stale || weather_needs),
        r.stale_if_new,
        r.stale_if_shown == (r.fetch || weather_stale || grid_stale),
{
    let weather = force || weather_stale || weather_needs;
    let fetch = force || grid_stale || weather;
    let marked_new = !fetch;
    WeekendRefresh {
        fetch,
        stale_if_new: if fetch {
            true
        } else {
            marked_new
        },
        stale_if_shown: fetch || weather_stale || grid_stale,
    }
}

impl Settings {
    /// Two different drivers are chosen for the rival comparison.
    pub fn rival_ready(&self) -> (r: bool)
        ensures
            r == (self.rival_driver_first > 0 && self.rival_driver_second > 0
                && self.rival_driver_first != self.rival_driver_second),
    {
        self.rival_driver_first > 0 && self.rival_driver_second > 0 && self.rival_driver_first
            != self.rival_driver_second
    }

    /// The rival comparison is on and can be shown.
    pub fn rival_compare_active(&self) -> (r: bool)
        ensures
            r == (self.rival_compare_active && self.rival_driver_first > 0
                && self.rival_driver_second > 0 && self.rival_driver_first
                != self.rival_driver_second),
    {
        self.rival_compare_active && self.rival_ready()
    }
}

} // verus!

verus! {

/// A standings notification goes out once per standings: once the signature a plan gave is
/// stored, the plan for the same settings, rounds, pins and roster gives nothing.
pub proof fn law_standings_notified_once(
    settings: Settings,
    rounds: Seq<ChampionshipRoundSnapshot>,
    stored: Option<Seq<char>>,
    pins: Seq<PinnedDriver>,
    roster: Seq<Driver>,
)
    ensures
        standings_plan(settings, rounds, stored, pins, roster) matches Some((signature, _))
            ==> standings_plan(settings, rounds, Some(signature), pins, roster) is None,
{
}

/// A session reminder is shown once: once the signature a plan gave is stored, the plan for
/// the same next session and lead gives nothing, at any later instant.
pub proof fn law_reminder_shown_once(
    next: Option<(i64, String)>,
    now: i64,
    later: i64,
    lead: i64,
    stored: Option<Seq<char>>,
)
    ensures
        reminder_plan_from(next, now, lead, stored) matches Some((signature, _, _))
            ==> reminder_plan_from(next, later, lead, Some(signature)) is None,
{
}

} // verus!

verus! {

/// The flag a settings switch names.
pub open spec fn toggle_flag(s: Settings, t: SettingsToggle) -> bool {
    match t {
        SettingsToggle::IncludeTesting => s.include_testing,
        SettingsToggle::BackgroundOnClose => s.background_on_close,
        SettingsToggle::NotificationsEnabled => s.notifications_enabled,
        SettingsToggle::NotifyStandings => s.notify_standings,
        SettingsToggle::NotifySessions => s.notify_sessions,
    }
}

/// Everything but the five switchable flags is equal.
pub open spec fn same_but_flags(a: Settings, b: Settings) -> bool {
    &&& a.season_year == b.season_year
    &&& a.timezone == b.timezone
    &&& a.first_run_complete == b.first_run_complete
    &&& a.theme_id == b.theme_id
    &&& a.session_reminder_minutes == b.session_reminder_minutes
    &&& a.rival_driver_first == b.rival_driver_first
    &&& a.rival_driver_second == b.rival_driver_second
    &&& a.rival_compare_active == b.rival_compare_active
    &&& a.standings_tab == b.standings_tab
    &&& a.standings_mode == b.standings_mode
}

impl Settings {
    /// Flips the flag that a switch of the settings screen names; nothing else changes.
    pub fn toggle(&mut self, toggle: SettingsToggle)
        ensures
            toggle_flag(*final(self), toggle) == !toggle_flag(*old(self), toggle),
            forall|t: SettingsToggle| t != toggle ==> toggle_flag(*final(self), t) == toggle_flag(*old(self), t),
            same_but_flags(*final(self), *old(self)),
    {
        match toggle {
            SettingsToggle::IncludeTesting => self.include_testing = !self.include_testing,
            SettingsToggle::BackgroundOnClose => self.background_on_close = !self.background_on_close,
            SettingsToggle::NotificationsEnabled => self.notifications_enabled = !self.notifications_enabled,
            SettingsToggle::NotifyStandings => self.notify_standings = !self.notify_standings,
            SettingsToggle::NotifySessions => self.notify_sessions = !self.notify_sessions,
        }
    }

    /// Turns the rival comparison on when two different drivers are chosen; otherwise nothing
    /// changes.
    pub fn activate_rival_compare(&mut self)
        ensures
            *final(self) == (if old(self).rival_driver_first > 0 && old(self).rival_driver_second > 0
                && old(self).rival_driver_first != old(self).rival_driver_second {
                Settings { rival_compare_active: true, ..*old(self) }
            } else {
                *old(self)
            }),
    {
        if self.rival_ready() {
            self.rival_compare_active = true;
        }
    }

    /// Chooses a rival driver (slot 0 the first, any other slot the second); the comparison goes
    /// off unless two different drivers are chosen.
    pub fn select_rival(&mut self, slot: u8, driver_number: i64)
        ensures
            *final(self) == ({
                let first = if slot == 0 { driver_number } else { old(self).rival_driver_first };
                let second = if slot == 0 { old(self).rival_driver_second } else { driver_number };
                Settings {
                    rival_driver_first: first,
                    rival_driver_second: second,
                    rival_compare_active: old(self).rival_compare_active && first > 0 && second > 0
                        && first != second,
                    ..*old(self)
                }
            }),
    {
        if slot == 0 {
            self.rival_driver_first = driver_number;
        } else {
            self.rival_driver_second = driver_number;
        }
        if self.rival_driver_first == self.rival_driver_second && self.rival_driver_first > 0 {
            self.rival_compare_active = false;
        } else if !self.rival_ready() {
            self.rival_compare_active = false;
        }
    }
}

/// Flipping a switch twice gives back the settings as they were.
pub proof fn law_toggle_twice(s: Settings, once: Settings, twice: Settings, t: SettingsToggle)
    requires
        toggle_flag(once, t) == !toggle_flag(s, t),
        forall|u: SettingsToggle| u != t ==> toggle_flag(once, u) == toggle_flag(s, u),
        same_but_flags(once, s),
        toggle_flag(twice, t) == !toggle_flag(once, t),
        forall|u: SettingsToggle| u != t ==> toggle_flag(twice, u) == toggle_flag(once, u),
        same_but_flags(twice, once),
    ensures
        twice == s,
{
    assert(toggle_flag(twice, SettingsToggle::IncludeTesting) == toggle_flag(s, SettingsToggle::IncludeTesting));
    assert(toggle_flag(twice, SettingsToggle::BackgroundOnClose) == toggle_flag(s, SettingsToggle::BackgroundOnClose));
    assert(toggle_flag(twice, SettingsToggle::NotificationsEnabled) == toggle_flag(s, SettingsToggle::NotificationsEnabled));
    assert(toggle_flag(twice, SettingsToggle::NotifyStandings) == toggle_flag(s, SettingsToggle::NotifyStandings));
    assert(toggle_flag(twice, SettingsToggle::NotifySessions) == toggle_flag(s, SettingsToggle::NotifySessions));
}

} // verus!
