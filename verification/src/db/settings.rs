use vstd::prelude::*;

use crate::db::schema::{
    DEFAULT_THEME_ID, DEFAULT_TIMEZONE, SETTING_BACKGROUND_ON_CLOSE, SETTING_FIRST_RUN_COMPLETE,
    SETTING_INCLUDE_TESTING, SETTING_NOTIFICATIONS_ENABLED, SETTING_NOTIFY_SESSIONS,
    SETTING_NOTIFY_STANDINGS, SETTING_RIVAL_COMPARE_ACTIVE, SETTING_RIVAL_DRIVER_FIRST,
    SETTING_RIVAL_DRIVER_SECOND, SETTING_SEASON_YEAR, SETTING_SESSION_REMINDER_MINUTES,
    SETTING_THEME_ID, SETTING_TIMEZONE,
};
use crate::domain::championship::{ChampionshipTab, ChartMode};
use crate::text::{
    is_ascii_alnum, lemma_int_text_reads_back, ascii_lower, bool_string, bool_text, i64_text, int_text, new_text, parse_i32, parse_i64,
    parsed_i32, parsed_i64, trimmed, text_eq, to_ascii_lowercase, trim,
};

verus! {

/// The user's settings that the library works with. The theme is kept by the key of its preset
/// (`theme_id`); the palette itself belongs to the window.
#[derive(Debug, Clone)]
pub struct Settings {
    pub season_year: i32,
    pub timezone: String,
    pub first_run_complete: bool,
    pub theme_id: String,
    pub background_on_close: bool,
    pub include_testing: bool,
    pub notifications_enabled: bool,
    pub notify_standings: bool,
    pub notify_sessions: bool,
    pub session_reminder_minutes: i64,
    pub rival_driver_first: i64,
    pub rival_driver_second: i64,
    pub rival_compare_active: bool,
    pub standings_tab: ChampionshipTab,
    pub standings_mode: ChartMode,
}

impl Default for Settings {
    fn default() -> (r: Self)
        ensures
            r.season_year == 0,
            r.timezone@ == DEFAULT_TIMEZONE@,
            !r.first_run_complete,
            r.theme_id@ == DEFAULT_THEME_ID@,
            !r.background_on_close,
            !r.include_testing,
            r.notifications_enabled,
            r.notify_standings,
            !r.notify_sessions,
            r.session_reminder_minutes == 60,
            r.rival_driver_first == 0,
            r.rival_driver_second == 0,
            !r.rival_compare_active,
            r.standings_tab == ChampionshipTab::Drivers,
            r.standings_mode == ChartMode::Championship,
    {
        Settings {
            season_year: 0,
            timezone: new_text(DEFAULT_TIMEZONE),
            first_run_complete: false,
            theme_id: new_text(DEFAULT_THEME_ID),
            background_on_close: false,
            include_testing: false,
            notifications_enabled: true,
            notify_standings: true,
            notify_sessions: false,
            session_reminder_minutes: 60,
            rival_driver_first: 0,
            rival_driver_second: 0,
            rival_compare_active: false,
            standings_tab: ChampionshipTab::Drivers,
            standings_mode: ChartMode::Championship,
        }
    }
}

/// A stored flag is on when its trimmed, lowercased text is `1`, `true` or `yes`.
pub open spec fn flag_on(value: Seq<char>) -> bool {
    let v = ascii_lower(trimmed(value));
    v == "1"@ || v == "true"@ || v == "yes"@
}

pub fn parse_bool(value: &str) -> (r: bool)
    ensures
        r == flag_on(value@),
{
    let v = to_ascii_lowercase(trim(value));
    text_eq(v.as_str(), "1") || text_eq(v.as_str(), "true") || text_eq(v.as_str(), "yes")
}

/// Which setting a stored key names: 1 to 13 (13 the theme), 0 for any other key.
pub open spec fn slot_of(key: Seq<char>) -> int {
    if key == SETTING_SEASON_YEAR@ {
        1
    } else if key == SETTING_TIMEZONE@ {
        2
    } else if key == SETTING_FIRST_RUN_COMPLETE@ {
        3
    } else if key == SETTING_BACKGROUND_ON_CLOSE@ {
        4
    } else if key == SETTING_INCLUDE_TESTING@ {
        5
    } else if key == SETTING_NOTIFICATIONS_ENABLED@ {
        6
    } else if key == SETTING_NOTIFY_STANDINGS@ {
        7
    } else if key == SETTING_NOTIFY_SESSIONS@ {
        8
    } else if key == SETTING_SESSION_REMINDER_MINUTES@ {
        9
    } else if key == SETTING_RIVAL_DRIVER_FIRST@ {
        10
    } else if key == SETTING_RIVAL_DRIVER_SECOND@ {
        11
    } else if key == SETTING_RIVAL_COMPARE_ACTIVE@ {
        12
    } else if key == SETTING_THEME_ID@ {
        13
    } else {
        0
    }
}

fn setting_slot(key: &str) -> (r: u8)
    ensures
        r as int == slot_of(key@),
{
    if text_eq(key, SETTING_SEASON_YEAR) {
        1
    } else if text_eq(key, SETTING_TIMEZONE) {
        2
    } else if text_eq(key, SETTING_FIRST_RUN_COMPLETE) {
        3
    } else if text_eq(key, SETTING_BACKGROUND_ON_CLOSE) {
        4
    } else if text_eq(key, SETTING_INCLUDE_TESTING) {
        5
    } else if text_eq(key, SETTING_NOTIFICATIONS_ENABLED) {
        6
    } else if text_eq(key, SETTING_NOTIFY_STANDINGS) {
        7
    } else if text_eq(key, SETTING_NOTIFY_SESSIONS) {
        8
    } else if text_eq(key, SETTING_SESSION_REMINDER_MINUTES) {
        9
    } else if text_eq(key, SETTING_RIVAL_DRIVER_FIRST) {
        10
    } else if text_eq(key, SETTING_RIVAL_DRIVER_SECOND) {
        11
    } else if text_eq(key, SETTING_RIVAL_COMPARE_ACTIVE) {
        12
    } else if text_eq(key, SETTING_THEME_ID) {
        13
    } else {
        0
    }
}

/// A setting read back from the store: the field it names takes the stored value (numbers
/// only when they parse, the time zone only when not empty, the theme key as stored); other
/// fields stay.
pub open spec fn stored_into(old: Settings, key: Seq<char>, value: Seq<char>, new: Settings) -> bool {
    &&& new.season_year == (if slot_of(key) == 1 {
        match parsed_i32(value) {
            Some(y) => y,
            None => old.season_year,
        }
    } else {
        old.season_year
    })
    &&& new.timezone@ == (if slot_of(key) == 2 && value.len() > 0 {
        value
    } else {
        old.timezone@
    })
    &&& new.first_run_complete == (if slot_of(key) == 3 {
        flag_on(value)
    } else {
        old.first_run_complete
    })
    &&& new.theme_id@ == (if slot_of(key) == 13 {
        value
    } else {
        old.theme_id@
    })
    &&& new.background_on_close == (if slot_of(key) == 4 {
        flag_on(value)
    } else {
        old.background_on_close
    })
    &&& new.include_testing == (if slot_of(key) == 5 {
        flag_on(value)
    } else {
        old.include_testing
    })
    &&& new.notifications_enabled == (if slot_of(key) == 6 {
        flag_on(value)
    } else {
        old.notifications_enabled
    })
    &&& new.notify_standings == (if slot_of(key) == 7 {
        flag_on(value)
    } else {
        old.notify_standings
    })
    &&& new.notify_sessions == (if slot_of(key) == 8 {
        flag_on(value)
    } else {
        old.notify_sessions
    })
    &&& new.session_reminder_minutes == (if slot_of(key) == 9 {
        match parsed_i64(value) {
            Some(m) => m,
            None => old.session_reminder_minutes,
        }
    } else {
        old.session_reminder_minutes
    })
    &&& new.rival_driver_first == (if slot_of(key) == 10 {
        match parsed_i64(value) {
            Some(m) => m,
            None => old.rival_driver_first,
        }
    } else {
        old.rival_driver_first
    })
    &&& new.rival_driver_second == (if slot_of(key) == 11 {
        match parsed_i64(value) {
            Some(m) => m,
            None => old.rival_driver_second,
        }
    } else {
        old.rival_driver_second
    })
    &&& new.rival_compare_active == (if slot_of(key) == 12 {
        flag_on(value)
    } else {
        old.rival_compare_active
    })
    &&& new.standings_tab == old.standings_tab
    &&& new.standings_mode == old.standings_mode
}

/// The settings as stored: key and text of each, in the order they are written.
pub open spec fn stored_pairs_of(s: Settings) -> Seq<(Seq<char>, Seq<char>)> {
    seq![
        (SETTING_SEASON_YEAR@, int_text(s.season_year as int)),
        (SETTING_TIMEZONE@, s.timezone@),
        (SETTING_FIRST_RUN_COMPLETE@, bool_text(s.first_run_complete)),
        (SETTING_THEME_ID@, s.theme_id@),
        (SETTING_BACKGROUND_ON_CLOSE@, bool_text(s.background_on_close)),
        (SETTING_INCLUDE_TESTING@, bool_text(s.include_testing)),
        (SETTING_NOTIFICATIONS_ENABLED@, bool_text(s.notifications_enabled)),
        (SETTING_NOTIFY_STANDINGS@, bool_text(s.notify_standings)),
        (SETTING_NOTIFY_SESSIONS@, bool_text(s.notify_sessions)),
        (SETTING_SESSION_REMINDER_MINUTES@, int_text(s.session_reminder_minutes as int)),
        (SETTING_RIVAL_DRIVER_FIRST@, int_text(s.rival_driver_first as int)),
        (SETTING_RIVAL_DRIVER_SECOND@, int_text(s.rival_driver_second as int)),
        (SETTING_RIVAL_COMPARE_ACTIVE@, bool_text(s.rival_compare_active)),
    ]
}

proof fn lemma_setting_slots()
    ensures
        slot_of(SETTING_SEASON_YEAR@) == 1,
        slot_of(SETTING_TIMEZONE@) == 2,
        slot_of(SETTING_FIRST_RUN_COMPLETE@) == 3,
        slot_of(SETTING_BACKGROUND_ON_CLOSE@) == 4,
        slot_of(SETTING_INCLUDE_TESTING@) == 5,
        slot_of(SETTING_NOTIFICATIONS_ENABLED@) == 6,
        slot_of(SETTING_NOTIFY_STANDINGS@) == 7,
        slot_of(SETTING_NOTIFY_SESSIONS@) == 8,
        slot_of(SETTING_SESSION_REMINDER_MINUTES@) == 9,
        slot_of(SETTING_RIVAL_DRIVER_FIRST@) == 10,
        slot_of(SETTING_RIVAL_DRIVER_SECOND@) == 11,
        slot_of(SETTING_RIVAL_COMPARE_ACTIVE@) == 12,
        slot_of(SETTING_THEME_ID@) == 13,
{
    reveal_strlit("season_year");
    reveal_strlit("timezone");
    reveal_strlit("first_run_complete");
    reveal_strlit("background_on_close");
    reveal_strlit("include_testing");
    reveal_strlit("notifications_enabled");
    reveal_strlit("notify_standings");
    reveal_strlit("notify_sessions");
    reveal_strlit("session_reminder_minutes");
    reveal_strlit("rival_driver_first");
    reveal_strlit("rival_driver_second");
    reveal_strlit("rival_compare_active");
    reveal_strlit("theme_id");
    assert(slot_of(SETTING_SEASON_YEAR@) == 1) by {
    }
    assert(slot_of(SETTING_TIMEZONE@) == 2) by {
        assert(SETTING_TIMEZONE@.len() != SETTING_SEASON_YEAR@.len());
    }
    assert(slot_of(SETTING_FIRST_RUN_COMPLETE@) == 3) by {
        assert(SETTING_FIRST_RUN_COMPLETE@.len() != SETTING_SEASON_YEAR@.len());
        assert(SETTING_FIRST_RUN_COMPLETE@.len() != SETTING_TIMEZONE@.len());
    }
    assert(slot_of(SETTING_BACKGROUND_ON_CLOSE@) == 4) by {
        assert(SETTING_BACKGROUND_ON_CLOSE@.len() != SETTING_SEASON_YEAR@.len());
        assert(SETTING_BACKGROUND_ON_CLOSE@.len() != SETTING_TIMEZONE@.len());
        assert(SETTING_BACKGROUND_ON_CLOSE@.len() != SETTING_FIRST_RUN_COMPLETE@.len());
    }
    assert(slot_of(SETTING_INCLUDE_TESTING@) == 5) by {
        assert(SETTING_INCLUDE_TESTING@.len() != SETTING_SEASON_YEAR@.len());
        assert(SETTING_INCLUDE_TESTING@.len() != SETTING_TIMEZONE@.len());
        assert(SETTING_INCLUDE_TESTING@.len() != SETTING_FIRST_RUN_COMPLETE@.len());
        assert(SETTING_INCLUDE_TESTING@.len() != SETTING_BACKGROUND_ON_CLOSE@.len());
    }
    assert(slot_of(SETTING_NOTIFICATIONS_ENABLED@) == 6) by {
        assert(SETTING_NOTIFICATIONS_ENABLED@.len() != SETTING_SEASON_YEAR@.len());
        assert(SETTING_NOTIFICATIONS_ENABLED@.len() != SETTING_TIMEZONE@.len());
        assert(SETTING_NOTIFICATIONS_ENABLED@.len() != SETTING_FIRST_RUN_COMPLETE@.len());
        assert(SETTING_NOTIFICATIONS_ENABLED@.len() != SETTING_BACKGROUND_ON_CLOSE@.len());
        assert(SETTING_NOTIFICATIONS_ENABLED@.len() != SETTING_INCLUDE_TESTING@.len());
    }
    assert(slot_of(SETTING_NOTIFY_STANDINGS@) == 7) by {
        assert(SETTING_NOTIFY_STANDINGS@.len() != SETTING_SEASON_YEAR@.len());
        assert(SETTING_NOTIFY_STANDINGS@.len() != SETTING_TIMEZONE@.len());
        assert(SETTING_NOTIFY_STANDINGS@.len() != SETTING_FIRST_RUN_COMPLETE@.len());
        assert(SETTING_NOTIFY_STANDINGS@.len() != SETTING_BACKGROUND_ON_CLOSE@.len());
        assert(SETTING_NOTIFY_STANDINGS@.len() != SETTING_INCLUDE_TESTING@.len());
        assert(SETTING_NOTIFY_STANDINGS@.len() != SETTING_NOTIFICATIONS_ENABLED@.len());
    }
    assert(slot_of(SETTING_NOTIFY_SESSIONS@) == 8) by {
        assert(SETTING_NOTIFY_SESSIONS@.len() != SETTING_SEASON_YEAR@.len());
        assert(SETTING_NOTIFY_SESSIONS@.len() != SETTING_TIMEZONE@.len());
        assert(SETTING_NOTIFY_SESSIONS@.len() != SETTING_FIRST_RUN_COMPLETE@.len());
        assert(SETTING_NOTIFY_SESSIONS@.len() != SETTING_BACKGROUND_ON_CLOSE@.len());
        assert(SETTING_NOTIFY_SESSIONS@[0] != SETTING_INCLUDE_TESTING@[0]);
        assert(SETTING_NOTIFY_SESSIONS@.len() != SETTING_NOTIFICATIONS_ENABLED@.len());
        assert(SETTING_NOTIFY_SESSIONS@.len() != SETTING_NOTIFY_STANDINGS@.len());
    }
    assert(slot_of(SETTING_SESSION_REMINDER_MINUTES@) == 9) by {
        assert(SETTING_SESSION_REMINDER_MINUTES@.len() != SETTING_SEASON_YEAR@.len());
        assert(SETTING_SESSION_REMINDER_MINUTES@.len() != SETTING_TIMEZONE@.len());
        assert(SETTING_SESSION_REMINDER_MINUTES@.len() != SETTING_FIRST_RUN_COMPLETE@.len());
        assert(SETTING_SESSION_REMINDER_MINUTES@.len() != SETTING_BACKGROUND_ON_CLOSE@.len());
        assert(SETTING_SESSION_REMINDER_MINUTES@.len() != SETTING_INCLUDE_TESTING@.len());
        assert(SETTING_SESSION_REMINDER_MINUTES@.len() != SETTING_NOTIFICATIONS_ENABLED@.len());
        assert(SETTING_SESSION_REMINDER_MINUTES@.len() != SETTING_NOTIFY_STANDINGS@.len());
        assert(SETTING_SESSION_REMINDER_MINUTES@.len() != SETTING_NOTIFY_SESSIONS@.len());
    }
    assert(slot_of(SETTING_RIVAL_DRIVER_FIRST@) == 10) by {
        assert(SETTING_RIVAL_DRIVER_FIRST@.len() != SETTING_SEASON_YEAR@.len());
        assert(SETTING_RIVAL_DRIVER_FIRST@.len() != SETTING_TIMEZONE@.len());
        assert(SETTING_RIVAL_DRIVER_FIRST@[0] != SETTING_FIRST_RUN_COMPLETE@[0]);
        assert(SETTING_RIVAL_DRIVER_FIRST@.len() != SETTING_BACKGROUND_ON_CLOSE@.len());
        assert(SETTING_RIVAL_DRIVER_FIRST@.len() != SETTING_INCLUDE_TESTING@.len());
        assert(SETTING_RIVAL_DRIVER_FIRST@.len() != SETTING_NOTIFICATIONS_ENABLED@.len());
        assert(SETTING_RIVAL_DRIVER_FIRST@.len() != SETTING_NOTIFY_STANDINGS@.len());
        assert(SETTING_RIVAL_DRIVER_FIRST@.len() != SETTING_NOTIFY_SESSIONS@.len());
        assert(SETTING_RIVAL_DRIVER_FIRST@.len() != SETTING_SESSION_REMINDER_MINUTES@.len());
    }
    assert(slot_of(SETTING_RIVAL_DRIVER_SECOND@) == 11) by {
        assert(SETTING_RIVAL_DRIVER_SECOND@.len() != SETTING_SEASON_YEAR@.len());
        assert(SETTING_RIVAL_DRIVER_SECOND@.len() != SETTING_TIMEZONE@.len());
        assert(SETTING_RIVAL_DRIVER_SECOND@.len() != SETTING_FIRST_RUN_COMPLETE@.len());
        assert(SETTING_RIVAL_DRIVER_SECOND@[0] != SETTING_BACKGROUND_ON_CLOSE@[0]);
        assert(SETTING_RIVAL_DRIVER_SECOND@.len() != SETTING_INCLUDE_TESTING@.len());
        assert(SETTING_RIVAL_DRIVER_SECOND@.len() != SETTING_NOTIFICATIONS_ENABLED@.len());
        assert(SETTING_RIVAL_DRIVER_SECOND@.len() != SETTING_NOTIFY_STANDINGS@.len());
        assert(SETTING_RIVAL_DRIVER_SECOND@.len() != SETTING_NOTIFY_SESSIONS@.len());
        assert(SETTING_RIVAL_DRIVER_SECOND@.len() != SETTING_SESSION_REMINDER_MINUTES@.len());
        assert(SETTING_RIVAL_DRIVER_SECOND@.len() != SETTING_RIVAL_DRIVER_FIRST@.len());
    }
    assert(slot_of(SETTING_RIVAL_COMPARE_ACTIVE@) == 12) by {
        assert(SETTING_RIVAL_COMPARE_ACTIVE@.len() != SETTING_SEASON_YEAR@.len());
        assert(SETTING_RIVAL_COMPARE_ACTIVE@.len() != SETTING_TIMEZONE@.len());
        assert(SETTING_RIVAL_COMPARE_ACTIVE@.len() != SETTING_FIRST_RUN_COMPLETE@.len());
        assert(SETTING_RIVAL_COMPARE_ACTIVE@.len() != SETTING_BACKGROUND_ON_CLOSE@.len());
        assert(SETTING_RIVAL_COMPARE_ACTIVE@.len() != SETTING_INCLUDE_TESTING@.len());
        assert(SETTING_RIVAL_COMPARE_ACTIVE@.len() != SETTING_NOTIFICATIONS_ENABLED@.len());
        assert(SETTING_RIVAL_COMPARE_ACTIVE@.len() != SETTING_NOTIFY_STANDINGS@.len());
        assert(SETTING_RIVAL_COMPARE_ACTIVE@.len() != SETTING_NOTIFY_SESSIONS@.len());
        assert(SETTING_RIVAL_COMPARE_ACTIVE@.len() != SETTING_SESSION_REMINDER_MINUTES@.len());
        assert(SETTING_RIVAL_COMPARE_ACTIVE@.len() != SETTING_RIVAL_DRIVER_FIRST@.len());
        assert(SETTING_RIVAL_COMPARE_ACTIVE@.len() != SETTING_RIVAL_DRIVER_SECOND@.len());
    }
    assert(slot_of(SETTING_THEME_ID@) == 13) by {
        assert(SETTING_THEME_ID@.len() != SETTING_SEASON_YEAR@.len());
        assert(SETTING_THEME_ID@[1] != SETTING_TIMEZONE@[1]);
        assert(SETTING_THEME_ID@.len() != SETTING_FIRST_RUN_COMPLETE@.len());
        assert(SETTING_THEME_ID@.len() != SETTING_BACKGROUND_ON_CLOSE@.len());
        assert(SETTING_THEME_ID@.len() != SETTING_INCLUDE_TESTING@.len());
        assert(SETTING_THEME_ID@.len() != SETTING_NOTIFICATIONS_ENABLED@.len());
        assert(SETTING_THEME_ID@.len() != SETTING_NOTIFY_STANDINGS@.len());
        assert(SETTING_THEME_ID@.len() != SETTING_NOTIFY_SESSIONS@.len());
        assert(SETTING_THEME_ID@.len() != SETTING_SESSION_REMINDER_MINUTES@.len());
        assert(SETTING_THEME_ID@.len() != SETTING_RIVAL_DRIVER_FIRST@.len());
        assert(SETTING_THEME_ID@.len() != SETTING_RIVAL_DRIVER_SECOND@.len());
        assert(SETTING_THEME_ID@.len() != SETTING_RIVAL_COMPARE_ACTIVE@.len());
    }
}

/// A flag written as `true` or `false` reads back as itself.
proof fn lemma_flag_reads_back(b: bool)
    ensures
        flag_on(bool_text(b)) == b,
{
    reveal_strlit("true");
    reveal_strlit("false");
    reveal_strlit("1");
    reveal_strlit("yes");
    let t = bool_text(b);
    assert(is_ascii_alnum(t[0]) && is_ascii_alnum(t.last()));
    assert(trimmed(t) == t);
    assert(ascii_lower(t) =~= t);
    if !b {
        assert(t.len() == 5);
    }
}

/// Settings written to the store and read back, key by key in the order they were written,
/// come back as they were: every stored field, the theme key among them, takes its written
/// value (the time zone when it is not empty, since an empty one is not read back), and the
/// fields that are not stored (the standings tab and mode) keep what they held before.
pub proof fn law_settings_read_back(written: Settings, steps: Seq<Settings>)
    requires
        written.timezone@.len() > 0,
        steps.len() == 14,
        forall|i: int|
            0 <= i < 13 ==> stored_into(
                #[trigger] steps[i],
                stored_pairs_of(written)[i].0,
                stored_pairs_of(written)[i].1,
                steps[i + 1],
            ),
    ensures
        steps[13].season_year == written.season_year,
        steps[13].timezone@ == written.timezone@,
        steps[13].first_run_complete == written.first_run_complete,
        steps[13].theme_id@ == written.theme_id@,
        steps[13].background_on_close == written.background_on_close,
        steps[13].include_testing == written.include_testing,
        steps[13].notifications_enabled == written.notifications_enabled,
        steps[13].notify_standings == written.notify_standings,
        steps[13].notify_sessions == written.notify_sessions,
        steps[13].session_reminder_minutes == written.session_reminder_minutes,
        steps[13].rival_driver_first == written.rival_driver_first,
        steps[13].rival_driver_second == written.rival_driver_second,
        steps[13].rival_compare_active == written.rival_compare_active,
        steps[13].standings_tab == steps[0].standings_tab,
        steps[13].standings_mode == steps[0].standings_mode,
{
    lemma_setting_slots();
    lemma_int_text_reads_back(written.season_year as int);
    lemma_int_text_reads_back(written.session_reminder_minutes as int);
    lemma_int_text_reads_back(written.rival_driver_first as int);
    lemma_int_text_reads_back(written.rival_driver_second as int);
    lemma_flag_reads_back(written.first_run_complete);
    lemma_flag_reads_back(written.background_on_close);
    lemma_flag_reads_back(written.include_testing);
    lemma_flag_reads_back(written.notifications_enabled);
    lemma_flag_reads_back(written.notify_standings);
    lemma_flag_reads_back(written.notify_sessions);
    lemma_flag_reads_back(written.rival_compare_active);
    let p = stored_pairs_of(written);
    assert(stored_into(steps[0], p[0].0, p[0].1, steps[1]));
    assert(stored_into(steps[1], p[1].0, p[1].1, steps[2]));
    assert(stored_into(steps[2], p[2].0, p[2].1, steps[3]));
    assert(stored_into(steps[3], p[3].0, p[3].1, steps[4]));
    assert(stored_into(steps[4], p[4].0, p[4].1, steps[5]));
    assert(stored_into(steps[5], p[5].0, p[5].1, steps[6]));
    assert(stored_into(steps[6], p[6].0, p[6].1, steps[7]));
    assert(stored_into(steps[7], p[7].0, p[7].1, steps[8]));
    assert(stored_into(steps[8], p[8].0, p[8].1, steps[9]));
    assert(stored_into(steps[9], p[9].0, p[9].1, steps[10]));
    assert(stored_into(steps[10], p[10].0, p[10].1, steps[11]));
    assert(stored_into(steps[11], p[11].0, p[11].1, steps[12]));
    assert(stored_into(steps[12], p[12].0, p[12].1, steps[13]));
}

pub open spec fn pair_views(v: Seq<(&'static str, String)>) -> Seq<(Seq<char>, Seq<char>)> {
    v.map_values(|p: (&'static str, String)| (p.0@, p.1@))
}

impl Settings {
    /// The season the settings ask for, or `fallback` when none was chosen (0).
    pub fn effective_season(&self, fallback: i32) -> (r: i32)
        ensures
            r == if self.season_year == 0 {
                fallback
            } else {
                self.season_year
            },
    {
        if self.season_year == 0 {
            fallback
        } else {
            self.season_year
        }
    }

    /// Takes in one stored setting (see `stored_into`).
    pub fn apply_stored(&mut self, key: &str, value: &str)
        ensures
            stored_into(*old(self), key@, value@, *final(self)),
    {
        let slot = setting_slot(key);
        if slot == 1 {
            if let Some(year) = parse_i32(value) {
                self.season_year = year;
            }
        } else if slot == 2 {
            if value.unicode_len() > 0 {
                self.timezone = new_text(value);
            }
        } else if slot == 3 {
            self.first_run_complete = parse_bool(value);
        } else if slot == 4 {
            self.background_on_close = parse_bool(value);
        } else if slot == 5 {
            self.include_testing = parse_bool(value);
        } else if slot == 6 {
            self.notifications_enabled = parse_bool(value);
        } else if slot == 7 {
            self.notify_standings = parse_bool(value);
        } else if slot == 8 {
            self.notify_sessions = parse_bool(value);
        } else if slot == 9 {
            if let Some(minutes) = parse_i64(value) {
                self.session_reminder_minutes = minutes;
            }
        } else if slot == 10 {
            if let Some(number) = parse_i64(value) {
                self.rival_driver_first = number;
            }
        } else if slot == 11 {
            if let Some(number) = parse_i64(value) {
                self.rival_driver_second = number;
            }
        } else if slot == 12 {
            self.rival_compare_active = parse_bool(value);
        } else if slot == 13 {
            self.theme_id = new_text(value);
        }
    }

    /// The settings as they are written to the store (see `stored_pairs_of`).
    pub fn stored_pairs(&self) -> (r: Vec<(&'static str, String)>)
        ensures
            pair_views(r@) == stored_pairs_of(*self),
    {
        let mut r: Vec<(&'static str, String)> = Vec::new();
        r.push((SETTING_SEASON_YEAR, i64_text(self.season_year as i64)));
        r.push((SETTING_TIMEZONE, self.timezone.clone()));
        r.push((SETTING_FIRST_RUN_COMPLETE, bool_string(self.first_run_complete)));
        r.push((SETTING_THEME_ID, self.theme_id.clone()));
        r.push((SETTING_BACKGROUND_ON_CLOSE, bool_string(self.background_on_close)));
        r.push((SETTING_INCLUDE_TESTING, bool_string(self.include_testing)));
        r.push((SETTING_NOTIFICATIONS_ENABLED, bool_string(self.notifications_enabled)));
        r.push((SETTING_NOTIFY_STANDINGS, bool_string(self.notify_standings)));
        r.push((SETTING_NOTIFY_SESSIONS, bool_string(self.notify_sessions)));
        r.push((SETTING_SESSION_REMINDER_MINUTES, i64_text(self.session_reminder_minutes)));
        r.push((SETTING_RIVAL_DRIVER_FIRST, i64_text(self.rival_driver_first)));
        r.push((SETTING_RIVAL_DRIVER_SECOND, i64_text(self.rival_driver_second)));
        r.push((SETTING_RIVAL_COMPARE_ACTIVE, bool_string(self.rival_compare_active)));
        assert(pair_views(r@) =~= stored_pairs_of(*self));
        r
    }
}

} // verus!
