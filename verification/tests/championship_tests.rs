use f1_stalker::domain::championship::{
    build_championship_charts, classify_race_results, completed_race_sessions, constructor_code,
    round_axis_label, ChampionshipRoundSnapshot, DriverStandingSnapshot, PositionAxis,
    RaceResultInput, RaceResultSnapshot, TeamStandingSnapshot,
};
use f1_stalker::domain::drivers::PinnedDriver;
use f1_stalker::domain::grid::GridSlot;
use f1_stalker::domain::narrative::{
    build_championship_narrative, build_rival_narrative, build_season_complete_narrative,
    standings_signature,
};
use f1_stalker::domain::notifications::notification_already_sent;
use f1_stalker::domain::podium::podium_for_meeting;
use f1_stalker::domain::rival::quali_grid_positions;
use f1_stalker::domain::standings::{build_standings, PositionChange};
use f1_stalker::domain::championship::{ChampionshipTab, ChartMode};
use f1_stalker::records::{Driver, Meeting, Session};

fn at(text: &str) -> i64 {
    chrono::DateTime::parse_from_rfc3339(text).unwrap().timestamp_millis()
}

fn race_session(key: i64, start: &str, end: &str) -> Session {
    Session {
        circuit_key: 1,
        circuit_short_name: "Test".into(),
        country_code: "TST".into(),
        country_key: 1,
        country_name: "Testland".into(),
        date_end: end.into(),
        date_start: start.into(),
        gmt_offset: "00:00:00".into(),
        is_cancelled: false,
        location: "Test City".into(),
        meeting_key: key,
        session_key: key * 10,
        session_name: "Race".into(),
        session_type: "Race".into(),
        year: 2026,
    }
}

fn team_driver(number: i64, acronym: &str, team: &str, colour: &str) -> Driver {
    Driver {
        broadcast_name: acronym.into(),
        country_code: String::new(),
        driver_number: number,
        first_name: acronym.into(),
        full_name: format!("Driver {number}"),
        headshot_url: String::new(),
        last_name: acronym.into(),
        meeting_key: 1,
        name_acronym: acronym.into(),
        session_key: 1,
        team_colour: colour.into(),
        team_name: team.into(),
    }
}

fn results_for_round(entries: &[(i64, i64, i64, bool)]) -> Vec<RaceResultSnapshot> {
    let inputs: Vec<RaceResultInput> = entries
        .iter()
        .map(|(driver_number, position, points, dnf)| RaceResultInput {
            driver_number: *driver_number,
            position: Some(*position),
            number_of_laps: if *dnf { 40 } else { 57 },
            dnf: *dnf,
            dns: false,
            dsq: false,
            points: *points,
        })
        .collect();
    classify_race_results(&inputs)
}

fn standing(driver_number: i64, position: i64, points: i64, race_points: i64) -> DriverStandingSnapshot {
    DriverStandingSnapshot { driver_number, position, points, race_points }
}

fn team(name: &str, position: i64, points: i64, race_points: i64) -> TeamStandingSnapshot {
    TeamStandingSnapshot { team_name: name.into(), position, points, race_points }
}

fn round(n: u32, session_key: i64, meeting_key: i64, drivers: Vec<DriverStandingSnapshot>) -> ChampionshipRoundSnapshot {
    ChampionshipRoundSnapshot {
        round: n,
        session_key,
        meeting_key,
        drivers,
        teams: vec![],
        race_results: vec![],
        starting_grid: vec![],
    }
}

fn plain_meeting(key: i64, name: &str) -> Meeting {
    Meeting {
        circuit_image: String::new(),
        circuit_info_url: String::new(),
        circuit_key: 1,
        circuit_short_name: "Test".into(),
        circuit_type: "Permanent".into(),
        country_code: "TST".into(),
        country_flag: String::new(),
        country_key: 1,
        country_name: "Testland".into(),
        date_end: "2026-03-10T00:00:00Z".into(),
        date_start: "2026-03-08T00:00:00Z".into(),
        gmt_offset: "00:00:00".into(),
        is_cancelled: false,
        location: "Test City".into(),
        meeting_key: key,
        meeting_name: name.into(),
        meeting_official_name: name.into(),
        year: 2026,
    }
}

#[test]
fn completed_race_sessions_assign_round_numbers() {
    let now = at("2026-04-01T12:00:00Z");
    let sessions = vec![
        race_session(2, "2026-03-20T12:00:00Z", "2026-03-20T15:00:00Z"),
        race_session(1, "2026-03-06T12:00:00Z", "2026-03-06T15:00:00Z"),
        race_session(3, "2026-04-10T12:00:00Z", "2026-04-10T15:00:00Z"),
    ];
    let completed = completed_race_sessions(&sessions, now);
    assert_eq!(completed.len(), 2);
    assert_eq!(completed[0].0, 1);
    assert_eq!(completed[1].0, 2);
    assert_eq!(completed[0].1.meeting_key, 1);
}

#[test]
fn build_charts_for_pinned_drivers_and_top_constructors() {
    let rounds = vec![
        ChampionshipRoundSnapshot {
            round: 1,
            session_key: 10,
            meeting_key: 1,
            drivers: vec![standing(1, 2, 18, 18), standing(44, 1, 25, 25)],
            teams: vec![team("Red Bull Racing", 1, 43, 43), team("Ferrari", 2, 30, 30)],
            race_results: results_for_round(&[(1, 2, 18, false), (44, 1, 25, false)]),
            starting_grid: vec![],
        },
        ChampionshipRoundSnapshot {
            round: 2,
            session_key: 20,
            meeting_key: 2,
            drivers: vec![standing(1, 1, 43, 25), standing(44, 3, 33, 8)],
            teams: vec![team("Red Bull Racing", 1, 76, 33), team("Ferrari", 2, 55, 20)],
            race_results: results_for_round(&[(1, 1, 25, false), (44, 3, 8, false)]),
            starting_grid: vec![],
        },
    ];
    let pinned = vec![PinnedDriver { driver_number: 1, sort_order: 0 }];
    let roster = vec![
        team_driver(1, "VER", "Red Bull Racing", "3671C6"),
        team_driver(44, "HAM", "Ferrari", "E80020"),
    ];
    let charts = build_championship_charts(&rounds, &pinned, &roster, &vec![], &vec![], None);
    assert_eq!(charts.round_count, 2);
    assert_eq!(charts.round_labels, vec!["1", "2"]);
    assert_eq!(charts.driver_championship_axis, PositionAxis { min: 1, max: 2 });
    assert_eq!(charts.driver_championship_series.len(), 1);
    assert_eq!(charts.driver_championship_series[0].points.len(), 2);
    assert_eq!(charts.driver_race_series.len(), 1);
    assert_eq!(charts.driver_race_series[0].points.len(), 2);
    assert_eq!(charts.constructor_championship_series.len(), 1);
    assert_eq!(charts.constructor_championship_series[0].label, "Red Bull Racing");
    assert_eq!(charts.constructor_race_series.len(), 1);
}

#[test]
fn race_standing_uses_finish_position_and_team_race_rank() {
    let rounds = vec![ChampionshipRoundSnapshot {
        round: 1,
        session_key: 10,
        meeting_key: 1,
        drivers: vec![standing(1, 2, 18, 12)],
        teams: vec![team("Red Bull Racing", 1, 43, 25), team("Ferrari", 2, 30, 18)],
        race_results: results_for_round(&[(1, 4, 12, false)]),
        starting_grid: vec![],
    }];
    let pinned = vec![PinnedDriver { driver_number: 1, sort_order: 0 }];
    let roster = vec![team_driver(1, "VER", "Red Bull Racing", "3671C6")];
    let charts = build_championship_charts(&rounds, &pinned, &roster, &vec![], &vec![], None);
    assert_eq!(charts.driver_race_series[0].points[0].position, 4);
    assert_eq!(charts.constructor_race_series.len(), 1);
    assert_eq!(charts.constructor_race_series[0].points[0].position, 1);
}

#[test]
fn classify_race_results_assigns_positions_after_dnf() {
    let classified = classify_race_results(&vec![
        RaceResultInput { driver_number: 1, position: Some(1), number_of_laps: 57, dnf: false, dns: false, dsq: false, points: 25 },
        RaceResultInput { driver_number: 30, position: None, number_of_laps: 46, dnf: true, dns: false, dsq: false, points: 0 },
        RaceResultInput { driver_number: 5, position: None, number_of_laps: 45, dnf: true, dns: false, dsq: false, points: 0 },
    ]);
    let by_driver: std::collections::HashMap<_, _> = classified
        .iter()
        .map(|result| (result.driver_number, result.classified_position))
        .collect();
    assert_eq!(by_driver[&1], 1);
    assert_eq!(by_driver[&30], 2);
    assert_eq!(by_driver[&5], 3);
}

#[test]
fn classification_keeps_every_row_and_flags() {
    let rows = vec![
        RaceResultInput { driver_number: 7, position: None, number_of_laps: 0, dnf: false, dns: true, dsq: false, points: 0 },
        RaceResultInput { driver_number: 8, position: Some(2), number_of_laps: 57, dnf: false, dns: false, dsq: false, points: 18 },
        RaceResultInput { driver_number: 9, position: Some(1), number_of_laps: 57, dnf: false, dns: false, dsq: false, points: 25 },
    ];
    let classified = classify_race_results(&rows);
    assert_eq!(classified.len(), rows.len());
    assert_eq!(classified[0].driver_number, 9);
    assert_eq!(classified[1].driver_number, 8);
    assert_eq!(classified[2].driver_number, 7);
    assert_eq!(classified[2].classified_position, 3);
    assert!(classified[2].dns);
}

#[test]
fn round_axis_label_uses_gp_short_name() {
    let meeting = plain_meeting(1, "Australian Grand Prix");
    let session = race_session(1, "2026-03-06T12:00:00Z", "2026-03-06T15:00:00Z");
    assert_eq!(round_axis_label(Some(&meeting), Some(&session), 1), "Australian");
}

#[test]
fn round_axis_label_uses_sprint_name() {
    let meeting = plain_meeting(2, "Chinese Grand Prix");
    let mut session = race_session(2, "2026-03-20T12:00:00Z", "2026-03-20T15:00:00Z");
    session.session_name = "Sprint".into();
    assert_eq!(round_axis_label(Some(&meeting), Some(&session), 2), "Chinese Sprint");
}

#[test]
fn round_axis_label_falls_back_to_number() {
    assert_eq!(round_axis_label(None, None, 7), "7");
}

#[test]
fn constructor_code_takes_initials() {
    assert_eq!(constructor_code("Red Bull Racing"), "RBR");
    assert_eq!(constructor_code("  aston   martin "), "AM");
    assert_eq!(constructor_code(""), "");
}

#[test]
fn lists_all_drivers_by_championship_position() {
    let rounds = vec![round(1, 10, 1, vec![standing(44, 1, 25, 25), standing(1, 2, 18, 18)])];
    let roster = vec![
        team_driver(1, "VER", "Red Bull Racing", "3671C6"),
        team_driver(44, "HAM", "Ferrari", "E80020"),
    ];
    let rows = build_standings(&rounds, &roster, ChampionshipTab::Drivers, ChartMode::Championship);
    assert_eq!(rows.len(), 2);
    assert_eq!(rows[0].position, 1);
    assert_eq!(rows[0].code, "HAM");
    assert_eq!(rows[1].position, 2);
}

#[test]
fn championship_position_change_from_previous_round() {
    let rounds = vec![
        round(1, 10, 1, vec![standing(44, 2, 18, 18)]),
        round(2, 20, 2, vec![standing(44, 1, 43, 25)]),
    ];
    let roster = vec![team_driver(44, "HAM", "Ferrari", "E80020")];
    let rows = build_standings(&rounds, &roster, ChampionshipTab::Drivers, ChartMode::Championship);
    assert_eq!(rows[0].position_change, Some(PositionChange::Improved));
}

#[test]
fn race_position_change_from_starting_grid() {
    let rounds = vec![ChampionshipRoundSnapshot {
        round: 1,
        session_key: 10,
        meeting_key: 1,
        drivers: vec![],
        teams: vec![],
        starting_grid: vec![GridSlot { driver_number: 44, position: 5, gap_to_pole_ms: None }],
        race_results: vec![RaceResultSnapshot {
            driver_number: 44,
            classified_position: 2,
            dnf: false,
            dns: false,
            dsq: false,
            points: 18,
        }],
    }];
    let roster = vec![team_driver(44, "HAM", "Ferrari", "E80020")];
    let rows = build_standings(&rounds, &roster, ChampionshipTab::Drivers, ChartMode::RaceStanding);
    assert_eq!(rows[0].grid_position, Some(5));
    assert_eq!(rows[0].position_change, Some(PositionChange::Improved));
}

#[test]
fn standings_label_unknown_drivers_by_number_and_flag_retirements() {
    let rounds = vec![ChampionshipRoundSnapshot {
        round: 1,
        session_key: 10,
        meeting_key: 1,
        drivers: vec![],
        teams: vec![team("Ferrari", 2, 30, 0), team("McLaren", 1, 40, 12)],
        starting_grid: vec![],
        race_results: vec![RaceResultSnapshot {
            driver_number: 77,
            classified_position: 20,
            dnf: true,
            dns: false,
            dsq: false,
            points: 0,
        }],
    }];
    let rows = build_standings(&rounds, &vec![], ChampionshipTab::Drivers, ChartMode::RaceStanding);
    assert_eq!(rows[0].label, "#77");
    assert_eq!(rows[0].code, "#77");
    assert_eq!(rows[0].position_label, "DNF");
    assert_eq!(rows[0].position_change, None);
    let teams = build_standings(&rounds, &vec![], ChampionshipTab::Constructors, ChartMode::RaceStanding);
    assert_eq!(teams.len(), 1);
    assert_eq!(teams[0].label, "McLaren");
    assert_eq!(teams[0].position, 1);
    assert!(build_standings(&vec![], &vec![], ChampionshipTab::Drivers, ChartMode::Championship).is_empty());
}

#[test]
fn narrative_names_leader_and_gap() {
    let rounds = vec![round(1, 10, 1, vec![standing(1, 2, 18, 18), standing(44, 1, 25, 25)])];
    let roster = vec![team_driver(44, "HAM", "Ferrari", "E80020")];
    let n = build_championship_narrative(&rounds, &roster).unwrap();
    assert_eq!(n.headline, "HAM leads the championship");
    assert_eq!(n.detail, "P1 with 25 points · 7 ahead of #1");
    let single = build_championship_narrative(&vec![round(1, 10, 1, vec![standing(44, 1, 25, 25)])], &roster).unwrap();
    assert_eq!(single.detail, "25 points after 1 rounds");
    assert!(build_championship_narrative(&vec![round(1, 10, 1, vec![])], &roster).is_none());
}

#[test]
fn rival_narrative_compares_two_drivers() {
    let rounds = vec![
        round(1, 10, 1, vec![]),
        round(2, 20, 2, vec![standing(1, 2, 40, 18), standing(44, 1, 41, 25)]),
    ];
    let roster = vec![team_driver(1, "VER", "Red Bull Racing", "3671C6"), team_driver(44, "HAM", "Ferrari", "E80020")];
    let n = build_rival_narrative(&rounds, &roster, 1, 44).unwrap();
    assert_eq!(n.headline, "HAM vs VER");
    assert_eq!(n.detail, "HAM leads 41–40 · 1 point gap after 2 rounds");
    assert!(build_rival_narrative(&rounds, &roster, 1, 99).is_none());
}

#[test]
fn season_complete_narrative_crowns_leader() {
    let rounds = vec![round(1, 10, 1, vec![standing(1, 2, 18, 18), standing(44, 1, 25, 25)])];
    let n = build_season_complete_narrative(&rounds, &vec![]).unwrap();
    assert_eq!(n.headline, "World Champion: #44");
    assert_eq!(n.detail, "25 points · P1");
}

#[test]
fn standings_signature_orders_by_number() {
    let a = standings_signature(&vec![standing(44, 2, 18, 18), standing(1, 1, 25, 25)]);
    let b = standings_signature(&vec![standing(1, 1, 25, 25), standing(44, 2, 18, 18)]);
    assert_eq!(a, "1:1:25|44:2:18");
    assert_eq!(a, b);
    assert_eq!(standings_signature(&vec![]), "");
}

#[test]
fn skips_duplicate_standings_signature() {
    assert!(notification_already_sent(Some("ver:1:25|ham:2:18"), "ver:1:25|ham:2:18"));
}

#[test]
fn allows_new_standings_signature() {
    assert!(!notification_already_sent(Some("ver:1:25|ham:2:18"), "ver:1:25|ham:3:18"));
}

#[test]
fn allows_first_standings_notification() {
    assert!(!notification_already_sent(None, "ver:1:25"));
}

#[test]
fn returns_top_three_finishers() {
    let rounds = vec![ChampionshipRoundSnapshot {
        round: 1,
        session_key: 10,
        meeting_key: 42,
        drivers: vec![],
        teams: vec![],
        starting_grid: vec![],
        race_results: vec![
            RaceResultSnapshot { driver_number: 1, classified_position: 2, dnf: false, dns: false, dsq: false, points: 18 },
            RaceResultSnapshot { driver_number: 44, classified_position: 1, dnf: false, dns: false, dsq: false, points: 25 },
            RaceResultSnapshot { driver_number: 16, classified_position: 3, dnf: false, dns: false, dsq: false, points: 15 },
        ],
    }];
    let roster = vec![
        team_driver(1, "VER", "Team", "3671C6"),
        team_driver(44, "HAM", "Team", "E80020"),
        team_driver(16, "LEC", "Team", "ED1131"),
    ];
    let podium = podium_for_meeting(&rounds, 42, &roster);
    assert_eq!(podium.len(), 3);
    assert_eq!(podium[0].position, 1);
    assert_eq!(podium[0].code, "HAM");
    assert_eq!(podium[1].code, "VER");
    assert_eq!(podium[2].code, "LEC");
    assert!(podium_for_meeting(&rounds, 7, &roster).is_empty());
}

#[test]
fn grid_positions_across_rounds() {
    let mut first = round(1, 1, 1, vec![]);
    first.starting_grid = vec![GridSlot { driver_number: 44, position: 2, gap_to_pole_ms: None }];
    let mut second = round(2, 2, 2, vec![]);
    second.starting_grid = vec![GridSlot { driver_number: 44, position: 4, gap_to_pole_ms: None }];
    let third = round(3, 3, 3, vec![]);
    assert_eq!(quali_grid_positions(&vec![first, second, third], 44), vec![2, 4]);
}
