use f1_stalker::domain::circuit_assets::{
    circuit_image_unavailable, circuit_image_url, is_circuit_image_url, prepare_circuit_image,
};
use f1_stalker::domain::driver_picker::{
    filter_roster, organize_roster, DriverPickerFilters, DriverSortField, SortDirection,
};
use f1_stalker::domain::grid::{
    build_grid_slots, find_gp_qualifying, format_gap_to_pole, format_grid_position,
    quali_grid_visibility, QualiGridVisibility,
};
use f1_stalker::domain::weather::{
    latest_weather_sample, location_query, most_recent_completed_session, WeatherStamp,
};
use f1_stalker::records::{Driver, Meeting, Session, StartingGrid};

fn at(text: &str) -> i64 {
    chrono::DateTime::parse_from_rfc3339(text).unwrap().timestamp_millis()
}

fn quali_session(meeting_key: i64, end: &str) -> Session {
    Session {
        circuit_key: 1,
        circuit_short_name: "Test".into(),
        country_code: "TST".into(),
        country_key: 1,
        country_name: "Testland".into(),
        date_end: end.into(),
        date_start: "2026-03-08T12:00:00Z".into(),
        gmt_offset: "00:00:00".into(),
        is_cancelled: false,
        location: "Test City".into(),
        meeting_key,
        session_key: 100,
        session_name: "Qualifying".into(),
        session_type: "Qualifying".into(),
        year: 2026,
    }
}

fn grid_row(driver_number: i64, position: i64, lap_ms: Option<i64>) -> StartingGrid {
    StartingGrid { driver_number, lap_duration_ms: lap_ms, meeting_key: 1, position, session_key: 100 }
}

fn venue(image: &str) -> Meeting {
    Meeting {
        circuit_image: image.into(),
        circuit_info_url: String::new(),
        circuit_key: 1,
        circuit_short_name: "Catalunya".into(),
        circuit_type: "Permanent".into(),
        country_code: "ESP".into(),
        country_flag: String::new(),
        country_key: 1,
        country_name: "Spain".into(),
        date_end: String::new(),
        date_start: String::new(),
        gmt_offset: String::new(),
        is_cancelled: false,
        location: "Barcelona".into(),
        meeting_key: 1,
        meeting_name: "Barcelona Grand Prix".into(),
        meeting_official_name: String::new(),
        year: 2026,
    }
}

fn picker_driver(number: i64, first: &str, last: &str, code: &str, team: &str) -> Driver {
    Driver {
        broadcast_name: format!("{first} {last}"),
        country_code: String::new(),
        driver_number: number,
        first_name: first.into(),
        full_name: format!("{first} {last}"),
        headshot_url: String::new(),
        last_name: last.into(),
        meeting_key: 1,
        name_acronym: code.into(),
        session_key: 1,
        team_colour: "FFFFFF".into(),
        team_name: team.into(),
    }
}

#[test]
fn ignores_sprint_qualifying() {
    let mut sprint = quali_session(1, "2026-03-08T14:00:00Z");
    sprint.session_name = "Sprint Qualifying".into();
    let sessions = vec![sprint];
    assert!(find_gp_qualifying(&sessions, 1).is_none());
}

#[test]
fn builds_gap_to_pole() {
    let grid = vec![grid_row(1, 1, Some(90_000)), grid_row(44, 2, Some(90_512))];
    let slots = build_grid_slots(&grid, &vec![44, 1]);
    assert_eq!(slots.len(), 2);
    assert_eq!(slots[0].position, 1);
    assert_eq!(slots[1].gap_to_pole_ms, Some(512));
    assert_eq!(slots[0].gap_to_pole_ms, None);
}

#[test]
fn grid_texts() {
    assert_eq!(format_grid_position(1), "Pole");
    assert_eq!(format_grid_position(7), "P7");
    assert_eq!(format_gap_to_pole(Some(512)).as_deref(), Some("+0.512s"));
    assert_eq!(format_gap_to_pole(Some(12_034)).as_deref(), Some("+12.034s"));
    assert_eq!(format_gap_to_pole(None), None);
}

#[test]
fn visibility_requires_pins_and_finished_quali() {
    let quali = quali_session(1, "2026-03-08T14:00:00Z");
    let now = at("2026-03-08T15:00:00Z");
    assert_eq!(quali_grid_visibility(false, Some(&quali), now, true), QualiGridVisibility::Hidden);
    assert_eq!(quali_grid_visibility(true, Some(&quali), now, false), QualiGridVisibility::Pending);
    assert_eq!(quali_grid_visibility(true, Some(&quali), now, true), QualiGridVisibility::Ready);
    assert_eq!(
        quali_grid_visibility(true, Some(&quali), at("2026-03-08T13:00:00Z"), true),
        QualiGridVisibility::Hidden
    );
}

#[test]
fn barcelona_catalunya_circuit_image_is_unavailable() {
    let url = "https://media.formula1.com/content/dam/fom-website/2018-redesign-assets/Track%20icons%204x3/Barcelona-Catalunya%20carbon.png";
    assert!(circuit_image_unavailable(url));
    assert!(circuit_image_url(&venue(url)).is_none());
}

#[test]
fn circuit_image_url_is_trimmed() {
    let url = "https://example.com/Track%20icons/Monza%20carbon.png";
    assert_eq!(circuit_image_url(&venue(&format!("  {url} "))), Some(url));
    assert!(circuit_image_url(&venue("   ")).is_none());
    assert!(is_circuit_image_url(url));
    assert!(!is_circuit_image_url("https://example.com/logo.png"));
}

#[test]
fn prepare_circuit_image_inverts_opaque_pixels() {
    let mut source = image::RgbaImage::from_pixel(2, 1, image::Rgba([10, 20, 30, 255]));
    source.put_pixel(1, 0, image::Rgba([0, 0, 0, 0]));
    let mut png = Vec::new();
    image::DynamicImage::ImageRgba8(source)
        .write_to(&mut std::io::Cursor::new(&mut png), image::ImageFormat::Png)
        .expect("encode png");
    let prepared = prepare_circuit_image(&png).expect("prepare circuit image");
    let prepared = image::load_from_memory(&prepared).expect("decode prepared png").to_rgba8();
    assert_eq!(prepared.dimensions(), (2, 1));
    assert_eq!(prepared.get_pixel(0, 0), &image::Rgba([245, 235, 225, 255]));
    assert_eq!(prepared.get_pixel(1, 0), &image::Rgba([0, 0, 0, 0]));
}

#[test]
fn prepare_circuit_image_rejects_garbage() {
    assert!(prepare_circuit_image(&vec![1, 2, 3]).is_err());
}

#[test]
fn search_matches_acronym_and_team() {
    let roster = vec![
        picker_driver(1, "Max", "Verstappen", "VER", "Red Bull Racing"),
        picker_driver(44, "Lewis", "Hamilton", "HAM", "Ferrari"),
    ];
    let filters = DriverPickerFilters { search: "fer".into(), ..Default::default() };
    let groups = organize_roster(&roster, &filters);
    assert_eq!(groups.len(), 1);
    assert_eq!(groups[0].drivers.len(), 1);
    assert_eq!(groups[0].drivers[0].driver_number, 44);
}

#[test]
fn groups_keep_team_sections() {
    let roster = vec![
        picker_driver(1, "Max", "Verstappen", "VER", "Red Bull Racing"),
        picker_driver(44, "Lewis", "Hamilton", "HAM", "Ferrari"),
        picker_driver(16, "Charles", "Leclerc", "LEC", "Ferrari"),
    ];
    let filters = DriverPickerFilters {
        group_by_constructor: true,
        sort_field: DriverSortField::LastName,
        ..Default::default()
    };
    let groups = organize_roster(&roster, &filters);
    assert_eq!(groups.len(), 2);
    assert_eq!(groups[0].team_name, "Ferrari");
    assert_eq!(groups[0].drivers[0].name_acronym, "HAM");
    assert_eq!(groups[1].team_name, "Red Bull Racing");
}

#[test]
fn constructor_sort_desc_reorders_groups() {
    let roster = vec![
        picker_driver(1, "Max", "Verstappen", "VER", "Red Bull Racing"),
        picker_driver(44, "Lewis", "Hamilton", "HAM", "Ferrari"),
    ];
    let filters = DriverPickerFilters {
        group_by_constructor: true,
        sort_field: DriverSortField::Constructor,
        sort_direction: SortDirection::Desc,
        ..Default::default()
    };
    let groups = organize_roster(&roster, &filters);
    assert_eq!(groups[0].team_name, "Red Bull Racing");
    assert_eq!(groups[1].team_name, "Ferrari");
}

#[test]
fn blank_search_keeps_everyone_sorted_descending() {
    let roster = vec![
        picker_driver(1, "Max", "Verstappen", "VER", "Red Bull Racing"),
        picker_driver(44, "Lewis", "Hamilton", "HAM", "Ferrari"),
        picker_driver(16, "Charles", "Leclerc", "LEC", "Ferrari"),
    ];
    assert_eq!(filter_roster(&roster, "   ").len(), 3);
    let filters = DriverPickerFilters { sort_direction: SortDirection::Desc, ..Default::default() };
    let groups = organize_roster(&roster, &filters);
    assert_eq!(groups.len(), 1);
    assert_eq!(groups[0].team_name, "");
    let order: Vec<i64> = groups[0].drivers.iter().map(|d| d.driver_number).collect();
    assert_eq!(order, vec![1, 16, 44]);
    assert_eq!(SortDirection::Asc.toggle(), SortDirection::Desc);
    assert_eq!(SortDirection::Desc.arrow(), "↓");
}

#[test]
fn builds_location_query() {
    let mut m = venue("");
    m.location = "Test City".into();
    m.country_name = "Testland".into();
    assert_eq!(location_query(&m), "Test City, Testland");
}

#[test]
fn latest_completed_session_of_the_meeting() {
    let mut practice = quali_session(7, "2026-03-07T11:00:00Z");
    practice.session_name = "Practice 3".into();
    let quali = quali_session(7, "2026-03-07T15:00:00Z");
    let mut race = quali_session(7, "2026-03-08T16:00:00Z");
    race.session_name = "Race".into();
    let mut other = quali_session(8, "2026-03-07T18:00:00Z");
    other.session_name = "Elsewhere".into();
    let sessions = vec![practice, quali, race, other];
    let picked = most_recent_completed_session(&sessions, 7, at("2026-03-07T20:00:00Z")).unwrap();
    assert_eq!(picked.session_name, "Qualifying");
    assert!(most_recent_completed_session(&sessions, 7, at("2026-03-01T00:00:00Z")).is_none());
}

#[test]
fn newest_weather_sample_of_the_session() {
    let samples = vec![
        WeatherStamp { session_key: 5, date: "2026-03-07T14:00:00Z".into() },
        WeatherStamp { session_key: 5, date: "2026-03-07T14:10:00Z".into() },
        WeatherStamp { session_key: 6, date: "2026-03-07T15:00:00Z".into() },
    ];
    assert_eq!(latest_weather_sample(5, &samples), Some(1));
    assert_eq!(latest_weather_sample(9, &samples), None);
}
