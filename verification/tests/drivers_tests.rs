use f1_stalker::domain::driver_assets::{
    driver_flag_iso2, driver_flag_url, team_logo_display_url, team_logo_url,
};
use f1_stalker::domain::drivers::{
    can_pin, driver_display_name, move_pin, pin_driver, pinned_driver_views, team_colour,
    unpin_all, unpin_driver, PinDirection, PinnedDriver, Rgb8,
};
use f1_stalker::records::Driver;

fn roster_driver(number: i64) -> Driver {
    Driver {
        broadcast_name: format!("D{number}"),
        country_code: "GB".into(),
        driver_number: number,
        first_name: "Test".into(),
        full_name: format!("Driver {number}"),
        headshot_url: String::new(),
        last_name: "Driver".into(),
        meeting_key: 1,
        name_acronym: format!("D{number}"),
        session_key: 1,
        team_colour: "FF0000".into(),
        team_name: "Team".into(),
    }
}

#[test]
fn pins_reject_duplicates() {
    let mut pins = Vec::new();
    assert!(pin_driver(&mut pins, 44));
    assert!(!pin_driver(&mut pins, 44));
    assert_eq!(pins.len(), 1);
}

#[test]
fn pins_allow_unlimited_drivers() {
    let mut pins = Vec::new();
    for number in 1..=20 {
        assert!(pin_driver(&mut pins, number as i64));
    }
    assert_eq!(pins.len(), 20);
}

#[test]
fn move_pin_swaps_neighbors() {
    let mut pins = vec![
        PinnedDriver { driver_number: 44, sort_order: 0 },
        PinnedDriver { driver_number: 16, sort_order: 1 },
    ];
    assert!(move_pin(&mut pins, 16, PinDirection::Left));
    assert_eq!(pins[0].driver_number, 16);
    assert_eq!(pins[1].driver_number, 44);
}

#[test]
fn pinned_views_follow_sort_order() {
    let pins = vec![
        PinnedDriver { driver_number: 16, sort_order: 0 },
        PinnedDriver { driver_number: 44, sort_order: 1 },
    ];
    let roster = vec![roster_driver(44), roster_driver(16)];
    let views = pinned_driver_views(&pins, &roster);
    assert_eq!(views.len(), 2);
    assert_eq!(views[0].driver.driver_number, 16);
    assert_eq!(views[1].driver.driver_number, 44);
}

#[test]
fn pin_then_unpin_restores_pins_and_reindexes() {
    let mut pins = Vec::new();
    assert!(pin_driver(&mut pins, 1));
    assert!(pin_driver(&mut pins, 44));
    assert!(pin_driver(&mut pins, 16));
    assert!(unpin_driver(&mut pins, 44));
    assert_eq!(pins, vec![
        PinnedDriver { driver_number: 1, sort_order: 0 },
        PinnedDriver { driver_number: 16, sort_order: 1 },
    ]);
    assert!(!unpin_driver(&mut pins, 44));
    assert!(can_pin(&pins, 44));
    assert!(!can_pin(&pins, 16));
}

#[test]
fn moving_a_pin_back_and_forth_restores_the_order() {
    let mut pins = Vec::new();
    for n in [1, 44, 16] {
        pin_driver(&mut pins, n);
    }
    let before = pins.clone();
    assert!(move_pin(&mut pins, 44, PinDirection::Right));
    assert!(move_pin(&mut pins, 44, PinDirection::Left));
    assert_eq!(pins, before);
    assert!(!move_pin(&mut pins, 1, PinDirection::Left));
    assert!(!move_pin(&mut pins, 16, PinDirection::Right));
    assert!(!move_pin(&mut pins, 99, PinDirection::Left));
}

#[test]
fn unpin_all_clears_only_when_something_is_pinned() {
    let mut pins = Vec::new();
    assert!(!unpin_all(&mut pins));
    pin_driver(&mut pins, 3);
    assert!(unpin_all(&mut pins));
    assert!(pins.is_empty());
}

#[test]
fn team_colour_reads_hex_and_falls_back() {
    assert_eq!(team_colour("#3671C6"), Some(Rgb8 { r: 0x36, g: 0x71, b: 0xC6 }));
    assert_eq!(team_colour("ZZ0000"), Some(Rgb8 { r: 128, g: 0, b: 0 }));
    assert_eq!(team_colour("123"), None);
}

#[test]
fn display_name_prefers_acronym() {
    let mut d = roster_driver(4);
    assert_eq!(driver_display_name(&d), "D4");
    d.name_acronym = String::new();
    assert_eq!(driver_display_name(&d), "Driver 4");
}

#[test]
fn maps_common_f1_country_codes() {
    assert_eq!(driver_flag_url("NED", 0, "").as_deref(), Some("https://flagcdn.com/h24/nl.png"));
    assert_eq!(driver_flag_url("GBR", 0, "").as_deref(), Some("https://flagcdn.com/h24/gb.png"));
    assert_eq!(driver_flag_url("gb", 0, "").as_deref(), Some("https://flagcdn.com/h24/gb.png"));
}

#[test]
fn falls_back_to_acronym_when_country_code_missing() {
    assert_eq!(driver_flag_url("", 3, "VER").as_deref(), Some("https://flagcdn.com/h24/nl.png"));
    assert_eq!(driver_flag_iso2("", 1, "NOR").as_deref(), Some("gb"));
}

#[test]
fn falls_back_to_driver_number_when_country_code_missing() {
    assert_eq!(driver_flag_url("", 44, "").as_deref(), Some("https://flagcdn.com/h24/gb.png"));
    assert_eq!(driver_flag_iso2("", 81, "").as_deref(), Some("au"));
}

#[test]
fn unknown_driver_has_no_flag() {
    assert_eq!(driver_flag_iso2("", 999, "XYZ"), None);
}

#[test]
fn maps_constructor_logos() {
    assert!(team_logo_url("Red Bull Racing").is_some());
    assert!(team_logo_url("Racing Bulls").is_some());
    assert!(team_logo_url("McLaren").is_some());
    assert!(team_logo_url("Unknown GP Team").is_none());
}

#[test]
fn distinguishes_red_bull_from_racing_bulls() {
    let bulls = team_logo_url("Red Bull Racing").unwrap();
    let rb = team_logo_url("Racing Bulls").unwrap();
    assert!(bulls.contains("red%20bull"));
    assert!(bulls.contains("c_fit"));
    assert!(!bulls.contains("c_lfill"));
    assert!(rb.contains("/rb"));
}

#[test]
fn display_logo_uses_wide_fit_bounds() {
    let url = team_logo_display_url("Ferrari").unwrap();
    assert!(url.contains("c_fit"));
    assert!(url.contains("w_480"));
    assert!(url.contains("h_192"));
}
