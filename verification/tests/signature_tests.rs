use f1_stalker::domain::championship::DriverStandingSnapshot;
use f1_stalker::domain::narrative::standings_signature;

fn entry(driver_number: i64, position: i64, points: i64) -> DriverStandingSnapshot {
    DriverStandingSnapshot { driver_number, position, points, race_points: 0 }
}

#[test]
fn signature_is_the_same_in_any_order() {
    let a = vec![entry(44, 2, 18), entry(1, 1, 25), entry(16, 3, 15)];
    let b = vec![entry(1, 1, 25), entry(16, 3, 15), entry(44, 2, 18)];
    assert_eq!(standings_signature(&a), "1:1:25|16:3:15|44:2:18");
    assert_eq!(standings_signature(&a), standings_signature(&b));
}

#[test]
fn signature_of_no_standings_is_empty() {
    assert_eq!(standings_signature(&Vec::new()), "");
}
