use f1_stalker::state::boot_sync::{
        finalize_boot_media_step, register_boot_media_batch, sync_boot_calendar,
        sync_boot_championship, sync_boot_drivers,
    };
use f1_stalker::state::bootstrap::{BootState, BootStepId, BootStepStatus};
use f1_stalker::state::load::{LoadState, Loaded};
use f1_stalker::db::settings::Settings;
use f1_stalker::domain::driver_picker::{DriverPickerFilters, DriverSortField, SortDirection};
use f1_stalker::state::view::SettingsToggle;

#[test]
fn switches_flip_one_flag_and_back() {
    let mut s = Settings::default();
    s.toggle(SettingsToggle::NotifySessions);
    assert!(s.notify_sessions);
    assert!(s.notifications_enabled);
    assert!(!s.include_testing);
    s.toggle(SettingsToggle::NotifySessions);
    assert!(!s.notify_sessions);
    s.toggle(SettingsToggle::IncludeTesting);
    s.toggle(SettingsToggle::BackgroundOnClose);
    s.toggle(SettingsToggle::NotificationsEnabled);
    s.toggle(SettingsToggle::NotifyStandings);
    assert!(s.include_testing && s.background_on_close);
    assert!(!s.notifications_enabled && !s.notify_standings);
}

#[test]
fn rival_compare_needs_two_different_drivers() {
    let mut s = Settings::default();
    s.activate_rival_compare();
    assert!(!s.rival_compare_active);
    s.select_rival(0, 1);
    s.select_rival(1, 44);
    s.activate_rival_compare();
    assert!(s.rival_compare_active);
    s.select_rival(1, 1);
    assert_eq!((s.rival_driver_first, s.rival_driver_second), (1, 1));
    assert!(!s.rival_compare_active);
    s.select_rival(7, 16);
    assert_eq!(s.rival_driver_second, 16);
    assert!(!s.rival_compare_active);
}

#[test]
fn picker_sort_field_flips_or_resets_direction() {
    let mut f = DriverPickerFilters::default();
    assert_eq!(f.sort_field, DriverSortField::LastName);
    f.choose_sort_field(DriverSortField::LastName);
    assert_eq!(f.sort_direction, SortDirection::Desc);
    f.choose_sort_field(DriverSortField::Code);
    assert_eq!((f.sort_field, f.sort_direction), (DriverSortField::Code, SortDirection::Asc));
    let grouped = f.group_by_constructor;
    f.toggle_grouping();
    assert_eq!(f.group_by_constructor, !grouped);
}

#[test]
fn boot_screen_follows_the_loads() {
    let mut boot = BootState::new();
    let status = |b: &BootState, id: BootStepId| {
        let s = b.steps.iter().find(|s| s.id == id).unwrap();
        (s.status, s.detail.clone())
    };
    sync_boot_calendar(&mut boot, &LoadState::Ready(Loaded { data: 1, stale: true }), true);
    assert_eq!(status(&boot, BootStepId::Calendar), (BootStepStatus::Running, "Refreshing cached calendar...".to_string()));
    sync_boot_calendar(&mut boot, &LoadState::Ready(Loaded { data: 1, stale: false }), false);
    assert_eq!(status(&boot, BootStepId::Calendar), (BootStepStatus::Done, "Loaded from cache".to_string()));
    sync_boot_drivers(&mut boot, &LoadState::<i32>::Error { message: "x".into(), cached: None }, false);
    assert_eq!(status(&boot, BootStepId::Drivers), (BootStepStatus::Failed, "Could not load drivers".to_string()));
    sync_boot_championship(&mut boot, &LoadState::<i32>::Loading, false, false);
    assert_eq!(status(&boot, BootStepId::Championship), (BootStepStatus::Running, "Waiting for calendar...".to_string()));
    sync_boot_championship(&mut boot, &LoadState::Ready(Loaded { data: 1, stale: false }), false, true);
    assert_eq!(status(&boot, BootStepId::Championship), (BootStepStatus::Done, "Up to date".to_string()));
    register_boot_media_batch(&mut boot, 2);
    register_boot_media_batch(&mut boot, 3);
    assert_eq!(boot.media_total, 5);
    assert_eq!(status(&boot, BootStepId::Media), (BootStepStatus::Running, "Downloading assets (0/5)".to_string()));
    let mut fresh = BootState::new();
    finalize_boot_media_step(&mut fresh);
    assert_eq!(status(&fresh, BootStepId::Media), (BootStepStatus::Done, "Nothing to download".to_string()));
}
