use picture_frame::catalog::DirEntry;
use picture_frame::controller::{DisplayController, TickPlan};
use picture_frame::settings::FrameSettings;
use picture_frame::watcher::{classify_change, ChangeKind};

fn entry(path: &str) -> DirEntry {
    DirEntry { path: path.to_string(), is_file: true }
}

fn three_images() -> Vec<DirEntry> {
    vec![entry("/data/a.jpg"), entry("/data/b.jpg"), entry("/data/c.jpg")]
}

fn settings(secs: u64, pin: Option<&str>) -> FrameSettings {
    FrameSettings {
        display_enabled: true,
        rotate_interval_secs: secs,
        shuffle: false,
        pinned_image: pin.map(|p| p.to_string()),
    }
}

/// Run one full tick at `now`, reporting whether a render happened and of
/// which index, the way the display loop would.
fn tick(c: &mut DisplayController, now: u64) -> Option<usize> {
    let plan = c.plan_tick();
    let shown = match plan {
        TickPlan::Show(i) => Some(i),
        TickPlan::KeepCurrent => None,
        TickPlan::Blank => None,
    };
    c.commit_tick(shown, now);
    shown
}

#[test]
fn rotation_walks_the_catalog_in_order() {
    let mut c = DisplayController::start(settings(5, None), &three_images(), 0);
    assert_eq!(c.state.current_index, 0);
    // after k ticks of the 3-image catalog the index is k mod 3
    assert_eq!(tick(&mut c, 5), Some(1));
    assert_eq!(tick(&mut c, 10), Some(2));
    assert_eq!(tick(&mut c, 15), Some(0));
    assert_eq!(tick(&mut c, 20), Some(1));
    assert_eq!(c.state.next_switch_deadline, 25);
}

#[test]
fn pin_overrides_rotation() {
    let mut c = DisplayController::start(settings(5, Some("b.jpg")), &three_images(), 0);
    assert_eq!(c.state.current_index, 1);
    for k in 0..4u64 {
        assert_eq!(tick(&mut c, k * 5), Some(1));
        assert_eq!(c.state.current_index, 1);
    }
}

#[test]
fn missing_pin_keeps_previous_index() {
    let mut c = DisplayController::start(settings(5, None), &three_images(), 0);
    assert_eq!(tick(&mut c, 5), Some(1));
    c.on_settings_changed(settings(5, Some("nowhere.jpg")), 6);
    let plan = c.plan_tick();
    assert!(matches!(plan, TickPlan::KeepCurrent));
    c.commit_tick(None, 6);
    assert_eq!(c.state.current_index, 1);
}

#[test]
fn failed_render_does_not_advance() {
    let mut c = DisplayController::start(settings(5, None), &three_images(), 0);
    let plan = c.plan_tick();
    assert!(matches!(plan, TickPlan::Show(1)));
    // the render of image 1 failed: commit without a shown index
    c.commit_tick(None, 5);
    assert_eq!(c.state.current_index, 0);
    // the next tick names the same image again
    assert!(matches!(c.plan_tick(), TickPlan::Show(1)));
}

#[test]
fn settings_change_resets_the_deadline() {
    let mut c = DisplayController::start(settings(3600, None), &three_images(), 0);
    c.commit_tick(None, 0);
    assert_eq!(c.state.next_switch_deadline, 3600);
    // a change arriving at t=10 takes effect now, not at t=3600
    c.on_settings_changed(settings(5, None), 10);
    assert_eq!(c.state.next_switch_deadline, 10);
    assert_eq!(c.settings.rotate_interval_secs, 5);
}

#[test]
fn unchanged_settings_value_is_ignored() {
    let mut c = DisplayController::start(settings(3600, None), &three_images(), 0);
    c.commit_tick(None, 0);
    c.on_settings_changed(settings(3600, None), 10);
    assert_eq!(c.state.next_switch_deadline, 3600);
}

#[test]
fn settings_file_reload_adopts_new_value() {
    let mut c = DisplayController::start(settings(10, None), &three_images(), 0);
    let text = "display_enabled = false\nrotate_interval_secs = 99\nshuffle = false\n";
    c.on_settings_file(text, 7);
    assert!(!c.settings.display_enabled);
    assert_eq!(c.settings.rotate_interval_secs, 99);
    assert_eq!(c.state.next_switch_deadline, 7);
}

#[test]
fn bad_settings_file_keeps_last_known_good() {
    let mut c = DisplayController::start(settings(10, None), &three_images(), 0);
    c.on_settings_file("rotate_interval_secs = banana\n", 7);
    assert!(c.settings.display_enabled);
    assert_eq!(c.settings.rotate_interval_secs, 10);
    assert_eq!(c.state.next_switch_deadline, 0);
}

#[test]
fn display_disabled_plans_blank() {
    let mut off = settings(5, None);
    off.display_enabled = false;
    let c = DisplayController::start(off, &three_images(), 0);
    assert!(matches!(c.plan_tick(), TickPlan::Blank));
}

#[test]
fn empty_catalog_plans_blank_and_never_renders() {
    let no_images = vec![
        DirEntry { path: "/data/readme.md".to_string(), is_file: true },
        DirEntry { path: "/data/sub.png".to_string(), is_file: false },
    ];
    let mut c = DisplayController::start(settings(5, None), &no_images, 0);
    assert!(c.catalog.is_empty());
    for k in 0..3u64 {
        let plan = c.plan_tick();
        assert!(matches!(plan, TickPlan::Blank));
        assert_eq!(tick(&mut c, k * 5), None);
    }
}

#[test]
fn rescan_rebuilds_catalog_and_follows_pin() {
    let mut c = DisplayController::start(settings(5, Some("b.jpg")), &three_images(), 0);
    assert_eq!(c.state.current_index, 1);
    let fewer = vec![entry("/data/b.jpg"), entry("/data/c.jpg")];
    let empty = c.on_images_changed(&fewer);
    assert!(!empty);
    assert_eq!(c.catalog.len(), 2);
    assert_eq!(c.state.current_index, 0);
}

#[test]
fn rescan_to_empty_reports_blank() {
    let mut c = DisplayController::start(settings(5, None), &three_images(), 0);
    let nothing: Vec<DirEntry> = Vec::new();
    let empty = c.on_images_changed(&nothing);
    assert!(empty);
    assert_eq!(c.state.current_index, 0);
}

#[test]
fn classify_prefers_settings_over_images() {
    let paths = vec![
        "/data/a.jpg".to_string(),
        "/config/settings.toml".to_string(),
    ];
    let kind = classify_change(&paths, "/config/settings.toml", "/data");
    assert!(matches!(kind, ChangeKind::Settings));
}

#[test]
fn classify_images_and_unrelated() {
    let imgs = vec!["/data/new.png".to_string()];
    assert!(matches!(
        classify_change(&imgs, "/config/settings.toml", "/data"),
        ChangeKind::Images
    ));
    let other = vec!["/tmp/elsewhere".to_string()];
    assert!(matches!(
        classify_change(&other, "/config/settings.toml", "/data"),
        ChangeKind::Unrelated
    ));
    let none: Vec<String> = Vec::new();
    assert!(matches!(
        classify_change(&none, "/config/settings.toml", "/data"),
        ChangeKind::Unrelated
    ));
}
