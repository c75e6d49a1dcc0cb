use picture_frame::codec::{parse_settings, settings_to_text, ConfigError};
use picture_frame::dectext::u64_to_text;
use picture_frame::settings::{FrameSettings, PartialSettings, UnpinError};

fn plain(display: bool, secs: u64, shuffle: bool, pin: Option<&str>) -> FrameSettings {
    FrameSettings {
        display_enabled: display,
        rotate_interval_secs: secs,
        shuffle,
        pinned_image: pin.map(|p| p.to_string()),
    }
}

#[test]
fn serializes_default_exactly() {
    let s = FrameSettings::default_settings();
    let text = settings_to_text(&s);
    assert_eq!(
        text,
        "display_enabled = true\nrotate_interval_secs = 10\nshuffle = false\n"
    );
}

#[test]
fn serializes_pin_line_last() {
    let s = plain(false, 3, true, Some("a b.jpg"));
    let text = settings_to_text(&s);
    assert_eq!(
        text,
        "display_enabled = false\nrotate_interval_secs = 3\nshuffle = true\npinned_image = \"a b.jpg\"\n"
    );
}

#[test]
fn roundtrip_default() {
    let s = FrameSettings::default_settings();
    let back = parse_settings(&settings_to_text(&s)).unwrap();
    assert!(back.same_as(&s));
}

#[test]
fn roundtrip_with_pin_and_large_interval() {
    let s = plain(true, u64::MAX, true, Some("0b1a2c3d.png"));
    let back = parse_settings(&settings_to_text(&s)).unwrap();
    assert!(back.same_as(&s));
    assert_eq!(back.pinned_image.as_deref(), Some("0b1a2c3d.png"));
    assert_eq!(back.rotate_interval_secs, u64::MAX);
}

#[test]
fn roundtrip_empty_pin_name() {
    let s = plain(true, 1, false, Some(""));
    let back = parse_settings(&settings_to_text(&s)).unwrap();
    assert!(back.same_as(&s));
}

#[test]
fn parser_accepts_reordered_keys_comments_and_blanks() {
    let text = "# the frame\n\nshuffle = true\npinned_image = \"x.jpg\"\n\trotate_interval_secs\t=  7 \n display_enabled=false\n";
    let s = parse_settings(text).unwrap();
    assert!(!s.display_enabled);
    assert_eq!(s.rotate_interval_secs, 7);
    assert!(s.shuffle);
    assert_eq!(s.pinned_image.as_deref(), Some("x.jpg"));
}

#[test]
fn parser_accepts_missing_final_newline() {
    let s = parse_settings(
        "display_enabled = true\nrotate_interval_secs = 5\nshuffle = false",
    )
    .unwrap();
    assert_eq!(s.rotate_interval_secs, 5);
}

#[test]
fn parser_rejects_duplicate_key() {
    let text = "display_enabled = true\ndisplay_enabled = false\nrotate_interval_secs = 5\nshuffle = false\n";
    assert!(matches!(parse_settings(text), Err(ConfigError::Malformed)));
}

#[test]
fn parser_rejects_missing_key() {
    let text = "display_enabled = true\nshuffle = false\n";
    assert!(parse_settings(text).is_err());
}

#[test]
fn parser_rejects_unknown_key() {
    let text = "display_enabled = true\nrotate_interval_secs = 5\nshuffle = false\nbrightness = 3\n";
    assert!(parse_settings(text).is_err());
}

#[test]
fn parser_rejects_bad_number() {
    let text = "display_enabled = true\nrotate_interval_secs = ten\nshuffle = false\n";
    assert!(parse_settings(text).is_err());
    let huge = "display_enabled = true\nrotate_interval_secs = 18446744073709551616\nshuffle = false\n";
    assert!(parse_settings(huge).is_err());
}

#[test]
fn parser_rejects_unquoted_pin() {
    let text =
        "display_enabled = true\nrotate_interval_secs = 5\nshuffle = false\npinned_image = x.jpg\n";
    assert!(parse_settings(text).is_err());
}

#[test]
fn parser_rejects_line_without_equals() {
    assert!(parse_settings("display_enabled\n").is_err());
}

#[test]
fn decimal_text_is_canonical() {
    assert_eq!(u64_to_text(0), "0");
    assert_eq!(u64_to_text(10), "10");
    assert_eq!(u64_to_text(u64::MAX), "18446744073709551615");
}

#[test]
fn apply_partial_keeps_absent_fields() {
    let s = plain(true, 10, false, Some("keep.jpg"));
    let p = PartialSettings {
        display_enabled: None,
        rotate_interval_secs: Some(60),
        shuffle: None,
        pinned_image: None,
    };
    let out = s.apply_partial(&p);
    assert!(out.display_enabled);
    assert_eq!(out.rotate_interval_secs, 60);
    assert!(!out.shuffle);
    assert_eq!(out.pinned_image.as_deref(), Some("keep.jpg"));
}

#[test]
fn apply_partial_can_clear_pin() {
    let s = plain(true, 10, false, Some("old.jpg"));
    let p = PartialSettings {
        display_enabled: Some(false),
        rotate_interval_secs: None,
        shuffle: Some(true),
        pinned_image: Some(None),
    };
    let out = s.apply_partial(&p);
    assert!(!out.display_enabled);
    assert!(out.shuffle);
    assert!(out.pinned_image.is_none());
}

#[test]
fn unpin_when_unpinned_is_noop_success() {
    let s = plain(true, 10, false, None);
    let out = s.unpin("anything.jpg").unwrap();
    assert!(out.same_as(&s));
}

#[test]
fn unpin_of_other_image_is_rejected() {
    let s = plain(true, 10, false, Some("current.jpg"));
    assert!(matches!(
        s.unpin("other.jpg"),
        Err(UnpinError::NotPinnedImage)
    ));
}

#[test]
fn unpin_of_pinned_image_clears_pin() {
    let s = plain(true, 10, false, Some("current.jpg"));
    let out = s.unpin("current.jpg").unwrap();
    assert!(out.pinned_image.is_none());
}

#[test]
fn pin_twice_equals_pin_once() {
    let s = plain(true, 10, false, None);
    let once = s.pin("a.jpg");
    let twice = once.pin("a.jpg");
    assert!(once.same_as(&twice));
}

#[test]
fn unpin_if_deleted_only_clears_matching_pin() {
    let s = plain(true, 10, false, Some("gone.jpg"));
    let cleared = s.unpin_if_deleted("gone.jpg").unwrap();
    assert!(cleared.pinned_image.is_none());
    assert!(s.unpin_if_deleted("other.jpg").is_none());
    let unpinned = plain(true, 10, false, None);
    assert!(unpinned.unpin_if_deleted("gone.jpg").is_none());
}

#[test]
fn canonical_text_is_toml() {
    let s = plain(true, 42, false, Some("frame pic.jpg"));
    let text = settings_to_text(&s);
    let table: toml::Table = text.parse().unwrap();
    assert_eq!(table.get("display_enabled").unwrap().as_bool(), Some(true));
    assert_eq!(
        table.get("rotate_interval_secs").unwrap().as_integer(),
        Some(42)
    );
    assert_eq!(table.get("shuffle").unwrap().as_bool(), Some(false));
    assert_eq!(
        table.get("pinned_image").unwrap().as_str(),
        Some("frame pic.jpg")
    );
}
