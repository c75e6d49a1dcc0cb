use picture_frame::catalog::{
    eligible_path, find_pinned_image_index, scan_entries, sort_paths, str_lex_le, DirEntry,
};
use picture_frame::controller::DisplayController;
use picture_frame::settings::FrameSettings;

fn entry(path: &str, is_file: bool) -> DirEntry {
    DirEntry { path: path.to_string(), is_file }
}

#[test]
fn eligible_accepts_both_formats_case_insensitively() {
    assert!(eligible_path("/data/a.jpg"));
    assert!(eligible_path("/data/b.PNG"));
    assert!(eligible_path("/data/c.JpG"));
    assert!(eligible_path("relative.png"));
}

#[test]
fn eligible_rejects_other_files() {
    assert!(!eligible_path("/data/notes.txt"));
    assert!(!eligible_path("/data/archive.jpeg"));
    assert!(!eligible_path("/data/noext"));
    assert!(!eligible_path("/data/.jpg"));
    assert!(!eligible_path("/data/trailingdot."));
    assert!(!eligible_path(""));
}

#[test]
fn eligible_uses_the_last_extension() {
    assert!(eligible_path("/data/a.tar.png"));
    assert!(!eligible_path("/data/a.png.txt"));
}

#[test]
fn scan_filters_and_sorts() {
    let entries = vec![
        entry("/data/zebra.jpg", true),
        entry("/data/subdir.png", false),
        entry("/data/apple.PNG", true),
        entry("/data/readme.md", true),
        entry("/data/mango.png", true),
    ];
    let catalog = scan_entries(&entries);
    assert_eq!(
        catalog,
        vec![
            "/data/apple.PNG".to_string(),
            "/data/mango.png".to_string(),
            "/data/zebra.jpg".to_string(),
        ]
    );
}

#[test]
fn scan_of_ineligible_listing_is_empty() {
    let entries = vec![
        entry("/data/readme.md", true),
        entry("/data/photos.png", false),
    ];
    assert!(scan_entries(&entries).is_empty());
}

#[test]
fn scan_is_stable_across_rescans() {
    let entries = vec![
        entry("/data/b.jpg", true),
        entry("/data/a.jpg", true),
        entry("/data/c.jpg", true),
    ];
    let first = scan_entries(&entries);
    let second = scan_entries(&entries);
    assert_eq!(first, second);
}

#[test]
fn lexical_order_on_strings() {
    assert!(str_lex_le("a", "b"));
    assert!(str_lex_le("a", "a"));
    assert!(str_lex_le("a", "ab"));
    assert!(!str_lex_le("ab", "a"));
    assert!(str_lex_le("A", "a"));
    assert!(!str_lex_le("b", "ab"));
}

#[test]
fn sort_paths_orders_lexically() {
    let v = vec!["pear".to_string(), "fig".to_string(), "apple".to_string()];
    let sorted = sort_paths(v);
    assert_eq!(
        sorted,
        vec!["apple".to_string(), "fig".to_string(), "pear".to_string()]
    );
}

#[test]
fn shuffle_keeps_the_same_images() {
    let entries: Vec<DirEntry> = (0..8)
        .map(|i| entry(&format!("/d/{i}.jpg"), true))
        .collect();
    let unshuffled = scan_entries(&entries);
    let shuffling = FrameSettings {
        display_enabled: true,
        rotate_interval_secs: 5,
        shuffle: true,
        pinned_image: None,
    };
    let c = DisplayController::start(shuffling, &entries, 0);
    assert_eq!(c.catalog.len(), unshuffled.len());
    let resorted = sort_paths(c.catalog);
    assert_eq!(resorted, unshuffled);
}

#[test]
fn pinned_index_is_first_match_on_file_name() {
    let images = vec![
        "/data/a.jpg".to_string(),
        "/data/pin.jpg".to_string(),
        "/other/pin.jpg".to_string(),
    ];
    assert_eq!(find_pinned_image_index(&images, "pin.jpg"), Some(1));
    assert_eq!(find_pinned_image_index(&images, "a.jpg"), Some(0));
    assert_eq!(find_pinned_image_index(&images, "missing.jpg"), None);
}

#[test]
fn pinned_index_compares_names_not_paths() {
    let images = vec!["/data/x/a.jpg".to_string()];
    assert_eq!(find_pinned_image_index(&images, "a.jpg"), Some(0));
    assert_eq!(find_pinned_image_index(&images, "/data/x/a.jpg"), None);
}
