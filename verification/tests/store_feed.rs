use picture_frame::codec::parse_settings;
use picture_frame::settings::{FrameSettings, PartialSettings};
use picture_frame::store::{ChangeFeed, SettingsStore, StoredFile, Subscriber};

fn no_change() -> PartialSettings {
    PartialSettings {
        display_enabled: None,
        rotate_interval_secs: None,
        shuffle: None,
        pinned_image: None,
    }
}

#[test]
fn load_of_absent_file_writes_default() {
    let mut file = StoredFile::absent();
    let (store, _feed) = SettingsStore::load(&mut file).unwrap();
    assert!(store.get().same_as(&FrameSettings::default_settings()));
    let on_disk = file.read().expect("default must be persisted");
    let parsed = parse_settings(on_disk).unwrap();
    assert!(parsed.same_as(&FrameSettings::default_settings()));
}

#[test]
fn load_of_valid_file_uses_it() {
    let mut file = StoredFile::with_content(
        "display_enabled = false\nrotate_interval_secs = 30\nshuffle = true\n".to_string(),
    );
    let (store, _feed) = SettingsStore::load(&mut file).unwrap();
    let s = store.get();
    assert!(!s.display_enabled);
    assert_eq!(s.rotate_interval_secs, 30);
    assert!(s.shuffle);
}

#[test]
fn load_of_garbled_file_is_fatal() {
    let mut file = StoredFile::with_content("not a settings file".to_string());
    assert!(SettingsStore::load(&mut file).is_err());
    // and the file is left exactly as it was
    assert_eq!(file.read().map(|s| s.as_str()), Some("not a settings file"));
}

#[test]
fn update_persists_and_publishes() {
    let mut file = StoredFile::absent();
    let (mut store, mut feed) = SettingsStore::load(&mut file).unwrap();
    let mut patch = no_change();
    patch.rotate_interval_secs = Some(120);
    patch.pinned_image = Some(Some("hero.jpg".to_string()));
    let new = store.update(&mut file, &mut feed, &patch);
    assert_eq!(new.rotate_interval_secs, 120);
    assert_eq!(new.pinned_image.as_deref(), Some("hero.jpg"));
    // the canonical file now parses to exactly the new value
    let parsed = parse_settings(file.read().unwrap()).unwrap();
    assert!(parsed.same_as(&new));
    // and the feed carries it
    let sub = feed.subscribe();
    assert!(sub.get(&feed).same_as(&new));
}

#[test]
fn interrupted_write_leaves_canonical_value() {
    let mut file = StoredFile::absent();
    let (store, _feed) = SettingsStore::load(&mut file).unwrap();
    let before = store.get();
    // an update that dies after writing the temporary file, before the rename
    file.write_pending("display_enabled = false\nrotate_interval_secs = 1\nshuffle = true\n".to_string());
    let seen = parse_settings(file.read().unwrap()).unwrap();
    assert!(seen.same_as(&before));
}

#[test]
fn subscribers_coalesce_to_the_latest_value() {
    let mut file = StoredFile::absent();
    let (mut store, mut feed) = SettingsStore::load(&mut file).unwrap();
    let mut sub: Subscriber = feed.subscribe();
    assert!(sub.poll(&feed).is_none());
    let mut p1 = no_change();
    p1.rotate_interval_secs = Some(11);
    store.update(&mut file, &mut feed, &p1);
    let mut p2 = no_change();
    p2.rotate_interval_secs = Some(22);
    let last = store.update(&mut file, &mut feed, &p2);
    // the slow subscriber sees one value: the newest
    let got = sub.poll(&feed).expect("a change was published");
    assert_eq!(got.rotate_interval_secs, 22);
    assert!(got.same_as(&last));
    assert!(sub.poll(&feed).is_none());
}

#[test]
fn every_observer_converges_on_the_file() {
    let mut file = StoredFile::absent();
    let (mut store, mut feed) = SettingsStore::load(&mut file).unwrap();
    let mut sub_a = feed.subscribe();
    let mut sub_b = feed.subscribe();
    for secs in [5u64, 9, 13] {
        let mut p = no_change();
        p.rotate_interval_secs = Some(secs);
        store.update(&mut file, &mut feed, &p);
    }
    let on_disk = parse_settings(file.read().unwrap()).unwrap();
    let a = sub_a.poll(&feed).unwrap();
    let b = sub_b.poll(&feed).unwrap();
    assert!(a.same_as(&on_disk));
    assert!(b.same_as(&on_disk));
    assert!(store.get().same_as(&on_disk));
    assert_eq!(on_disk.rotate_interval_secs, 13);
}

#[test]
fn fresh_feed_subscription_sees_current_version() {
    let feed = ChangeFeed::new(FrameSettings::default_settings());
    let mut sub = feed.subscribe();
    assert!(sub.poll(&feed).is_none());
    assert!(sub.get(&feed).same_as(&FrameSettings::default_settings()));
}
