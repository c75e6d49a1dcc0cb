//! The durable settings store and its change feed.
//!
//! Persistence follows the write-to-temporary-then-rename pattern: the new
//! text first becomes the pending file, and only the rename makes it
//! canonical.  `StoredFile` models the two paths involved, so the protocol
//! and its atomicity are stated and proved here; the process edge that
//! holds real file handles performs the same two steps.
//!
//! The change feed is a latest-value slot: every successful update
//! publishes the whole new record, subscribers only ever observe the most
//! recent one, and a slow subscriber never holds a writer up.

use vstd::prelude::*;

use crate::codec::{
    parse_settings, settings_text, settings_to_text, spec_parse, ConfigError,
    lemma_settings_round_trip,
};
use crate::settings::{FrameSettings, PartialSettings, SettingsV, spec_apply_partial,
    spec_default_settings};

verus! {

/// Abstract value of the two on-disk paths of the store.
pub ghost struct StoredFileV {
    pub canonical: Option<Seq<char>>,
    pub pending: Option<Seq<char>>,
}

/// The settings file and its temporary sibling, as text.
pub struct StoredFile {
    pub canonical: Option<String>,
    pub pending: Option<String>,
}

impl View for StoredFile {
    type V = StoredFileV;

    open spec fn view(&self) -> StoredFileV {
        StoredFileV {
            canonical: match self.canonical {
                Some(ref s) => Some(s@),
                None => None,
            },
            pending: match self.pending {
                Some(ref s) => Some(s@),
                None => None,
            },
        }
    }
}

/// The file after the write step: the new text waits beside the canonical
/// file, which is untouched.
pub open spec fn spec_write_pending(f: StoredFileV, text: Seq<char>) -> StoredFileV {
    StoredFileV { canonical: f.canonical, pending: Some(text) }
}

/// The file after the rename step: the pending text becomes canonical in
/// one move.
pub open spec fn spec_commit_rename(f: StoredFileV) -> StoredFileV {
    StoredFileV { canonical: f.pending, pending: None }
}

impl StoredFile {
    /// The state before any settings file exists.
    pub fn absent() -> (r: StoredFile)
        ensures
            r@.canonical is None,
            r@.pending is None,
    {
        StoredFile { canonical: None, pending: None }
    }

    /// The state of an existing settings file holding `text`.
    pub fn with_content(text: String) -> (r: StoredFile)
        ensures
            r@.canonical == Some(text@),
            r@.pending is None,
    {
        StoredFile { canonical: Some(text), pending: None }
    }

    /// The write step: put the new text beside the canonical file.
    pub fn write_pending(&mut self, text: String)
        ensures
            final(self)@ == spec_write_pending(old(self)@, text@),
    {
        self.pending = Some(text);
    }

    /// The rename step: promote the pending text in one move.
    pub fn commit_rename(&mut self)
        requires
            old(self)@.pending is Some,
        ensures
            final(self)@ == spec_commit_rename(old(self)@),
    {
        self.canonical = self.pending.take();
    }

    /// What a reader of the canonical path sees.
    pub fn read(&self) -> (r: Option<&String>)
        ensures
            match r {
                Some(s) => self@.canonical == Some(s@),
                None => self@.canonical is None,
            },
    {
        self.canonical.as_ref()
    }
}

/// Atomicity of an update: interrupted after the write step but before the
/// rename, the canonical file — and so what any subsequent load parses —
/// is exactly what it was before the update began.
pub proof fn lemma_interrupted_update_atomic(f: StoredFileV, text: Seq<char>)
    ensures
        spec_write_pending(f, text).canonical == f.canonical,
{
}

/// Abstract value of the change feed.
pub ghost struct FeedV {
    pub latest: SettingsV,
    pub version: u64,
}

/// The latest-value fan-out: holds the most recent published record and a
/// version counter; it never queues.
pub struct ChangeFeed {
    pub latest: FrameSettings,
    pub version: u64,
}

impl View for ChangeFeed {
    type V = FeedV;

    open spec fn view(&self) -> FeedV {
        FeedV { latest: self.latest@, version: self.version }
    }
}

/// One subscriber's handle: remembers the last version it observed.
pub struct Subscriber {
    pub seen: u64,
}

impl ChangeFeed {
    /// A feed whose latest value is the initial record.
    pub fn new(initial: FrameSettings) -> (r: ChangeFeed)
        ensures
            r@.latest == initial@,
            r@.version == 0,
    {
        ChangeFeed { latest: initial, version: 0 }
    }

    /// Publish a new record: it replaces the previous one outright, so
    /// subscribers that fell behind observe only this newest value.
    pub fn publish(&mut self, value: FrameSettings)
        ensures
            final(self)@.latest == value@,
            final(self)@.version == crate::controller::sat_add(old(self)@.version, 1),
    {
        self.latest = value;
        self.version = self.version.saturating_add(1);
    }

    /// A handle that has observed the current version.
    pub fn subscribe(&self) -> (r: Subscriber)
        ensures
            r.seen == self@.version,
    {
        Subscriber { seen: self.version }
    }
}

impl Subscriber {
    /// The newest value, if anything was published since the last poll;
    /// intermediate values are never replayed.
    pub fn poll(&mut self, feed: &ChangeFeed) -> (r: Option<FrameSettings>)
        ensures
            final(self).seen == feed@.version,
            match r {
                Some(v) => old(self).seen != feed@.version && v@ == feed@.latest,
                None => old(self).seen == feed@.version,
            },
    {
        if self.seen != feed.version {
            self.seen = feed.version;
            Some(feed.latest.clone())
        } else {
            None
        }
    }

    /// The current value: always the most recently published record.
    pub fn get(&self, feed: &ChangeFeed) -> (r: FrameSettings)
        ensures
            r@ == feed@.latest,
    {
        feed.latest.clone()
    }
}

/// The single source of truth for the persisted record.
pub struct SettingsStore {
    pub value: FrameSettings,
}

/// The store, its file, and its feed agree: the canonical file holds the
/// serialized store value and the feed's latest value is the store value.
pub open spec fn store_consistent(store: SettingsV, file: StoredFileV, feed: FeedV) -> bool {
    &&& file.canonical == Some(settings_text(store))
    &&& feed.latest == store
}

impl SettingsStore {
    /// Load the store from the settings file.  An existing file that does
    /// not parse is a fatal configuration error and nothing is touched; an
    /// absent file is created holding the default record.
    pub fn load(file: &mut StoredFile) -> (r: Result<(SettingsStore, ChangeFeed), ConfigError>)
        ensures
            match old(file)@.canonical {
                Some(text) => {
                    &&& final(file)@ == old(file)@
                    &&& match spec_parse(text) {
                        Some(v) => r is Ok && r->Ok_0.0.value@ == v,
                        None => r is Err,
                    }
                },
                None => {
                    &&& r is Ok
                    &&& r->Ok_0.0.value@ == spec_default_settings()
                    &&& final(file)@.canonical == Some(
                        settings_text(spec_default_settings()),
                    )
                },
            },
            r is Ok ==> r->Ok_0.1@.latest == r->Ok_0.0.value@,
    {
        match file.read() {
            Some(text) => {
                let parsed = parse_settings(text.as_str());
                match parsed {
                    Ok(v) => {
                        let feed = ChangeFeed::new(v.clone());
                        Ok((SettingsStore { value: v }, feed))
                    },
                    Err(e) => Err(e),
                }
            },
            None => {
                let v = FrameSettings::default_settings();
                let text = settings_to_text(&v);
                file.write_pending(text);
                file.commit_rename();
                let feed = ChangeFeed::new(v.clone());
                Ok((SettingsStore { value: v }, feed))
            },
        }
    }

    /// A snapshot of the current record.
    pub fn get(&self) -> (r: FrameSettings)
        ensures
            r@ == self.value@,
    {
        self.value.clone()
    }

    /// Apply a partial update to the whole record, persist it atomically —
    /// write the new text beside the file, then rename it over the
    /// canonical path — and publish the new record to the feed.
    pub fn update(&mut self, file: &mut StoredFile, feed: &mut ChangeFeed, p: &PartialSettings)
        -> (r: FrameSettings)
        ensures
            final(self).value@ == spec_apply_partial(old(self).value@, p@),
            r@ == final(self).value@,
            final(file)@.canonical == Some(settings_text(final(self).value@)),
            final(file)@.pending is None,
            final(feed)@.latest == final(self).value@,
            store_consistent(final(self).value@, final(file)@, final(feed)@),
    {
        let new = self.value.apply_partial(p);
        let text = settings_to_text(&new);
        file.write_pending(text);
        file.commit_rename();
        self.value = new.clone();
        feed.publish(new.clone());
        new
    }
}

/// Convergence: in any consistent state — and every update leaves the
/// store, file, and feed consistent — a subscriber's `get` returns the
/// store's value, and parsing the canonical file returns that same value.
/// So once updates stop, every observer agrees with the file on disk.
pub proof fn lemma_convergence(store: SettingsV, file: StoredFileV, feed: FeedV)
    requires
        store_consistent(store, file, feed),
        store.wf(),
    ensures
        feed.latest == store,
        file.canonical is Some,
        spec_parse(file.canonical->Some_0) == Some(store),
{
    lemma_settings_round_trip(store);
}

} // verus!
