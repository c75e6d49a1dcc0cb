//! The settings record of the display: a complete value, never a partial
//! one.  Every mutation takes the whole current value and produces a whole
//! new value, so the transforms here are total functions on `FrameSettings`.

use vstd::prelude::*;
use vstd::string::StringExecFns;

use crate::text::str_eq;

verus! {

/// Abstract value of a settings record, used in contracts.
pub ghost struct SettingsV {
    pub display_enabled: bool,
    pub rotate_interval_secs: u64,
    pub shuffle: bool,
    pub pinned_image: Option<Seq<char>>,
}

impl SettingsV {
    /// A well-formed record: if an image is pinned, its filename can be
    /// written on one line of the settings file between double quotes.
    pub open spec fn wf(self) -> bool {
        match self.pinned_image {
            Some(p) => forall|i: int|
                0 <= i < p.len() ==> p[i] != '"' && p[i] != '\n' && p[i] != '\r',
            None => true,
        }
    }

    /// The record with the pinned image replaced.
    pub open spec fn with_pinned(self, pinned: Option<Seq<char>>) -> SettingsV {
        SettingsV { pinned_image: pinned, ..self }
    }
}

/// Display configuration: the single record that the store persists and the
/// controller caches.
pub struct FrameSettings {
    pub display_enabled: bool,
    pub rotate_interval_secs: u64,
    pub shuffle: bool,
    pub pinned_image: Option<String>,
}

impl View for FrameSettings {
    type V = SettingsV;

    open spec fn view(&self) -> SettingsV {
        SettingsV {
            display_enabled: self.display_enabled,
            rotate_interval_secs: self.rotate_interval_secs,
            shuffle: self.shuffle,
            pinned_image: match self.pinned_image {
                Some(p) => Some(p@),
                None => None,
            },
        }
    }
}

/// The value used when no settings file exists yet.
pub open spec fn spec_default_settings() -> SettingsV {
    SettingsV {
        display_enabled: true,
        rotate_interval_secs: 10,
        shuffle: false,
        pinned_image: None,
    }
}

impl FrameSettings {
    /// The record written out on first start, before any mutation.
    pub fn default_settings() -> (r: FrameSettings)
        ensures
            r@ == spec_default_settings(),
    {
        FrameSettings {
            display_enabled: true,
            rotate_interval_secs: 10,
            shuffle: false,
            pinned_image: None,
        }
    }

    /// Whether two records hold the same value.
    pub fn same_as(&self, other: &FrameSettings) -> (r: bool)
        ensures
            r == (self@ == other@),
    {
        let pin_eq = match (&self.pinned_image, &other.pinned_image) {
            (Some(a), Some(b)) => str_eq(a.as_str(), b.as_str()),
            (None, None) => true,
            _ => false,
        };
        let r = self.display_enabled == other.display_enabled
            && self.rotate_interval_secs == other.rotate_interval_secs
            && self.shuffle == other.shuffle
            && pin_eq;
        r
    }
}

impl Clone for FrameSettings {
    fn clone(&self) -> (r: Self)
        ensures
            r@ == self@,
    {
        FrameSettings {
            display_enabled: self.display_enabled,
            rotate_interval_secs: self.rotate_interval_secs,
            shuffle: self.shuffle,
            pinned_image: match &self.pinned_image {
                Some(p) => Some(p.clone()),
                None => None,
            },
        }
    }
}

/// A partial update: any subset of the fields, applied onto a whole record.
pub struct PartialSettings {
    pub display_enabled: Option<bool>,
    pub rotate_interval_secs: Option<u64>,
    pub shuffle: Option<bool>,
    /// `None` leaves the pin untouched; `Some(None)` clears it.
    pub pinned_image: Option<Option<String>>,
}

/// Abstract value of a partial update.
pub ghost struct PartialV {
    pub display_enabled: Option<bool>,
    pub rotate_interval_secs: Option<u64>,
    pub shuffle: Option<bool>,
    pub pinned_image: Option<Option<Seq<char>>>,
}

impl View for PartialSettings {
    type V = PartialV;

    open spec fn view(&self) -> PartialV {
        PartialV {
            display_enabled: self.display_enabled,
            rotate_interval_secs: self.rotate_interval_secs,
            shuffle: self.shuffle,
            pinned_image: match self.pinned_image {
                Some(Some(p)) => Some(Some(p@)),
                Some(None) => Some(None),
                None => None,
            },
        }
    }
}

/// Provided fields replace the current ones; absent fields are kept.
pub open spec fn spec_apply_partial(cur: SettingsV, p: PartialV) -> SettingsV {
    SettingsV {
        display_enabled: match p.display_enabled {
            Some(v) => v,
            None => cur.display_enabled,
        },
        rotate_interval_secs: match p.rotate_interval_secs {
            Some(v) => v,
            None => cur.rotate_interval_secs,
        },
        shuffle: match p.shuffle {
            Some(v) => v,
            None => cur.shuffle,
        },
        pinned_image: match p.pinned_image {
            Some(v) => v,
            None => cur.pinned_image,
        },
    }
}

impl FrameSettings {
    /// Apply a partial update, keeping every field the update does not name.
    pub fn apply_partial(&self, p: &PartialSettings) -> (r: FrameSettings)
        ensures
            r@ == spec_apply_partial(self@, p@),
    {
        FrameSettings {
            display_enabled: match p.display_enabled {
                Some(v) => v,
                None => self.display_enabled,
            },
            rotate_interval_secs: match p.rotate_interval_secs {
                Some(v) => v,
                None => self.rotate_interval_secs,
            },
            shuffle: match p.shuffle {
                Some(v) => v,
                None => self.shuffle,
            },
            pinned_image: match &p.pinned_image {
                Some(Some(v)) => Some(v.clone()),
                Some(None) => None,
                None => match &self.pinned_image {
                    Some(v) => Some(v.clone()),
                    None => None,
                },
            },
        }
    }

    /// Pin `filename`: the record now names it on every rotation tick.
    pub fn pin(&self, filename: &str) -> (r: FrameSettings)
        ensures
            r@ == spec_pin(self@, filename@),
    {
        FrameSettings {
            display_enabled: self.display_enabled,
            rotate_interval_secs: self.rotate_interval_secs,
            shuffle: self.shuffle,
            pinned_image: Some(String::from_str(filename)),
        }
    }

    /// Unpin `filename`.  Unpinning when nothing is pinned succeeds and
    /// changes nothing; naming a file other than the pinned one is rejected.
    pub fn unpin(&self, filename: &str) -> (r: Result<FrameSettings, UnpinError>)
        ensures
            spec_unpin(self@, filename@) is Some <==> r is Ok,
            r is Ok ==> r->Ok_0@ == spec_unpin(self@, filename@)->Some_0,
    {
        match &self.pinned_image {
            None => Ok(self.clone()),
            Some(p) => {
                if str_eq(p.as_str(), filename) {
                    Ok(FrameSettings {
                        display_enabled: self.display_enabled,
                        rotate_interval_secs: self.rotate_interval_secs,
                        shuffle: self.shuffle,
                        pinned_image: None,
                    })
                } else {
                    Err(UnpinError::NotPinnedImage)
                }
            },
        }
    }

    /// The update run after a picture is deleted: clear the pin only when
    /// the deleted file was the pinned one.
    pub fn unpin_if_deleted(&self, filename: &str) -> (r: Option<FrameSettings>)
        ensures
            match self@.pinned_image {
                Some(p) => {
                    &&& (r is Some <==> p == filename@)
                    &&& r is Some ==> r->Some_0@ == self@.with_pinned(None)
                },
                None => r is None,
            },
    {
        match &self.pinned_image {
            None => None,
            Some(p) => {
                if str_eq(p.as_str(), filename) {
                    Some(FrameSettings {
                        display_enabled: self.display_enabled,
                        rotate_interval_secs: self.rotate_interval_secs,
                        shuffle: self.shuffle,
                        pinned_image: None,
                    })
                } else {
                    None
                }
            },
        }
    }
}

/// Why an unpin request was refused.
#[derive(Debug)]
pub enum UnpinError {
    /// The named file is not the currently pinned one.
    NotPinnedImage,
}

/// The record after pinning `filename`.
pub open spec fn spec_pin(cur: SettingsV, filename: Seq<char>) -> SettingsV {
    cur.with_pinned(Some(filename))
}

/// The record after unpinning `filename`: `None` means the request is
/// rejected because a different file is pinned.
pub open spec fn spec_unpin(cur: SettingsV, filename: Seq<char>) -> Option<SettingsV> {
    match cur.pinned_image {
        None => Some(cur),
        Some(p) => if p == filename {
            Some(cur.with_pinned(None))
        } else {
            None
        },
    }
}

/// Unpinning while nothing is pinned is a no-op that succeeds.
pub proof fn lemma_unpin_unpinned_noop(cur: SettingsV, filename: Seq<char>)
    requires
        cur.pinned_image is None,
    ensures
        spec_unpin(cur, filename) == Some(cur),
{
}

/// Pinning the same image twice is the same as pinning it once.
pub proof fn lemma_pin_idempotent(cur: SettingsV, filename: Seq<char>)
    ensures
        spec_pin(spec_pin(cur, filename), filename) == spec_pin(cur, filename),
{
}

} // verus!
