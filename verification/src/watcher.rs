//! Classification of filesystem change notifications: a batch of touched
//! paths either concerns the settings file, or the image directory, or
//! neither.  The two roots are disjoint, and the settings file takes
//! precedence, so a batch is never ambiguous.

use vstd::prelude::*;

use crate::text::{spec_is_prefix, str_eq, str_starts_with};

verus! {

/// What a batch of changed paths concerns.
pub enum ChangeKind {
    /// The settings file itself was touched: reload settings.
    Settings,
    /// Something under the image directory changed: rescan the catalog.
    Images,
    /// Neither root is affected: ignore the batch.
    Unrelated,
}

/// Whether some path in the batch is the settings file.
pub open spec fn touches_settings(paths: Seq<Seq<char>>, settings_path: Seq<char>) -> bool {
    exists|i: int| 0 <= i < paths.len() && paths[i] == settings_path
}

/// Whether some path in the batch lies under the image directory.
pub open spec fn touches_images(paths: Seq<Seq<char>>, data_dir: Seq<char>) -> bool {
    exists|i: int| 0 <= i < paths.len() && spec_is_prefix(#[trigger] paths[i], data_dir)
}

/// The views of a batch of paths.
pub open spec fn path_views(paths: Seq<String>) -> Seq<Seq<char>> {
    paths.map_values(|p: String| p@)
}

/// Sort a batch of changed paths: the settings file wins over the image
/// directory, and a batch that touches neither is ignored.
pub fn classify_change(paths: &Vec<String>, settings_path: &str, data_dir: &str) -> (r:
    ChangeKind)
    ensures
        (r is Settings) == touches_settings(path_views(paths@), settings_path@),
        (r is Images) == (!touches_settings(path_views(paths@), settings_path@)
            && touches_images(path_views(paths@), data_dir@)),
        (r is Unrelated) == (!touches_settings(path_views(paths@), settings_path@)
            && !touches_images(path_views(paths@), data_dir@)),
{
    let ghost views = path_views(paths@);
    let n = paths.len();
    let mut i: usize = 0;
    let mut any_settings = false;
    let mut any_images = false;
    proof {
        assert(forall|k: int| 0 <= k < views.len() ==> views[k] == paths@[k]@);
    }
    while i < n
        invariant
            i <= n == paths@.len(),
            views == path_views(paths@),
            forall|k: int| 0 <= k < views.len() ==> views[k] == paths@[k]@,
            any_settings == (exists|k: int| 0 <= k < i && views[k] == settings_path@),
            any_images == (exists|k: int|
                0 <= k < i && spec_is_prefix(#[trigger] views[k], data_dir@)),
        decreases n - i,
    {
        let p = &paths[i];
        let is_s = str_eq(p.as_str(), settings_path);
        let is_img = str_starts_with(p.as_str(), data_dir);
        proof {
            assert(views[i as int] == paths@[i as int]@);
        }
        if is_s {
            any_settings = true;
        }
        if is_img {
            any_images = true;
        }
        proof {
            if is_s {
                assert(0 <= i < i + 1 && views[i as int] == settings_path@);
            }
            if is_img {
                assert(0 <= i < i + 1 && spec_is_prefix(views[i as int], data_dir@));
            }
        }
        i += 1;
    }
    if any_settings {
        ChangeKind::Settings
    } else if any_images {
        ChangeKind::Images
    } else {
        ChangeKind::Unrelated
    }
}

} // verus!
