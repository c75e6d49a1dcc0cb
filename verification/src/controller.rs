//! The display controller: the state machine that owns what is on screen
//! and when the next transition is due.  Each event of the loop — a settings
//! change, a touched settings file, a changed image directory, a rotation
//! tick — is one method with a full contract; the surrounding loop only
//! waits, renders, and feeds events in.
//!
//! A rotation tick happens in two steps: `plan_tick` says what to show, and
//! `commit_tick` is told whether the render succeeded.  A failed render
//! leaves the index where it was, so the failing image is not skipped.

use vstd::prelude::*;

use crate::catalog::{
    shuffle_paths, spec_catalog, spec_file_name, views_of, scan_entries, DirEntry,
    find_pinned_image_index,
};
use crate::codec::spec_parse;
use crate::settings::{FrameSettings, SettingsV};

verus! {

/// Abstract value of the controller.
pub ghost struct ControllerV {
    pub settings: SettingsV,
    pub catalog: Seq<Seq<char>>,
    pub current_index: int,
    pub next_switch_deadline: u64,
}

impl ControllerV {
    /// The index stays inside the catalog; an empty catalog pins it at zero.
    pub open spec fn wf(self) -> bool {
        &&& self.catalog.len() > 0 ==> 0 <= self.current_index < self.catalog.len()
        &&& self.catalog.len() == 0 ==> self.current_index == 0
    }
}

/// What is currently shown and when the next transition is due.
pub struct DisplayState {
    pub current_index: usize,
    pub next_switch_deadline: u64,
}

/// The controller: the cached settings, the catalog, and the display state.
pub struct DisplayController {
    pub settings: FrameSettings,
    pub catalog: Vec<String>,
    pub state: DisplayState,
}

impl View for DisplayController {
    type V = ControllerV;

    open spec fn view(&self) -> ControllerV {
        ControllerV {
            settings: self.settings@,
            catalog: views_of(self.catalog@),
            current_index: self.state.current_index as int,
            next_switch_deadline: self.state.next_switch_deadline,
        }
    }
}

/// The first catalog position whose file name is `f`.
pub open spec fn pin_pos(cat: Seq<Seq<char>>, f: Seq<char>) -> Option<int>
    decreases cat.len(),
{
    if cat.len() == 0 {
        None
    } else if spec_file_name(cat[0]) == f {
        Some(0int)
    } else {
        match pin_pos(cat.drop_first(), f) {
            Some(i) => Some(i + 1),
            None => None,
        }
    }
}

/// What `pin_pos` returns: the first match, or nothing.
pub proof fn lemma_pin_pos(cat: Seq<Seq<char>>, f: Seq<char>)
    ensures
        match pin_pos(cat, f) {
            Some(i) => {
                &&& 0 <= i < cat.len()
                &&& spec_file_name(cat[i]) == f
                &&& forall|j: int| 0 <= j < i ==> spec_file_name(#[trigger] cat[j]) != f
            },
            None => forall|j: int|
                0 <= j < cat.len() ==> spec_file_name(#[trigger] cat[j]) != f,
        },
    decreases cat.len(),
{
    if cat.len() > 0 && spec_file_name(cat[0]) != f {
        lemma_pin_pos(cat.drop_first(), f);
        let rest = cat.drop_first();
        assert(forall|j: int| 0 <= j < rest.len() ==> rest[j] == cat[j + 1]);
        match pin_pos(rest, f) {
            Some(i) => {
                assert(cat[i + 1] == rest[i]);
                assert forall|j: int|
                    0 <= j < i + 1 implies spec_file_name(#[trigger] cat[j]) != f by {
                    if j > 0 {
                        assert(cat[j] == rest[j - 1]);
                        assert(spec_file_name(rest[j - 1]) != f);
                    }
                }
            },
            None => {
                assert forall|j: int|
                    0 <= j < cat.len() implies spec_file_name(#[trigger] cat[j]) != f by {
                    if j > 0 {
                        assert(cat[j] == rest[j - 1]);
                        assert(spec_file_name(rest[j - 1]) != f);
                    }
                }
            },
        }
    }
}

/// A first match pins `pin_pos` down.
proof fn lemma_pin_pos_unique(cat: Seq<Seq<char>>, f: Seq<char>, r: Option<int>)
    requires
        match r {
            Some(i) => {
                &&& 0 <= i < cat.len()
                &&& spec_file_name(cat[i]) == f
                &&& forall|j: int| 0 <= j < i ==> spec_file_name(#[trigger] cat[j]) != f
            },
            None => forall|j: int|
                0 <= j < cat.len() ==> spec_file_name(#[trigger] cat[j]) != f,
        },
    ensures
        pin_pos(cat, f) == r,
{
    lemma_pin_pos(cat, f);
    match r {
        Some(i) => {
            match pin_pos(cat, f) {
                Some(k) => {
                    if i < k {
                        assert(spec_file_name(cat[i]) != f);
                        assert(false);
                    }
                    if k < i {
                        assert(spec_file_name(cat[k]) != f);
                        assert(false);
                    }
                },
                None => {
                    assert(spec_file_name(cat[i]) != f);
                    assert(false);
                },
            }
        },
        None => {
            match pin_pos(cat, f) {
                Some(k) => {
                    assert(spec_file_name(cat[k]) != f);
                    assert(false);
                },
                None => {},
            }
        },
    }
}

/// The decision of one rotation tick.
pub enum TickPlan {
    /// Show the image at this catalog position.
    Show(usize),
    /// Leave the screen as it is: the pinned image is gone from the catalog.
    KeepCurrent,
    /// Paint a blank frame: nothing to display.
    Blank,
}

/// What a rotation tick shows: the pinned image when it is present, the
/// next image in order when no pin is set, a blank frame when the display
/// is off or the catalog is empty.
pub open spec fn spec_tick_plan(c: ControllerV) -> TickPlan {
    if !c.settings.display_enabled || c.catalog.len() == 0 {
        TickPlan::Blank
    } else {
        match c.settings.pinned_image {
            Some(f) => match pin_pos(c.catalog, f) {
                Some(j) => TickPlan::Show(j as usize),
                None => TickPlan::KeepCurrent,
            },
            None => TickPlan::Show(((c.current_index + 1) % (c.catalog.len() as int)) as usize),
        }
    }
}

/// `a + b`, stopping at the largest value.
pub open spec fn sat_add(a: u64, b: u64) -> u64 {
    if a + b > u64::MAX {
        u64::MAX
    } else {
        (a + b) as u64
    }
}

/// The controller after a committed tick at time `now`: the shown index is
/// adopted when a render happened and succeeded, and the next deadline is
/// one interval away.
pub open spec fn spec_tick_commit(c: ControllerV, now: u64) -> ControllerV {
    let shown = match spec_tick_plan(c) {
        TickPlan::Show(i) => Some(i as int),
        TickPlan::KeepCurrent => None,
        TickPlan::Blank => None,
    };
    ControllerV {
        current_index: match shown {
            Some(i) => i,
            None => c.current_index,
        },
        next_switch_deadline: sat_add(now, c.settings.rotate_interval_secs),
        ..c
    }
}

impl DisplayController {
    /// A controller from the initial settings snapshot and catalog scan, as
    /// at process start: shuffled if asked, opened at the pinned image.
    pub fn start(settings: FrameSettings, entries: &Vec<DirEntry>, now: u64) -> (r:
        DisplayController)
        ensures
            r@.wf(),
            r@.settings == settings@,
            r@.next_switch_deadline == now,
            !settings@.shuffle ==> r@.catalog == spec_catalog(
                entries@.map_values(|e: DirEntry| e@),
            ),
            r@.catalog.to_multiset() == spec_catalog(
                entries@.map_values(|e: DirEntry| e@),
            ).to_multiset(),
            r@.current_index == spec_reset_index(r@),
    {
        let mut catalog = scan_entries(entries);
        if settings.shuffle {
            shuffle_paths(&mut catalog);
        }
        let mut r = DisplayController {
            settings,
            catalog,
            state: DisplayState { current_index: 0, next_switch_deadline: now },
        };
        r.reset_index_to_pin();
        r
    }

    /// Point the index at the pinned image, or at the start.
    fn reset_index_to_pin(&mut self)
        ensures
            final(self)@.settings == old(self)@.settings,
            final(self)@.catalog == old(self)@.catalog,
            final(self)@.next_switch_deadline == old(self)@.next_switch_deadline,
            final(self)@.current_index == spec_reset_index(old(self)@),
            final(self)@.wf(),
    {
        let ghost cat = self@.catalog;
        proof {
            assert(forall|k: int|
                0 <= k < cat.len() ==> cat[k] == self.catalog@[k]@);
        }
        let idx: usize = match &self.settings.pinned_image {
            Some(p) => {
                match find_pinned_image_index(&self.catalog, p.as_str()) {
                    Some(j) => {
                        proof {
                            lemma_pin_pos_unique(cat, p@, Some(j as int));
                        }
                        j
                    },
                    None => {
                        proof {
                            lemma_pin_pos_unique(cat, p@, None);
                        }
                        0
                    },
                }
            },
            None => 0,
        };
        self.state.current_index = idx;
    }

    /// What a rotation tick should show now.
    pub fn plan_tick(&self) -> (p: TickPlan)
        requires
            self@.wf(),
        ensures
            p == spec_tick_plan(self@),
    {
        if !self.settings.display_enabled || self.catalog.len() == 0 {
            return TickPlan::Blank;
        }
        let ghost cat = self@.catalog;
        proof {
            assert(forall|k: int|
                0 <= k < cat.len() ==> cat[k] == self.catalog@[k]@);
        }
        match &self.settings.pinned_image {
            Some(p) => {
                match find_pinned_image_index(&self.catalog, p.as_str()) {
                    Some(j) => {
                        proof {
                            lemma_pin_pos_unique(cat, p@, Some(j as int));
                        }
                        TickPlan::Show(j)
                    },
                    None => {
                        proof {
                            lemma_pin_pos_unique(cat, p@, None);
                        }
                        TickPlan::KeepCurrent
                    },
                }
            },
            None => {
                let n = self.catalog.len();
                TickPlan::Show((self.state.current_index + 1) % n)
            },
        }
    }

    /// Commit a tick at time `now`.  `shown` is the index whose render
    /// succeeded, or nothing when no image was rendered: on a failed render
    /// the index stays, so the failing image is not skipped.
    pub fn commit_tick(&mut self, shown: Option<usize>, now: u64)
        requires
            old(self)@.wf(),
            (match shown {
                Some(i) => {
                    &&& i < old(self)@.catalog.len()
                    &&& spec_tick_plan(old(self)@) == TickPlan::Show(i)
                },
                None => true,
            }),
        ensures
            final(self)@.settings == old(self)@.settings,
            final(self)@.catalog == old(self)@.catalog,
            final(self)@.current_index == (match shown {
                Some(i) => i as int,
                None => old(self)@.current_index,
            }),
            final(self)@.next_switch_deadline == sat_add(
                now,
                old(self)@.settings.rotate_interval_secs,
            ),
            shown is Some ==> final(self)@ == spec_tick_commit(old(self)@, now),
            final(self)@.wf(),
    {
        match shown {
            Some(i) => {
                self.state.current_index = i;
            },
            None => {},
        }
        self.state.next_switch_deadline = now.saturating_add(
            self.settings.rotate_interval_secs,
        );
    }

    /// Adopt a new settings value arriving at time `now`, from the change
    /// feed or from a reloaded file.  An unchanged value is a no-op.  A
    /// change resets the deadline to `now`, so the next frame reflects the
    /// new settings without waiting for the pending deadline; when shuffle
    /// turns on, the catalog is reshuffled and the index returns to the
    /// pinned image, or to the start.
    pub fn on_settings_changed(&mut self, new: FrameSettings, now: u64)
        requires
            old(self)@.wf(),
        ensures
            final(self)@.wf(),
            new@ == old(self)@.settings ==> final(self)@ == old(self)@,
            new@ != old(self)@.settings ==> {
                &&& final(self)@.settings == new@
                &&& final(self)@.next_switch_deadline == now
                &&& if new@.shuffle && !old(self)@.settings.shuffle {
                    &&& final(self)@.catalog.to_multiset() == old(self)@.catalog.to_multiset()
                    &&& final(self)@.catalog.len() == old(self)@.catalog.len()
                    &&& final(self)@.current_index == spec_reset_index(final(self)@)
                } else {
                    &&& final(self)@.catalog == old(self)@.catalog
                    &&& final(self)@.current_index == old(self)@.current_index
                }
            },
    {
        if self.settings.same_as(&new) {
            return;
        }
        let newly_shuffled = new.shuffle && !self.settings.shuffle;
        self.settings = new;
        self.state.next_switch_deadline = now;
        if newly_shuffled {
            shuffle_paths(&mut self.catalog);
            self.reset_index_to_pin();
        }
    }

    /// React to the settings file being touched at time `now`: adopt its
    /// content when it parses to a different value, and keep the
    /// last-known-good settings when it does not parse.
    pub fn on_settings_file(&mut self, content: &str, now: u64)
        requires
            old(self)@.wf(),
        ensures
            final(self)@.wf(),
            match spec_parse(content@) {
                Some(v) => {
                    &&& (v == old(self)@.settings ==> final(self)@ == old(self)@)
                    &&& (v != old(self)@.settings ==> {
                        &&& final(self)@.settings == v
                        &&& final(self)@.next_switch_deadline == now
                        &&& if v.shuffle && !old(self)@.settings.shuffle {
                            &&& final(self)@.catalog.to_multiset()
                                == old(self)@.catalog.to_multiset()
                            &&& final(self)@.current_index == spec_reset_index(final(self)@)
                        } else {
                            &&& final(self)@.catalog == old(self)@.catalog
                            &&& final(self)@.current_index == old(self)@.current_index
                        }
                    })
                },
                None => final(self)@ == old(self)@,
            },
    {
        match crate::codec::parse_settings(content) {
            Ok(new) => {
                self.on_settings_changed(new, now);
            },
            Err(_) => {},
        }
    }

    /// Rebuild the catalog from a fresh directory listing: filter and sort,
    /// reshuffle when shuffle is on, and point the index back at the pinned
    /// image, or at the start.  Returns whether the catalog came out empty,
    /// so the caller can blank the screen at once.
    pub fn on_images_changed(&mut self, entries: &Vec<DirEntry>) -> (empty: bool)
        requires
            old(self)@.wf(),
        ensures
            final(self)@.wf(),
            final(self)@.settings == old(self)@.settings,
            final(self)@.next_switch_deadline == old(self)@.next_switch_deadline,
            !old(self)@.settings.shuffle ==> final(self)@.catalog == spec_catalog(
                entries@.map_values(|e: DirEntry| e@),
            ),
            final(self)@.catalog.to_multiset() == spec_catalog(
                entries@.map_values(|e: DirEntry| e@),
            ).to_multiset(),
            final(self)@.current_index == spec_reset_index(final(self)@),
            empty == (final(self)@.catalog.len() == 0),
    {
        let mut catalog = scan_entries(entries);
        if self.settings.shuffle {
            shuffle_paths(&mut catalog);
        }
        self.catalog = catalog;
        self.reset_index_to_pin();
        self.catalog.len() == 0
    }
}

/// Where the index returns after a rescan or reshuffle: the pinned image's
/// position when one is pinned and present, else the start.
pub open spec fn spec_reset_index(c: ControllerV) -> int {
    match c.settings.pinned_image {
        Some(f) => match pin_pos(c.catalog, f) {
            Some(j) => j,
            None => 0,
        },
        None => 0,
    }
}

// ----- what a run of ticks does -----

/// The controller after `k` timer ticks, each firing at its deadline and
/// each render succeeding.
pub open spec fn spec_run_ticks(c: ControllerV, k: nat) -> ControllerV
    decreases k,
{
    if k == 0 {
        c
    } else {
        let p = spec_run_ticks(c, (k - 1) as nat);
        spec_tick_commit(p, p.next_switch_deadline)
    }
}

/// `((a % m) + 1) % m` steps the cycle.
proof fn lemma_mod_step(a: int, m: int)
    requires
        0 <= a,
        0 < m,
    ensures
        ((a % m) + 1) % m == (a + 1) % m,
{
    if m == 1 {
        assert(((a % m) + 1) % m == (a + 1) % m) by (nonlinear_arith)
            requires m == 1 && 0 <= a;
    } else {
        vstd::arithmetic::div_mod::lemma_small_mod(1, m as nat);
        vstd::arithmetic::div_mod::lemma_add_mod_noop(a, 1, m);
    }
}

/// Rotation is deterministic: with the display on, no pin, and a fixed
/// unshuffled catalog of `N` images, the `k`-th tick fires at
/// `t0 + k * T` and leaves the index at `(i0 + k) mod N`.
pub proof fn lemma_rotation_determinism(c0: ControllerV, k: nat)
    requires
        c0.wf(),
        c0.settings.display_enabled,
        c0.settings.pinned_image is None,
        0 < c0.catalog.len() <= usize::MAX,
        c0.next_switch_deadline + k * c0.settings.rotate_interval_secs <= u64::MAX,
    ensures
        spec_run_ticks(c0, k).settings == c0.settings,
        spec_run_ticks(c0, k).catalog == c0.catalog,
        spec_run_ticks(c0, k).current_index == (c0.current_index + k) % (
        c0.catalog.len() as int),
        spec_run_ticks(c0, k).next_switch_deadline == c0.next_switch_deadline + k
            * c0.settings.rotate_interval_secs,
        spec_run_ticks(c0, k).wf(),
    decreases k,
{
    let n = c0.catalog.len() as int;
    let t = c0.settings.rotate_interval_secs;
    if k == 0 {
        vstd::arithmetic::div_mod::lemma_small_mod(c0.current_index as nat, n as nat);
        assert(k * t == 0) by (nonlinear_arith)
            requires k == 0;
    } else {
        assert((k - 1) * t <= k * t && k * t == (k - 1) * t + t) by (nonlinear_arith)
            requires k >= 1 && t >= 0;
        lemma_rotation_determinism(c0, (k - 1) as nat);
        let p = spec_run_ticks(c0, (k - 1) as nat);
        vstd::arithmetic::div_mod::lemma_mod_bound(c0.current_index + k - 1, n);
        vstd::arithmetic::div_mod::lemma_mod_bound(p.current_index + 1, n);
        let v = (p.current_index + 1) % n;
        assert(0 <= v < n);
        assert((v as usize) as int == v);
        assert(spec_tick_plan(p) == TickPlan::Show(v as usize));
        assert(spec_run_ticks(c0, k).current_index == v);
        lemma_mod_step(c0.current_index + k - 1, n);
        assert(p.next_switch_deadline == c0.next_switch_deadline + (k - 1) * t);
        assert(sat_add(p.next_switch_deadline, t) == p.next_switch_deadline + t);
        assert(spec_run_ticks(c0, k).next_switch_deadline == p.next_switch_deadline + t);
        assert(c0.next_switch_deadline + (k - 1) * t + t == c0.next_switch_deadline + k * t);
        vstd::arithmetic::div_mod::lemma_mod_bound(c0.current_index + k, n);
    }
}

/// A pin overrides rotation: with the pinned image at catalog position
/// `j`, every tick shows `j`, whatever the elapsed time, and the index
/// never advances past it.
pub proof fn lemma_pin_overrides_rotation(c0: ControllerV, k: nat, j: int)
    requires
        c0.wf(),
        c0.settings.display_enabled,
        0 < c0.catalog.len() <= usize::MAX,
        c0.settings.pinned_image is Some,
        pin_pos(c0.catalog, c0.settings.pinned_image->Some_0) == Some(j),
    ensures
        spec_run_ticks(c0, k).settings == c0.settings,
        spec_run_ticks(c0, k).catalog == c0.catalog,
        forall|t: nat|
            t < k ==> spec_tick_plan(#[trigger] spec_run_ticks(c0, t)) == TickPlan::Show(
                j as usize,
            ),
        k > 0 ==> spec_run_ticks(c0, k).current_index == j,
        k == 0 ==> spec_run_ticks(c0, k).current_index == c0.current_index,
        spec_run_ticks(c0, k).wf(),
    decreases k,
{
    lemma_pin_pos(c0.catalog, c0.settings.pinned_image->Some_0);
    if k > 0 {
        lemma_pin_overrides_rotation(c0, (k - 1) as nat, j);
        let p = spec_run_ticks(c0, (k - 1) as nat);
        assert(0 <= j < c0.catalog.len());
        assert((j as usize) as int == j);
        assert(spec_tick_plan(p) == TickPlan::Show(j as usize));
        assert(spec_run_ticks(c0, k).current_index == j);
        assert forall|t: nat|
            t < k implies spec_tick_plan(#[trigger] spec_run_ticks(c0, t)) == TickPlan::Show(
            j as usize,
        ) by {
            if t < k - 1 {
            } else {
                assert(spec_run_ticks(c0, t) == p);
            }
        }
    }
}

/// A listing with no eligible files gives an empty catalog, and an empty
/// catalog means a blank frame: no image is named, so none is rendered.
pub proof fn lemma_empty_catalog_blank(c: ControllerV, es: Seq<crate::catalog::EntryV>)
    requires
        forall|i: int| 0 <= i < es.len() ==> !crate::catalog::entry_eligible(#[trigger] es[i]),
        c.catalog == spec_catalog(es),
    ensures
        c.catalog.len() == 0,
        spec_tick_plan(c) == TickPlan::Blank,
{
    broadcast use vstd::seq_lib::group_to_multiset_ensures;

    lemma_eligible_paths_empty(es);
    crate::catalog::lemma_lex_total_ordering();
    crate::catalog::eligible_paths(es).lemma_sort_by_ensures(crate::catalog::lexf());
    assert(spec_catalog(es).to_multiset().len() == 0);
    assert(spec_catalog(es).len() == 0);
}

/// No eligible entries, no eligible paths.
proof fn lemma_eligible_paths_empty(es: Seq<crate::catalog::EntryV>)
    requires
        forall|i: int| 0 <= i < es.len() ==> !crate::catalog::entry_eligible(#[trigger] es[i]),
    ensures
        crate::catalog::eligible_paths(es).len() == 0,
    decreases es.len(),
{
    if es.len() > 0 {
        assert(forall|i: int|
            0 <= i < es.len() - 1 ==> es.drop_last()[i] == es[i]);
        lemma_eligible_paths_empty(es.drop_last());
        assert(!crate::catalog::entry_eligible(es.last()));
    }
}

} // verus!
