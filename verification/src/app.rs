//! Application state and the reconciliation engine: merging a fresh status
//! snapshot with prior UI state — selection, sort order and recency — so
//! that the user's place survives every refresh.

use vstd::prelude::*;
use vstd::map::*;
use vstd::relations::sorted_by;
use crate::recency::{is_active_spec, paths_of, progress_spec, rec_leq, RecencyTracker};
use crate::sorting::insertion_sort;
use crate::status::{FileChange, FileStatus};
use crate::strutil::{ends_with_str, is_suffix, str_eq};

verus! {

/// Which panel has focus.
#[derive(Debug, Clone, Copy, PartialEq, Eq, Structural)]
pub enum ActivePanel {
    FileList,
    DiffView,
}

/// A watcher-reported path names a snapshot entry when the two agree
/// exactly, or when either is a suffix of the other: the watcher's paths
/// and the backend's paths may disagree on leading segments.
pub open spec fn path_matches(entry: Seq<char>, touched: Seq<char>) -> bool {
    entry == touched || is_suffix(entry, touched) || is_suffix(touched, entry)
}

/// Index of the first snapshot entry that a touched path names, if any:
/// first match in snapshot order.
pub open spec fn first_match_index(files: Seq<FileChange>, touched: Seq<char>) -> Option<int>
    decreases files.len(),
{
    if files.len() == 0 {
        None
    } else if path_matches(files[0].path@, touched) {
        Some(0int)
    } else {
        match first_match_index(files.drop_first(), touched) {
            Some(i) => Some(i + 1),
            None => None,
        }
    }
}

/// Index of the first snapshot entry with exactly this path, if any.
pub open spec fn first_path_index(files: Seq<FileChange>, p: Seq<char>) -> Option<int>
    decreases files.len(),
{
    if files.len() == 0 {
        None
    } else if files[0].path@ == p {
        Some(0int)
    } else {
        match first_path_index(files.drop_first(), p) {
            Some(i) => Some(i + 1),
            None => None,
        }
    }
}

/// The recency map after marking every touched path that names a snapshot
/// entry, in order: each touched path touches the first matching entry's
/// own path; touched paths with no matching entry are dropped.
pub open spec fn touch_all(
    m: Map<Seq<char>, u64>,
    files: Seq<FileChange>,
    touched: Seq<String>,
    now: u64,
) -> Map<Seq<char>, u64>
    decreases touched.len(),
{
    if touched.len() == 0 {
        m
    } else {
        let prev = touch_all(m, files, touched.drop_last(), now);
        match first_match_index(files, touched.last()@) {
            Some(i) => prev.insert(files[i].path@, now),
            None => prev,
        }
    }
}

/// The recency map that a reconciliation leaves behind: every touched path
/// marked, then every record whose path is absent from the snapshot pruned.
pub open spec fn reconciled_map(
    m: Map<Seq<char>, u64>,
    snapshot: Seq<FileChange>,
    touched: Seq<String>,
    now: u64,
) -> Map<Seq<char>, u64> {
    touch_all(m, snapshot, touched, now).restrict(paths_of(snapshot))
}

/// Selection stability: when the previously selected path is present in
/// the new collection, it is the selected path afterwards too.
pub open spec fn selection_stable(
    old_files: Seq<FileChange>,
    old_sel: int,
    new_files: Seq<FileChange>,
    new_sel: int,
) -> bool {
    (0 <= old_sel < old_files.len() && paths_of(new_files).contains(old_files[old_sel].path@))
        ==> (0 <= new_sel < new_files.len() && new_files[new_sel].path@
        == old_files[old_sel].path@)
}

/// The selected index after reconciliation: the previously selected path's
/// new position when it survived, otherwise the previous index clamped
/// into the new collection.
pub open spec fn select_spec(
    old_files: Seq<FileChange>,
    old_sel: int,
    new_files: Seq<FileChange>,
) -> int {
    let restored = if 0 <= old_sel < old_files.len() {
        match first_path_index(new_files, old_files[old_sel].path@) {
            Some(i) => i,
            None => old_sel,
        }
    } else {
        old_sel
    };
    if restored >= new_files.len() && new_files.len() > 0 {
        new_files.len() - 1
    } else {
        restored
    }
}

/// A scan that stopped at `k` determines the first matching index.
proof fn lemma_first_match_index_from_scan(files: Seq<FileChange>, touched: Seq<char>, k: int)
    requires
        0 <= k <= files.len(),
        forall|kk: int| 0 <= kk < k ==> !path_matches(#[trigger] files[kk].path@, touched),
        k == files.len() || path_matches(files[k].path@, touched),
    ensures
        first_match_index(files, touched) == if k == files.len() {
            Option::<int>::None
        } else {
            Option::<int>::Some(k)
        },
    decreases files.len(),
{
    if files.len() == 0 {
    } else if path_matches(files[0].path@, touched) {
        assert(k == 0);
    } else {
        assert(forall|kk: int|
            0 <= kk < k - 1 ==> !path_matches(
                #[trigger] files.drop_first()[kk].path@,
                touched,
            ));
        lemma_first_match_index_from_scan(files.drop_first(), touched, k - 1);
    }
}

/// A scan that stopped at `k` determines the first index with this path.
proof fn lemma_first_path_index_from_scan(files: Seq<FileChange>, p: Seq<char>, k: int)
    requires
        0 <= k <= files.len(),
        forall|kk: int| 0 <= kk < k ==> #[trigger] files[kk].path@ != p,
        k == files.len() || files[k].path@ == p,
    ensures
        first_path_index(files, p) == if k == files.len() {
            Option::<int>::None
        } else {
            Option::<int>::Some(k)
        },
    decreases files.len(),
{
    if files.len() == 0 {
    } else if files[0].path@ == p {
        assert(k == 0);
    } else {
        assert(forall|kk: int| 0 <= kk < k - 1 ==> #[trigger] files.drop_first()[kk].path@ != p);
        lemma_first_path_index_from_scan(files.drop_first(), p, k - 1);
    }
}

/// What the first-path search returns: a valid index bearing the path, or
/// nothing exactly when the path is absent.
pub proof fn lemma_first_path_index_props(files: Seq<FileChange>, p: Seq<char>)
    ensures
        match first_path_index(files, p) {
            Some(i) => 0 <= i < files.len() && files[i].path@ == p,
            None => !paths_of(files).contains(p),
        },
    decreases files.len(),
{
    if files.len() == 0 {
        assert(!paths_of(files).contains(p));
    } else if files[0].path@ == p {
    } else {
        lemma_first_path_index_props(files.drop_first(), p);
        match first_path_index(files.drop_first(), p) {
            Some(i) => {
                assert(files[i + 1] == files.drop_first()[i]);
            },
            None => {
                if paths_of(files).contains(p) {
                    let i = choose|i: int| 0 <= i < files.len() && #[trigger] files[i].path@ == p;
                    assert(i > 0);
                    assert(files.drop_first()[i - 1].path@ == p);
                    assert(paths_of(files.drop_first()).contains(p));
                }
            },
        }
    }
}

/// Index of the first snapshot entry that the touched path names.
fn find_match(files: &Vec<FileChange>, touched: &str) -> (r: Option<usize>)
    ensures
        match r {
            Some(k) => 0 <= k < files@.len() && path_matches(files@[k as int].path@, touched@)
                && forall|kk: int|
                0 <= kk < k ==> !path_matches(#[trigger] files@[kk].path@, touched@),
            None => forall|kk: int|
                0 <= kk < files@.len() ==> !path_matches(#[trigger] files@[kk].path@, touched@),
        },
{
    let mut k: usize = 0;
    loop
        invariant
            0 <= k <= files@.len(),
            forall|kk: int| 0 <= kk < k ==> !path_matches(#[trigger] files@[kk].path@, touched@),
        decreases files@.len() - k,
    {
        if k == files.len() {
            return None;
        }
        let entry_path: &str = files[k].path.as_str();
        let exact = str_eq(entry_path, touched);
        let entry_has_suffix = ends_with_str(entry_path, touched);
        let touched_has_suffix = ends_with_str(touched, entry_path);
        if exact || entry_has_suffix || touched_has_suffix {
            return Some(k);
        }
        k = k + 1;
    }
}

/// Index of the first snapshot entry with exactly this path.
fn find_path(files: &Vec<FileChange>, p: &str) -> (r: Option<usize>)
    ensures
        match r {
            Some(k) => 0 <= k < files@.len() && files@[k as int].path@ == p@ && forall|kk: int|
                0 <= kk < k ==> #[trigger] files@[kk].path@ != p@,
            None => forall|kk: int| 0 <= kk < files@.len() ==> #[trigger] files@[kk].path@ != p@,
        },
{
    let mut k: usize = 0;
    loop
        invariant
            0 <= k <= files@.len(),
            forall|kk: int| 0 <= kk < k ==> #[trigger] files@[kk].path@ != p@,
        decreases files@.len() - k,
    {
        if k == files.len() {
            return None;
        }
        if str_eq(files[k].path.as_str(), p) {
            return Some(k);
        }
        k = k + 1;
    }
}

/// How many entries of the snapshot are staged.
pub open spec fn staged_count_spec(files: Seq<FileChange>) -> int
    decreases files.len(),
{
    if files.len() == 0 {
        0
    } else {
        staged_count_spec(files.drop_last()) + if files.last().staged {
            1int
        } else {
            0int
        }
    }
}

/// How many entries are modified in the working tree and not staged.
pub open spec fn modified_count_spec(files: Seq<FileChange>) -> int
    decreases files.len(),
{
    if files.len() == 0 {
        0
    } else {
        modified_count_spec(files.drop_last()) + if files.last().status == FileStatus::Modified
            && !files.last().staged {
            1int
        } else {
            0int
        }
    }
}

/// How many entries are untracked.
pub open spec fn untracked_count_spec(files: Seq<FileChange>) -> int
    decreases files.len(),
{
    if files.len() == 0 {
        0
    } else {
        untracked_count_spec(files.drop_last()) + if files.last().status
            == FileStatus::Untracked {
            1int
        } else {
            0int
        }
    }
}

/// Pruning: a recency record for a path absent from the fresh snapshot
/// does not survive reconciliation, so the path is not visually active at
/// any later instant.
pub proof fn lemma_pruned_path_inactive(
    m: Map<Seq<char>, u64>,
    snapshot: Seq<FileChange>,
    touched: Seq<String>,
    now: u64,
    p: Seq<char>,
    later: u64,
)
    requires
        !paths_of(snapshot).contains(p),
    ensures
        !reconciled_map(m, snapshot, touched, now).contains_key(p),
        !is_active_spec(reconciled_map(m, snapshot, touched, now), p, later),
{
}

/// Snapshots carry at most one entry per path.
pub open spec fn distinct_entry_paths(files: Seq<FileChange>) -> bool {
    forall|i: int, j: int| 0 <= i < j < files.len() ==> files[i].path@ != files[j].path@
}

/// A permutation of a snapshot with distinct paths has distinct paths.
proof fn lemma_perm_distinct_paths(a: Seq<FileChange>, b: Seq<FileChange>)
    requires
        a.to_multiset() == b.to_multiset(),
        distinct_entry_paths(a),
    ensures
        distinct_entry_paths(b),
{
    broadcast use vstd::seq_lib::group_to_multiset_ensures;

    assert(a.no_duplicates()) by {
        assert forall|i: int, j: int| 0 <= i < a.len() && 0 <= j < a.len() && i != j implies a[i]
            != a[j] by {
            if a[i] == a[j] {
                assert(a[i].path@ == a[j].path@);
            }
        }
    }
    a.lemma_multiset_has_no_duplicates();
    b.lemma_multiset_has_no_duplicates_conv();
    assert forall|i: int, j: int| 0 <= i < j < b.len() implies b[i].path@ != b[j].path@ by {
        if b[i].path@ == b[j].path@ {
            assert(b[i] != b[j]);
            assert(a.to_multiset().contains(b[i]));
            assert(a.to_multiset().contains(b[j]));
            assert(a.contains(b[i]));
            assert(a.contains(b[j]));
            let ia = choose|ia: int| 0 <= ia < a.len() && a[ia] == b[i];
            let ja = choose|ja: int| 0 <= ja < a.len() && a[ja] == b[j];
            assert(ia != ja);
            assert(a[ia].path@ != a[ja].path@);
        }
    }
}

/// In a snapshot with distinct paths, the first index bearing an entry's
/// path is that entry's own index.
proof fn lemma_first_path_index_self(files: Seq<FileChange>, i: int)
    requires
        distinct_entry_paths(files),
        0 <= i < files.len(),
    ensures
        first_path_index(files, files[i].path@) == Some(i),
{
    lemma_first_path_index_props(files, files[i].path@);
    match first_path_index(files, files[i].path@) {
        Some(k) => {
            if k != i {
                assert(files[k].path@ == files[i].path@);
            }
        },
        None => {
            assert(paths_of(files).contains(files[i].path@));
        },
    }
}

/// Idempotence of manual refresh: reconciling the same snapshot twice with
/// no touched paths yields the same recency map, the same collection
/// order, and the same selection as reconciling it once, whatever instants
/// the two refreshes happen at.
pub proof fn lemma_manual_refresh_idempotent(
    m0: Map<Seq<char>, u64>,
    old_files: Seq<FileChange>,
    old_sel: int,
    snapshot: Seq<FileChange>,
    t1: u64,
    t2: u64,
)
    requires
        distinct_entry_paths(snapshot),
        old_sel >= 0,
    ensures
        ({
            let none = Seq::<String>::empty();
            let m1 = reconciled_map(m0, snapshot, none, t1);
            let f1 = insertion_sort(rec_leq(m1), snapshot);
            let s1 = select_spec(old_files, old_sel, f1);
            let m2 = reconciled_map(m1, snapshot, none, t2);
            let f2 = insertion_sort(rec_leq(m2), snapshot);
            &&& m2 == m1
            &&& f2 == f1
            &&& select_spec(f1, s1, f2) == s1
        }),
{
    let none = Seq::<String>::empty();
    let pset = paths_of(snapshot);
    let m1 = reconciled_map(m0, snapshot, none, t1);
    let f1 = insertion_sort(rec_leq(m1), snapshot);
    let s1 = select_spec(old_files, old_sel, f1);
    let m2 = reconciled_map(m1, snapshot, none, t2);

    // pruning an already-pruned map changes nothing
    assert(m1 == m0.restrict(pset));
    assert(m2 == m1.restrict(pset));
    let lhs = m0.restrict(pset).restrict(pset);
    let rhs = m0.restrict(pset);
    assert_maps_equal!(lhs, rhs, q => {});
    assert(m2 == m1);
    let f2 = insertion_sort(rec_leq(m2), snapshot);
    assert(f2 == f1);

    // the selection derived from an unchanged collection is unchanged
    crate::recency::lemma_rec_leq_properties(m1);
    crate::sorting::lemma_insertion_sort_ensures(rec_leq(m1), snapshot);
    lemma_perm_distinct_paths(snapshot, f1);
    if snapshot.len() == 0 {
        assert(f1.len() == 0);
    } else {
        assert(f1.len() == snapshot.len());
        // the first refresh leaves the selection inside the collection
        if 0 <= old_sel < old_files.len() {
            lemma_first_path_index_props(f1, old_files[old_sel].path@);
        }
        assert(0 <= s1 < f1.len());
        lemma_first_path_index_self(f1, s1);
    }
}

/// Application state: the reconciled snapshot, selection, focus, branch
/// name, recency tracker, and the layout areas the renderer reported.
#[derive(Debug)]
pub struct App {
    /// Is the application running
    pub running: bool,
    /// Current file statuses
    pub files: Vec<FileChange>,
    /// Selected file index
    pub selected_index: usize,
    /// Active panel
    pub active_panel: ActivePanel,
    /// Current branch name
    pub branch_name: String,
    /// Last update time, in milliseconds
    pub last_update: u64,
    /// Recently changed files (for sort order and animation)
    pub recently_changed: RecencyTracker,
    /// Scroll offset for diff view
    pub diff_scroll: usize,
    /// File list area for mouse events (x, y, width, height)
    pub file_list_area: Option<(u16, u16, u16, u16)>,
    /// Diff view area for mouse events (x, y, width, height)
    pub diff_view_area: Option<(u16, u16, u16, u16)>,
}

impl App {
    /// The selection points into the collection whenever it is non-empty,
    /// and the recency tracker holds at most one record per path.
    pub open spec fn wf(&self) -> bool {
        &&& self.recently_changed.wf()
        &&& (self.files@.len() == 0 || self.selected_index < self.files@.len())
    }

    /// A fresh application state over an initial snapshot.
    pub fn new(files: Vec<FileChange>, branch_name: String, now: u64) -> (r: App)
        ensures
            r.wf(),
            r.running,
            r.files@ == files@,
            r.selected_index == 0,
            r.active_panel == ActivePanel::FileList,
            r.branch_name == branch_name,
            r.last_update == now,
            r.recently_changed@ == Map::<Seq<char>, u64>::empty(),
            r.diff_scroll == 0,
            r.file_list_area is None,
            r.diff_view_area is None,
    {
        App {
            running: true,
            files,
            selected_index: 0,
            active_panel: ActivePanel::FileList,
            branch_name,
            last_update: now,
            recently_changed: RecencyTracker::new(),
            diff_scroll: 0,
            file_list_area: None,
            diff_view_area: None,
        }
    }

    pub fn is_running(&self) -> (r: bool)
        ensures
            r == self.running,
    {
        self.running
    }

    pub fn quit(&mut self)
        ensures
            !final(self).running,
            final(self).files == old(self).files,
            final(self).selected_index == old(self).selected_index,
            final(self).active_panel == old(self).active_panel,
            final(self).branch_name == old(self).branch_name,
            final(self).last_update == old(self).last_update,
            final(self).recently_changed == old(self).recently_changed,
            final(self).diff_scroll == old(self).diff_scroll,
            final(self).file_list_area == old(self).file_list_area,
            final(self).diff_view_area == old(self).diff_view_area,
    {
        self.running = false;
    }

    /// A timer tick: animation expiry is derived from the clock on read,
    /// and records are kept for stable sorting, so a tick changes nothing.
    pub fn tick(&mut self)
        ensures
            *final(self) == *old(self),
    {
    }

    /// Advance the selection, wrapping at the end; resets the diff scroll.
    pub fn select_next(&mut self)
        requires
            old(self).wf(),
        ensures
            final(self).wf(),
            old(self).files@.len() == 0 ==> *final(self) == *old(self),
            old(self).files@.len() > 0 ==> final(self).selected_index == (old(
                self,
            ).selected_index + 1) % (old(self).files@.len() as int) && final(self).diff_scroll
                == 0,
            final(self).files == old(self).files,
            final(self).running == old(self).running,
            final(self).active_panel == old(self).active_panel,
            final(self).branch_name == old(self).branch_name,
            final(self).last_update == old(self).last_update,
            final(self).recently_changed == old(self).recently_changed,
            final(self).file_list_area == old(self).file_list_area,
            final(self).diff_view_area == old(self).diff_view_area,
            old(self).files@.len() > 0 || final(self).diff_scroll == old(self).diff_scroll,
    {
        if self.files.len() > 0 {
            self.selected_index = (self.selected_index + 1) % self.files.len();
            self.diff_scroll = 0;
        }
    }

    /// Move the selection back, wrapping at the front; resets the diff
    /// scroll.
    pub fn select_previous(&mut self)
        requires
            old(self).wf(),
        ensures
            final(self).wf(),
            old(self).files@.len() == 0 ==> *final(self) == *old(self),
            old(self).files@.len() > 0 ==> final(self).selected_index == (if old(
                self,
            ).selected_index == 0 {
                old(self).files@.len() - 1
            } else {
                old(self).selected_index - 1
            }) && final(self).diff_scroll == 0,
            final(self).files == old(self).files,
            final(self).running == old(self).running,
            final(self).active_panel == old(self).active_panel,
            final(self).branch_name == old(self).branch_name,
            final(self).last_update == old(self).last_update,
            final(self).recently_changed == old(self).recently_changed,
            final(self).file_list_area == old(self).file_list_area,
            final(self).diff_view_area == old(self).diff_view_area,
            old(self).files@.len() > 0 || final(self).diff_scroll == old(self).diff_scroll,
    {
        if self.files.len() > 0 {
            if self.selected_index == 0 {
                self.selected_index = self.files.len() - 1;
            } else {
                self.selected_index = self.selected_index - 1;
            }
            self.diff_scroll = 0;
        }
    }

    /// Switch focus between the file list and the diff view.
    pub fn toggle_panel(&mut self)
        ensures
            final(self).active_panel == (match old(self).active_panel {
                ActivePanel::FileList => ActivePanel::DiffView,
                ActivePanel::DiffView => ActivePanel::FileList,
            }),
            final(self).files == old(self).files,
            final(self).running == old(self).running,
            final(self).selected_index == old(self).selected_index,
            final(self).branch_name == old(self).branch_name,
            final(self).last_update == old(self).last_update,
            final(self).recently_changed == old(self).recently_changed,
            final(self).diff_scroll == old(self).diff_scroll,
            final(self).file_list_area == old(self).file_list_area,
            final(self).diff_view_area == old(self).diff_view_area,
    {
        self.active_panel = match self.active_panel {
            ActivePanel::FileList => ActivePanel::DiffView,
            ActivePanel::DiffView => ActivePanel::FileList,
        };
    }

    /// What toggling the stage state of the selection asks of the backend:
    /// the selected entry's path and whether it is currently staged, or
    /// nothing when the collection is empty.
    pub fn toggle_stage(&self) -> (r: Option<(String, bool)>)
        requires
            self.wf(),
        ensures
            match r {
                Some(req) => self.files@.len() > 0 && self.selected_index < self.files@.len()
                    && req.0@ == self.files@[self.selected_index as int].path@ && req.1
                    == self.files@[self.selected_index as int].staged,
                None => self.files@.len() == 0,
            },
    {
        if self.selected_index < self.files.len() {
            let entry = &self.files[self.selected_index];
            Some((entry.path.clone(), entry.staged))
        } else {
            None
        }
    }

    pub fn scroll_diff_down(&mut self)
        ensures
            final(self).diff_scroll == (if old(self).diff_scroll < usize::MAX {
                old(self).diff_scroll + 1
            } else {
                old(self).diff_scroll as int
            }),
            final(self).files == old(self).files,
            final(self).running == old(self).running,
            final(self).selected_index == old(self).selected_index,
            final(self).active_panel == old(self).active_panel,
            final(self).branch_name == old(self).branch_name,
            final(self).last_update == old(self).last_update,
            final(self).recently_changed == old(self).recently_changed,
            final(self).file_list_area == old(self).file_list_area,
            final(self).diff_view_area == old(self).diff_view_area,
    {
        if self.diff_scroll < usize::MAX {
            self.diff_scroll = self.diff_scroll + 1;
        }
    }

    pub fn scroll_diff_up(&mut self)
        ensures
            final(self).diff_scroll == (if old(self).diff_scroll > 0 {
                old(self).diff_scroll - 1
            } else {
                0int
            }),
            final(self).files == old(self).files,
            final(self).running == old(self).running,
            final(self).selected_index == old(self).selected_index,
            final(self).active_panel == old(self).active_panel,
            final(self).branch_name == old(self).branch_name,
            final(self).last_update == old(self).last_update,
            final(self).recently_changed == old(self).recently_changed,
            final(self).file_list_area == old(self).file_list_area,
            final(self).diff_view_area == old(self).diff_view_area,
    {
        if self.diff_scroll > 0 {
            self.diff_scroll = self.diff_scroll - 1;
        }
    }

    /// The currently selected entry, when the collection is non-empty.
    pub fn selected_file(&self) -> (r: Option<&FileChange>)
        requires
            self.wf(),
        ensures
            match r {
                Some(f) => self.files@.len() > 0 && self.selected_index < self.files@.len() && *f
                    == self.files@[self.selected_index as int],
                None => self.files@.len() == 0,
            },
    {
        if self.selected_index < self.files.len() {
            Some(&self.files[self.selected_index])
        } else {
            None
        }
    }

    /// Whether the path was touched less than the animation window ago.
    pub fn is_recently_changed(&self, path: &str, now: u64) -> (r: bool)
        requires
            self.wf(),
        ensures
            r == is_active_spec(self.recently_changed@, path@, now),
    {
        self.recently_changed.is_active(path, now)
    }

    /// Animation progress for a recently changed file, in permille of the
    /// window; absent once the window has passed.
    pub fn get_change_progress(&self, path: &str, now: u64) -> (r: Option<u64>)
        requires
            self.wf(),
        ensures
            r == progress_spec(self.recently_changed@, path@, now),
    {
        self.recently_changed.progress(path, now)
    }

    /// Whole seconds since the last completed refresh.
    pub fn seconds_since_update(&self, now: u64) -> (r: u64)
        ensures
            r == crate::recency::elapsed_ms(self.last_update, now) / 1000,
    {
        if now >= self.last_update {
            (now - self.last_update) / 1000
        } else {
            0
        }
    }

    pub fn staged_count(&self) -> (r: usize)
        ensures
            r == staged_count_spec(self.files@),
    {
        let mut count: usize = 0;
        let mut i: usize = 0;
        proof {
            assert(self.files@.take(0) =~= Seq::empty());
        }
        while i < self.files.len()
            invariant
                0 <= i <= self.files@.len(),
                count <= i,
                count == staged_count_spec(self.files@.take(i as int)),
            decreases self.files@.len() - i,
        {
            proof {
                assert(self.files@.take(i + 1).drop_last() =~= self.files@.take(i as int));
                assert(self.files@.take(i + 1).last() == self.files@[i as int]);
            }
            if self.files[i].staged {
                count = count + 1;
            }
            i = i + 1;
        }
        proof {
            assert(self.files@.take(self.files@.len() as int) =~= self.files@);
        }
        count
    }

    pub fn modified_count(&self) -> (r: usize)
        ensures
            r == modified_count_spec(self.files@),
    {
        let mut count: usize = 0;
        let mut i: usize = 0;
        proof {
            assert(self.files@.take(0) =~= Seq::empty());
        }
        while i < self.files.len()
            invariant
                0 <= i <= self.files@.len(),
                count <= i,
                count == modified_count_spec(self.files@.take(i as int)),
            decreases self.files@.len() - i,
        {
            proof {
                assert(self.files@.take(i + 1).drop_last() =~= self.files@.take(i as int));
                assert(self.files@.take(i + 1).last() == self.files@[i as int]);
            }
            let is_mod = match self.files[i].status {
                FileStatus::Modified => true,
                _ => false,
            };
            if is_mod && !self.files[i].staged {
                count = count + 1;
            }
            i = i + 1;
        }
        proof {
            assert(self.files@.take(self.files@.len() as int) =~= self.files@);
        }
        count
    }

    pub fn untracked_count(&self) -> (r: usize)
        ensures
            r == untracked_count_spec(self.files@),
    {
        let mut count: usize = 0;
        let mut i: usize = 0;
        proof {
            assert(self.files@.take(0) =~= Seq::empty());
        }
        while i < self.files.len()
            invariant
                0 <= i <= self.files@.len(),
                count <= i,
                count == untracked_count_spec(self.files@.take(i as int)),
            decreases self.files@.len() - i,
        {
            proof {
                assert(self.files@.take(i + 1).drop_last() =~= self.files@.take(i as int));
                assert(self.files@.take(i + 1).last() == self.files@[i as int]);
            }
            let is_untracked = match self.files[i].status {
                FileStatus::Untracked => true,
                _ => false,
            };
            if is_untracked {
                count = count + 1;
            }
            i = i + 1;
        }
        proof {
            assert(self.files@.take(self.files@.len() as int) =~= self.files@);
        }
        count
    }

    /// Manual refresh: reconcile a fresh snapshot with no known touched
    /// paths. It still re-sorts, prunes and re-derives the selection, but
    /// marks no new recency record.
    pub fn refresh_status(&mut self, snapshot: Vec<FileChange>, branch_name: String, now: u64)
        requires
            old(self).wf(),
        ensures
            final(self).wf(),
            final(self).recently_changed@ == old(self).recently_changed@.restrict(
                paths_of(snapshot@),
            ),
            final(self).files@ == insertion_sort(
                rec_leq(final(self).recently_changed@),
                snapshot@,
            ),
            sorted_by(final(self).files@, rec_leq(final(self).recently_changed@)),
            final(self).files@.to_multiset() == snapshot@.to_multiset(),
            final(self).selected_index == select_spec(
                old(self).files@,
                old(self).selected_index as int,
                final(self).files@,
            ),
            selection_stable(
                old(self).files@,
                old(self).selected_index as int,
                final(self).files@,
                final(self).selected_index as int,
            ),
            forall|p: Seq<char>|
                final(self).recently_changed@.contains_key(p) ==> paths_of(snapshot@).contains(p),
            final(self).branch_name == branch_name,
            final(self).last_update == now,
            final(self).running == old(self).running,
            final(self).active_panel == old(self).active_panel,
            final(self).diff_scroll == old(self).diff_scroll,
            final(self).file_list_area == old(self).file_list_area,
            final(self).diff_view_area == old(self).diff_view_area,
    {
        let no_paths: Vec<String> = Vec::new();
        self.refresh_status_with_paths(snapshot, branch_name, no_paths, now);
    }

    /// Reconcile a fresh snapshot with prior UI state.
    ///
    /// The previously selected path is captured first; every touched path
    /// then marks the first matching snapshot entry in the recency
    /// tracker; records for paths absent from the snapshot are pruned; the
    /// snapshot is re-sorted so that touched entries lead, most recent
    /// first, and untouched entries follow in path order; and the
    /// selection is re-derived by path, falling back to clamping the old
    /// index. If the previously selected path is present in the new
    /// collection, it stays selected.
    pub fn refresh_status_with_paths(
        &mut self,
        snapshot: Vec<FileChange>,
        branch_name: String,
        changed_paths: Vec<String>,
        now: u64,
    )
        requires
            old(self).wf(),
        ensures
            final(self).wf(),
            final(self).recently_changed@ == reconciled_map(
                old(self).recently_changed@,
                snapshot@,
                changed_paths@,
                now,
            ),
            final(self).files@ == insertion_sort(
                rec_leq(final(self).recently_changed@),
                snapshot@,
            ),
            sorted_by(final(self).files@, rec_leq(final(self).recently_changed@)),
            final(self).files@.to_multiset() == snapshot@.to_multiset(),
            final(self).selected_index == select_spec(
                old(self).files@,
                old(self).selected_index as int,
                final(self).files@,
            ),
            selection_stable(
                old(self).files@,
                old(self).selected_index as int,
                final(self).files@,
                final(self).selected_index as int,
            ),
            forall|p: Seq<char>|
                final(self).recently_changed@.contains_key(p) ==> paths_of(snapshot@).contains(p),
            final(self).branch_name == branch_name,
            final(self).last_update == now,
            final(self).running == old(self).running,
            final(self).active_panel == old(self).active_panel,
            final(self).diff_scroll == old(self).diff_scroll,
            final(self).file_list_area == old(self).file_list_area,
            final(self).diff_view_area == old(self).diff_view_area,
    {
        let ghost old_files_view = old(self).files@;
        let ghost old_sel: int = old(self).selected_index as int;
        let ghost m0 = old(self).recently_changed@;

        // capture the selected path before anything moves
        let selected_path: Option<String> = if self.selected_index < self.files.len() {
            Some(self.files[self.selected_index].path.clone())
        } else {
            None
        };

        // replace the collection wholesale and record the refresh instant
        self.files = snapshot;
        self.branch_name = branch_name;
        self.last_update = now;
        let ghost snap = self.files@;

        // mark every touched path that names a snapshot entry
        let mut pi: usize = 0;
        while pi < changed_paths.len()
            invariant
                0 <= pi <= changed_paths@.len(),
                self.recently_changed.wf(),
                self.recently_changed@ == touch_all(m0, snap, changed_paths@.take(pi as int), now),
                self.files@ == snap,
                self.branch_name == branch_name,
                self.last_update == now,
                self.running == old(self).running,
                self.active_panel == old(self).active_panel,
                self.selected_index == old(self).selected_index,
                self.diff_scroll == old(self).diff_scroll,
                self.file_list_area == old(self).file_list_area,
                self.diff_view_area == old(self).diff_view_area,
            decreases changed_paths@.len() - pi,
        {
            proof {
                assert(changed_paths@.take(pi + 1).drop_last() =~= changed_paths@.take(pi as int));
                assert(changed_paths@.take(pi + 1).last() == changed_paths@[pi as int]);
            }
            let touched: &str = changed_paths[pi].as_str();
            match find_match(&self.files, touched) {
                Some(k) => {
                    proof {
                        lemma_first_match_index_from_scan(snap, touched@, k as int);
                    }
                    let entry_path: String = self.files[k].path.clone();
                    self.recently_changed.touch(entry_path.as_str(), now);
                },
                None => {
                    proof {
                        lemma_first_match_index_from_scan(snap, touched@, snap.len() as int);
                    }
                },
            }
            pi = pi + 1;
        }
        proof {
            assert(changed_paths@.take(changed_paths@.len() as int) =~= changed_paths@);
        }

        // prune records for paths that vanished from the snapshot
        self.recently_changed.prune(&self.files);

        // re-sort: touched entries first, newest leading, the rest by path
        self.recently_changed.sort_entries(&mut self.files);

        // re-derive the selection by path, clamping as a fallback
        match &selected_path {
            Some(sp) => {
                match find_path(&self.files, sp.as_str()) {
                    Some(idx) => {
                        proof {
                            lemma_first_path_index_from_scan(self.files@, sp@, idx as int);
                        }
                        self.selected_index = idx;
                    },
                    None => {
                        proof {
                            lemma_first_path_index_from_scan(
                                self.files@,
                                sp@,
                                self.files@.len() as int,
                            );
                        }
                    },
                }
            },
            None => {},
        }
        if self.selected_index >= self.files.len() && self.files.len() > 0 {
            self.selected_index = self.files.len() - 1;
        }
        proof {
            if old_sel < old_files_view.len() && paths_of(self.files@).contains(
                old_files_view[old_sel].path@,
            ) {
                lemma_first_path_index_props(self.files@, old_files_view[old_sel].path@);
            }
        }
    }
}

} // verus!
