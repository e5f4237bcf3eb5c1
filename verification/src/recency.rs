//! The recency tracker: a bounded-lifetime record of which path was touched
//! when. It is the source of truth for the pulsing highlight and for the
//! recency-first sort, and is viewed in contracts as a map from path to the
//! instant of the last touch.

use vstd::prelude::*;
use vstd::map::*;
use vstd::relations::sorted_by;
use crate::sorting::{insertion_sort, key_path_le, lemma_insert_sorted_at, lemma_insertion_sort_ensures, lemma_key_path_le_total, lemma_key_path_le_trans};
use crate::status::FileChange;
use crate::strutil::str_eq;

verus! {

/// How long a touch keeps its visual effect, in milliseconds.
pub const RECENT_WINDOW_MS: u64 = 800;

/// One tracked "last touched" fact: a path and the instant of the touch,
/// in milliseconds.
#[derive(Debug)]
pub struct RecencyRecord {
    pub path: String,
    pub touched_at: u64,
}

/// The map that a sequence of records denotes: later records override
/// earlier ones with the same path.
pub open spec fn rec_map(s: Seq<RecencyRecord>) -> Map<Seq<char>, u64>
    decreases s.len(),
{
    if s.len() == 0 {
        Map::empty()
    } else {
        rec_map(s.drop_last()).insert(s.last().path@, s.last().touched_at)
    }
}

/// At most one record per path.
pub open spec fn distinct_paths(s: Seq<RecencyRecord>) -> bool {
    forall|i: int, j: int| 0 <= i < j < s.len() ==> s[i].path@ != s[j].path@
}

/// The set of paths that appear in a snapshot.
pub open spec fn paths_of(files: Seq<FileChange>) -> Set<Seq<char>> {
    Set::new(|p: Seq<char>| exists|i: int| 0 <= i < files.len() && #[trigger] files[i].path@ == p)
}

/// The timestamp key that a recency map assigns to a path, if any.
pub open spec fn key_of(m: Map<Seq<char>, u64>, p: Seq<char>) -> Option<u64> {
    if m.contains_key(p) {
        Some(m[p])
    } else {
        None
    }
}

/// The reconciliation ordering under a recency map: touched entries first,
/// most recently touched leading, untouched entries after in path order.
pub open spec fn rec_le(m: Map<Seq<char>, u64>, a: FileChange, b: FileChange) -> bool {
    key_path_le(key_of(m, a.path@), a.path@, key_of(m, b.path@), b.path@)
}

/// The reconciliation ordering as a relation value, for use with the sort.
pub open spec fn rec_leq(m: Map<Seq<char>, u64>) -> spec_fn(FileChange, FileChange) -> bool {
    |a: FileChange, b: FileChange| rec_le(m, a, b)
}

/// The reconciliation ordering relates any two entries and is transitive.
pub proof fn lemma_rec_leq_properties(m: Map<Seq<char>, u64>)
    ensures
        forall|a: FileChange, b: FileChange| #[trigger] rec_leq(m)(a, b) || rec_leq(m)(b, a),
        forall|a: FileChange, b: FileChange, c: FileChange|
            #[trigger] rec_leq(m)(a, b) && #[trigger] rec_leq(m)(b, c) ==> rec_leq(m)(a, c),
{
    assert forall|a: FileChange, b: FileChange| #[trigger] rec_leq(m)(a, b) || rec_leq(m)(b, a) by {
        lemma_key_path_le_total(key_of(m, a.path@), a.path@, key_of(m, b.path@), b.path@);
    }
    assert forall|a: FileChange, b: FileChange, c: FileChange|
        #[trigger] rec_leq(m)(a, b) && #[trigger] rec_leq(m)(b, c) implies rec_leq(m)(a, c) by {
        lemma_key_path_le_trans(
            key_of(m, a.path@),
            a.path@,
            key_of(m, b.path@),
            b.path@,
            key_of(m, c.path@),
            c.path@,
        );
    }
}

/// Recency sort correctness, read off any collection sorted under a
/// recency map: an entry without a record never precedes one with a
/// record, more recently touched entries come first among record bearers,
/// and entries without records stand in ascending path order.
pub proof fn lemma_recency_sort_order(
    m: Map<Seq<char>, u64>,
    files: Seq<FileChange>,
    i: int,
    j: int,
)
    requires
        sorted_by(files, rec_leq(m)),
        0 <= i < j < files.len(),
    ensures
        m.contains_key(files[j].path@) ==> m.contains_key(files[i].path@),
        m.contains_key(files[i].path@) && m.contains_key(files[j].path@) ==> m[files[i].path@]
            >= m[files[j].path@],
        !m.contains_key(files[i].path@) && !m.contains_key(files[j].path@) ==> crate::strutil::lex_le(
            files[i].path@,
            files[j].path@,
        ),
{
    assert(rec_leq(m)(files[i], files[j]));
}

/// A path is in the denoted map exactly when some record carries it.
proof fn lemma_rec_map_contains(s: Seq<RecencyRecord>, p: Seq<char>)
    ensures
        rec_map(s).contains_key(p) <==> exists|i: int|
            0 <= i < s.len() && #[trigger] s[i].path@ == p,
    decreases s.len(),
{
    if s.len() == 0 {
    } else {
        lemma_rec_map_contains(s.drop_last(), p);
        if s.last().path@ == p {
            assert(s[s.len() - 1].path@ == p);
        } else {
            if rec_map(s).contains_key(p) {
                let i = choose|i: int|
                    0 <= i < s.drop_last().len() && #[trigger] s.drop_last()[i].path@ == p;
                assert(s[i].path@ == p);
            }
            if exists|i: int| 0 <= i < s.len() && #[trigger] s[i].path@ == p {
                let i = choose|i: int| 0 <= i < s.len() && #[trigger] s[i].path@ == p;
                assert(i < s.len() - 1);
                assert(s.drop_last()[i].path@ == p);
            }
        }
    }
}

/// A record with no later record for the same path gives the map's value.
proof fn lemma_rec_map_value(s: Seq<RecencyRecord>, i: int)
    requires
        0 <= i < s.len(),
        forall|j: int| i < j < s.len() ==> s[j].path@ != s[i].path@,
    ensures
        rec_map(s).contains_key(s[i].path@),
        rec_map(s)[s[i].path@] == s[i].touched_at,
    decreases s.len(),
{
    if i == s.len() - 1 {
    } else {
        assert(forall|j: int|
            i < j < s.drop_last().len() ==> s.drop_last()[j].path@ != s.drop_last()[i].path@);
        lemma_rec_map_value(s.drop_last(), i);
        assert(s.last().path@ != s[i].path@);
    }
}

/// Appending a record updates the denoted map at its path.
proof fn lemma_rec_map_push(s: Seq<RecencyRecord>, rec: RecencyRecord)
    ensures
        rec_map(s.push(rec)) == rec_map(s).insert(rec.path@, rec.touched_at),
{
    assert(s.push(rec).drop_last() =~= s);
    assert(s.push(rec).last() == rec);
}

/// Removing one record changes the denoted map at no other path.
proof fn lemma_rec_map_remove(s: Seq<RecencyRecord>, i: int)
    requires
        distinct_paths(s),
        0 <= i < s.len(),
    ensures
        distinct_paths(s.remove(i)),
        forall|k: int| 0 <= k < s.remove(i).len() ==> #[trigger] s.remove(i)[k].path@ != s[i].path@,
        forall|q: Seq<char>|
            q != s[i].path@ ==> #[trigger] rec_map(s.remove(i)).is_equal_on_key(rec_map(s), q),
{
    let t = s.remove(i);
    assert forall|a: int, b: int| 0 <= a < b < t.len() implies t[a].path@ != t[b].path@ by {
        if b < i {
            assert(t[a] == s[a] && t[b] == s[b]);
        } else if a < i {
            assert(t[a] == s[a] && t[b] == s[b + 1]);
        } else {
            assert(t[a] == s[a + 1] && t[b] == s[b + 1]);
        }
    }
    assert forall|k: int| 0 <= k < t.len() implies #[trigger] t[k].path@ != s[i].path@ by {
        if k < i {
            assert(t[k] == s[k]);
        } else {
            assert(t[k] == s[k + 1]);
        }
    }
    assert forall|q: Seq<char>| q != s[i].path@ implies #[trigger] rec_map(t).is_equal_on_key(
        rec_map(s),
        q,
    ) by {
        lemma_rec_map_contains(t, q);
        lemma_rec_map_contains(s, q);
        if rec_map(t).contains_key(q) {
            let k = choose|k: int| 0 <= k < t.len() && #[trigger] t[k].path@ == q;
            lemma_rec_map_value(t, k);
            let ko: int = if k < i {
                k
            } else {
                k + 1
            };
            assert(s[ko] == t[k]);
            lemma_rec_map_value(s, ko);
        } else if rec_map(s).contains_key(q) {
            let k = choose|k: int| 0 <= k < s.len() && #[trigger] s[k].path@ == q;
            assert(k != i);
            let kt: int = if k < i {
                k
            } else {
                k - 1
            };
            assert(t[kt] == s[k]);
            assert(rec_map(t).contains_key(q));
        }
    }
}

/// The tracked records; at most one per path.
#[derive(Debug)]
pub struct RecencyTracker {
    pub records: Vec<RecencyRecord>,
}

impl View for RecencyTracker {
    type V = Map<Seq<char>, u64>;

    open spec fn view(&self) -> Map<Seq<char>, u64> {
        rec_map(self.records@)
    }
}

/// Milliseconds elapsed between a touch and `now`, saturating at zero for
/// touches that lie in the future.
pub open spec fn elapsed_ms(touched_at: u64, now: u64) -> int {
    if now >= touched_at {
        now - touched_at
    } else {
        0
    }
}

/// A touch is still visually active while less than the window has elapsed.
pub open spec fn is_active_spec(m: Map<Seq<char>, u64>, p: Seq<char>, now: u64) -> bool {
    m.contains_key(p) && elapsed_ms(m[p], now) < RECENT_WINDOW_MS
}

/// Progress of an active touch through the window, in permille; absent for
/// paths that are not active.
pub open spec fn progress_spec(m: Map<Seq<char>, u64>, p: Seq<char>, now: u64) -> Option<u64> {
    if is_active_spec(m, p, now) {
        Some((elapsed_ms(m[p], now) * 1000 / (RECENT_WINDOW_MS as int)) as u64)
    } else {
        None
    }
}

impl RecencyTracker {
    /// At most one record per path.
    pub open spec fn wf(&self) -> bool {
        distinct_paths(self.records@)
    }

    /// An empty tracker.
    pub fn new() -> (r: RecencyTracker)
        ensures
            r.wf(),
            r@ == Map::<Seq<char>, u64>::empty(),
    {
        RecencyTracker { records: Vec::new() }
    }

    /// Index of the record for `path`, if one exists.
    fn find_record(&self, path: &str) -> (r: Option<usize>)
        ensures
            match r {
                Some(i) => i < self.records@.len() && self.records@[i as int].path@ == path@,
                None => forall|i: int|
                    0 <= i < self.records@.len() ==> self.records@[i].path@ != path@,
            },
    {
        let mut i: usize = 0;
        loop
            invariant
                0 <= i <= self.records@.len(),
                forall|k: int| 0 <= k < i ==> self.records@[k].path@ != path@,
            decreases self.records@.len() - i,
        {
            if i == self.records.len() {
                return None;
            }
            if str_eq(self.records[i].path.as_str(), path) {
                return Some(i);
            }
            i = i + 1;
        }
    }

    /// Replace-or-insert: after a touch the map holds `now` for `path` and
    /// is unchanged elsewhere.
    pub fn touch(&mut self, path: &str, now: u64)
        requires
            old(self).wf(),
        ensures
            final(self).wf(),
            final(self)@ == old(self)@.insert(path@, now),
    {
        let ghost orig = self.records@;
        match self.find_record(path) {
            Some(i) => {
                proof {
                    lemma_rec_map_remove(orig, i as int);
                }
                self.records.remove(i);
            },
            None => {
                proof {
                    assert forall|q: Seq<char>| q != path@ implies #[trigger] rec_map(
                        self.records@,
                    ).is_equal_on_key(rec_map(orig), q) by {}
                }
            },
        }
        let ghost mid = self.records@;
        // at this point no record carries `path`, paths are distinct, and
        // the denoted map agrees with the starting one away from `path`
        proof {
            assert(distinct_paths(mid));
            assert(forall|k: int| 0 <= k < mid.len() ==> #[trigger] mid[k].path@ != path@);
            assert(forall|q: Seq<char>|
                q != path@ ==> #[trigger] rec_map(mid).is_equal_on_key(rec_map(orig), q));
        }
        let record = RecencyRecord { path: crate::strutil::str_to_string(path), touched_at: now };
        self.records.push(record);
        proof {
            let fin = self.records@;
            assert(fin.drop_last() =~= mid);
            assert(fin.last().path@ == path@);
            assert forall|a: int, b: int| 0 <= a < b < fin.len() implies fin[a].path@
                != fin[b].path@ by {
                if b == fin.len() - 1 {
                    assert(fin[a] == mid[a]);
                } else {
                    assert(fin[a] == mid[a] && fin[b] == mid[b]);
                }
            }
            assert(rec_map(fin) == rec_map(mid).insert(path@, now));
            let lhs = rec_map(fin);
            let rhs = rec_map(orig).insert(path@, now);
            let pv = path@;
            assert_maps_equal!(lhs, rhs, q => {
                if q != pv {
                    assert(rec_map(mid).is_equal_on_key(rec_map(orig), q));
                }
            });
        }
    }

    /// Remove every record whose path does not appear in the given
    /// snapshot: the map afterwards is the old one restricted to the
    /// snapshot's paths.
    pub fn prune(&mut self, files: &Vec<FileChange>)
        requires
            old(self).wf(),
        ensures
            final(self).wf(),
            final(self)@ == old(self)@.restrict(paths_of(files@)),
    {
        let ghost orig = self.records@;
        let ghost pset = paths_of(files@);
        let ghost total: int = orig.len() as int;
        let mut kept: Vec<RecencyRecord> = Vec::new();
        while self.records.len() > 0
            invariant
                distinct_paths(orig),
                pset == paths_of(files@),
                orig.len() == total,
                self.records@.len() <= total,
                self.records@ =~= orig.skip(total - self.records@.len() as int),
                distinct_paths(kept@),
                forall|k: int| 0 <= k < kept@.len() ==> exists|j: int|
                    0 <= j < total - self.records@.len() as int && orig[j] == #[trigger] kept@[k],
                rec_map(kept@) == rec_map(orig.take(total - self.records@.len() as int)).restrict(
                    pset,
                ),
            decreases self.records@.len(),
        {
            let ghost done = total - self.records@.len() as int;
            let ghost kept0 = kept@;
            let r = self.records.remove(0);
            proof {
                assert(r == orig[done]);
                assert(self.records@ =~= orig.skip(done + 1));
                assert(orig.take(done + 1).drop_last() =~= orig.take(done));
                assert(orig.take(done + 1).last() == orig[done]);
            }
            if contains_path(files, r.path.as_str()) {
                proof {
                    // the new record's path is not yet among the kept ones
                    assert forall|k: int| 0 <= k < kept0.len() implies kept0[k].path@
                        != orig[done].path@ by {
                        let j = choose|j: int| 0 <= j < done && orig[j] == kept0[k];
                        assert(orig[j].path@ != orig[done].path@);
                    }
                    lemma_rec_map_push(kept0, orig[done]);
                    lemma_restrict_insert_in(
                        rec_map(orig.take(done)),
                        pset,
                        orig[done].path@,
                        orig[done].touched_at,
                    );
                }
                kept.push(r);
                proof {
                    assert(kept@.drop_last() =~= kept0);
                    assert forall|k: int| 0 <= k < kept@.len() implies exists|j: int|
                        0 <= j < done + 1 && orig[j] == #[trigger] kept@[k] by {
                        if k < kept@.len() - 1 {
                            assert(kept@[k] == kept0[k]);
                            let j = choose|j: int| 0 <= j < done && orig[j] == kept0[k];
                            assert(orig[j] == kept@[k]);
                        } else {
                            assert(orig[done] == kept@[k]);
                        }
                    }
                }
            } else {
                proof {
                    lemma_restrict_insert_out(
                        rec_map(orig.take(done)),
                        pset,
                        orig[done].path@,
                        orig[done].touched_at,
                    );
                }
            }
        }
        proof {
            assert(orig.take(total) =~= orig);
        }
        self.records = kept;
    }

    /// Whether the record for `path` is still visually active at `now`.
    pub fn is_active(&self, path: &str, now: u64) -> (r: bool)
        requires
            self.wf(),
        ensures
            r == is_active_spec(self@, path@, now),
    {
        match self.find_record(path) {
            Some(i) => {
                proof {
                    lemma_rec_map_value(self.records@, i as int);
                }
                let t = self.records[i].touched_at;
                let e: u64 = if now >= t {
                    now - t
                } else {
                    0
                };
                e < RECENT_WINDOW_MS
            },
            None => {
                proof {
                    lemma_rec_map_contains(self.records@, path@);
                }
                false
            },
        }
    }

    /// Progress of the record for `path` through the animation window at
    /// `now`, in permille; absent when the path is not active.
    pub fn progress(&self, path: &str, now: u64) -> (r: Option<u64>)
        requires
            self.wf(),
        ensures
            r == progress_spec(self@, path@, now),
    {
        match self.find_record(path) {
            Some(i) => {
                proof {
                    lemma_rec_map_value(self.records@, i as int);
                }
                let t = self.records[i].touched_at;
                let e: u64 = if now >= t {
                    now - t
                } else {
                    0
                };
                if e < RECENT_WINDOW_MS {
                    Some(e * 1000 / RECENT_WINDOW_MS)
                } else {
                    None
                }
            },
            None => {
                proof {
                    lemma_rec_map_contains(self.records@, path@);
                }
                None
            },
        }
    }

    /// The recorded touch instant for `path`, if any.
    pub fn get_time(&self, path: &str) -> (r: Option<u64>)
        requires
            self.wf(),
        ensures
            r == key_of(self@, path@),
    {
        match self.find_record(path) {
            Some(i) => {
                proof {
                    lemma_rec_map_value(self.records@, i as int);
                }
                Some(self.records[i].touched_at)
            },
            None => {
                proof {
                    lemma_rec_map_contains(self.records@, path@);
                }
                None
            },
        }
    }

    /// The sort comparator of the reconciliation: whether `a` sorts at or
    /// before `b` under this tracker's recency map.
    pub fn compare(&self, a: &FileChange, b: &FileChange) -> (r: bool)
        requires
            self.wf(),
        ensures
            r == rec_le(self@, *a, *b),
    {
        let ka = self.get_time(a.path.as_str());
        let kb = self.get_time(b.path.as_str());
        match (ka, kb) {
            (Some(ta), Some(tb)) => ta >= tb,
            (Some(_), None) => true,
            (None, Some(_)) => false,
            (None, None) => crate::strutil::str_le(a.path.as_str(), b.path.as_str()),
        }
    }

    /// Position where the insertion sort places `x` into `out` under this
    /// tracker's ordering.
    fn insert_pos(&self, out: &Vec<FileChange>, x: &FileChange) -> (j: usize)
        requires
            self.wf(),
        ensures
            0 <= j <= out@.len(),
            forall|k: int| 0 <= k < j ==> #[trigger] rec_leq(self@)(out@[k], *x),
            j == out@.len() || !rec_leq(self@)(out@[j as int], *x),
    {
        let mut j: usize = 0;
        loop
            invariant
                self.wf(),
                0 <= j <= out@.len(),
                forall|k: int| 0 <= k < j ==> #[trigger] rec_leq(self@)(out@[k], *x),
            decreases out@.len() - j,
        {
            if j == out.len() {
                return j;
            }
            if !self.compare(&out[j], x) {
                return j;
            }
            j = j + 1;
        }
    }

    /// Sort a snapshot under this tracker's ordering: entries with a
    /// recency record first, most recently touched leading; entries
    /// without one after, in ascending path order. The result is the
    /// stable insertion sort of the input, so equal keys keep their
    /// snapshot order.
    pub fn sort_entries(&self, files: &mut Vec<FileChange>)
        requires
            self.wf(),
        ensures
            final(files)@ == insertion_sort(rec_leq(self@), old(files)@),
            sorted_by(final(files)@, rec_leq(self@)),
            final(files)@.to_multiset() == old(files)@.to_multiset(),
            final(files)@.len() == old(files)@.len(),
    {
        proof {
            lemma_rec_leq_properties(self@);
        }
        let ghost leq = rec_leq(self@);
        let ghost input = old(files)@;
        let ghost total: int = input.len() as int;
        let mut out: Vec<FileChange> = Vec::new();
        while files.len() > 0
            invariant
                self.wf(),
                input.len() == total,
                files@.len() <= total,
                files@ =~= input.skip(total - files@.len() as int),
                out@ == insertion_sort(leq, input.take(total - files@.len() as int)),
                leq == rec_leq(self@),
            decreases files@.len(),
        {
            let ghost done = total - files@.len() as int;
            let x = files.remove(0);
            proof {
                assert(x == input[done]);
                assert(files@ =~= input.skip(done + 1));
            }
            let j: usize = self.insert_pos(&out, &x);
            proof {
                lemma_insert_sorted_at(leq, x, out@, j as int);
                assert(input.take(done + 1).drop_last() =~= input.take(done));
                assert(input.take(done + 1).last() == x);
            }
            out.insert(j, x);
        }
        proof {
            assert(input.take(total) =~= input);
            lemma_rec_leq_properties(self@);
            lemma_insertion_sort_ensures(leq, input);
        }
        *files = out;
    }
}

/// Whether some entry of the snapshot carries exactly this path.
pub fn contains_path(files: &Vec<FileChange>, path: &str) -> (r: bool)
    ensures
        r == paths_of(files@).contains(path@),
{
    let mut i: usize = 0;
    loop
        invariant
            0 <= i <= files@.len(),
            forall|k: int| 0 <= k < i ==> files@[k].path@ != path@,
        decreases files@.len() - i,
    {
        if i == files.len() {
            return false;
        }
        if str_eq(files[i].path.as_str(), path) {
            return true;
        }
        i = i + 1;
    }
}

/// Restricting after inserting a key that is in the kept set is the same
/// as inserting after restricting.
proof fn lemma_restrict_insert_in(m: Map<Seq<char>, u64>, s: Set<Seq<char>>, p: Seq<char>, t: u64)
    requires
        s.contains(p),
    ensures
        m.insert(p, t).restrict(s) == m.restrict(s).insert(p, t),
{
    let lhs = m.insert(p, t).restrict(s);
    let rhs = m.restrict(s).insert(p, t);
    assert_maps_equal!(lhs, rhs, q => {});
}

/// Inserting a key outside the kept set disappears under restriction.
proof fn lemma_restrict_insert_out(m: Map<Seq<char>, u64>, s: Set<Seq<char>>, p: Seq<char>, t: u64)
    requires
        !s.contains(p),
    ensures
        m.insert(p, t).restrict(s) == m.restrict(s),
{
    let lhs = m.insert(p, t).restrict(s);
    let rhs = m.restrict(s);
    assert_maps_equal!(lhs, rhs, q => {});
}

} // verus!
