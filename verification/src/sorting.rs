//! A deterministic, stable insertion sort over status entries, stated as a
//! spec-level function so that every caller's result is pinned down exactly,
//! together with the ordering used throughout the library: known timestamps
//! first (newest leading), unknown timestamps after, ties by path.

use vstd::prelude::*;
use vstd::relations::sorted_by;
use crate::status::FileChange;
use crate::strutil::lex_le;

verus! {

/// The library's ordering on entries given each side's timestamp key:
/// an entry with a timestamp sorts before one without; two timestamps
/// order newest first; two entries without timestamps order by path.
pub open spec fn key_path_le(ka: Option<u64>, pa: Seq<char>, kb: Option<u64>, pb: Seq<char>) -> bool {
    match (ka, kb) {
        (Some(ta), Some(tb)) => ta >= tb,
        (Some(ta), None) => true,
        (None, Some(tb)) => false,
        (None, None) => lex_le(pa, pb),
    }
}

/// The key/path ordering relates any two entries.
pub proof fn lemma_key_path_le_total(ka: Option<u64>, pa: Seq<char>, kb: Option<u64>, pb: Seq<char>)
    ensures
        key_path_le(ka, pa, kb, pb) || key_path_le(kb, pb, ka, pa),
{
    if ka is None && kb is None {
        crate::strutil::lemma_lex_le_total(pa, pb);
    }
}

/// The key/path ordering is transitive.
pub proof fn lemma_key_path_le_trans(
    ka: Option<u64>,
    pa: Seq<char>,
    kb: Option<u64>,
    pb: Seq<char>,
    kc: Option<u64>,
    pc: Seq<char>,
)
    requires
        key_path_le(ka, pa, kb, pb),
        key_path_le(kb, pb, kc, pc),
    ensures
        key_path_le(ka, pa, kc, pc),
{
    if ka is None && kb is None && kc is None {
        crate::strutil::lemma_lex_le_trans(pa, pb, pc);
    }
}

/// Insertion of `x` into `l`, after every element that sorts at or before
/// it: the stable insertion step.
pub open spec fn insert_sorted(
    leq: spec_fn(FileChange, FileChange) -> bool,
    x: FileChange,
    l: Seq<FileChange>,
) -> Seq<FileChange>
    decreases l.len(),
{
    if l.len() == 0 {
        seq![x]
    } else if leq(l[0], x) {
        seq![l[0]] + insert_sorted(leq, x, l.drop_first())
    } else {
        seq![x] + l
    }
}

/// Stable insertion sort: each element of `l`, in order, inserted into the
/// sorted result of the elements before it.
pub open spec fn insertion_sort(
    leq: spec_fn(FileChange, FileChange) -> bool,
    l: Seq<FileChange>,
) -> Seq<FileChange>
    decreases l.len(),
{
    if l.len() == 0 {
        Seq::empty()
    } else {
        insert_sorted(leq, l.last(), insertion_sort(leq, l.drop_last()))
    }
}

/// Inserting adds exactly the new element.
pub proof fn lemma_insert_sorted_multiset(
    leq: spec_fn(FileChange, FileChange) -> bool,
    x: FileChange,
    l: Seq<FileChange>,
)
    ensures
        insert_sorted(leq, x, l).to_multiset() =~= l.to_multiset().insert(x),
        insert_sorted(leq, x, l).len() == l.len() + 1,
    decreases l.len(),
{
    broadcast use vstd::seq_lib::group_to_multiset_ensures;

    if l.len() == 0 {
        assert(insert_sorted(leq, x, l) =~= Seq::empty().push(x));
    } else if leq(l[0], x) {
        lemma_insert_sorted_multiset(leq, x, l.drop_first());
        let rest = insert_sorted(leq, x, l.drop_first());
        assert(insert_sorted(leq, x, l) =~= rest.insert(0, l[0]));
        assert(rest.insert(0, l[0]).to_multiset() =~= rest.to_multiset().insert(l[0]));
        assert(l =~= l.drop_first().insert(0, l[0]));
        assert(l.to_multiset() =~= l.drop_first().to_multiset().insert(l[0]));
    } else {
        assert(insert_sorted(leq, x, l) =~= l.insert(0, x));
        assert(l.insert(0, x).to_multiset() =~= l.to_multiset().insert(x));
    }
}

/// Inserting into a sorted sequence keeps it sorted, for any total and
/// transitive ordering.
pub proof fn lemma_insert_sorted_sorted(
    leq: spec_fn(FileChange, FileChange) -> bool,
    x: FileChange,
    l: Seq<FileChange>,
)
    requires
        sorted_by(l, leq),
        forall|a: FileChange, b: FileChange| #[trigger] leq(a, b) || leq(b, a),
        forall|a: FileChange, b: FileChange, c: FileChange|
            #[trigger] leq(a, b) && #[trigger] leq(b, c) ==> leq(a, c),
    ensures
        sorted_by(insert_sorted(leq, x, l), leq),
    decreases l.len(),
{
    if l.len() == 0 {
    } else if leq(l[0], x) {
        assert(sorted_by(l.drop_first(), leq));
        lemma_insert_sorted_sorted(leq, x, l.drop_first());
        let rest = insert_sorted(leq, x, l.drop_first());
        let whole = seq![l[0]] + rest;
        lemma_insert_sorted_multiset(leq, x, l.drop_first());
        broadcast use vstd::seq_lib::group_to_multiset_ensures;

        assert forall|i: int, j: int| 0 <= i < j < whole.len() implies #[trigger] leq(
            whole[i],
            whole[j],
        ) by {
            if i == 0 {
                // every element of `rest` is either x or from l.drop_first(),
                // and l[0] sorts at or before each
                assert(rest.to_multiset().contains(rest[j - 1]));
                if rest[j - 1] == x {
                } else {
                    assert(l.drop_first().to_multiset().contains(rest[j - 1]));
                    let k = choose|k: int|
                        0 <= k < l.drop_first().len() && l.drop_first()[k] == rest[j - 1];
                    assert(l[k + 1] == l.drop_first()[k]);
                    assert(leq(l[0], l[k + 1]));
                }
            } else {
                assert(leq(rest[i - 1], rest[j - 1]));
            }
        }
    } else {
        let whole = seq![x] + l;
        assert forall|i: int, j: int| 0 <= i < j < whole.len() implies #[trigger] leq(
            whole[i],
            whole[j],
        ) by {
            if i == 0 {
                if j == 1 {
                    assert(!leq(l[0], x));
                    assert(leq(x, l[0]));
                } else {
                    assert(!leq(l[0], x));
                    assert(leq(x, l[0]));
                    assert(leq(l[0], l[j - 1]));
                }
            } else {
                assert(leq(l[i - 1], l[j - 1]));
            }
        }
    }
}

/// The insertion sort returns a sorted permutation of its input, for any
/// total and transitive ordering.
pub proof fn lemma_insertion_sort_ensures(
    leq: spec_fn(FileChange, FileChange) -> bool,
    l: Seq<FileChange>,
)
    requires
        forall|a: FileChange, b: FileChange| #[trigger] leq(a, b) || leq(b, a),
        forall|a: FileChange, b: FileChange, c: FileChange|
            #[trigger] leq(a, b) && #[trigger] leq(b, c) ==> leq(a, c),
    ensures
        sorted_by(insertion_sort(leq, l), leq),
        insertion_sort(leq, l).to_multiset() =~= l.to_multiset(),
        insertion_sort(leq, l).len() == l.len(),
    decreases l.len(),
{
    broadcast use vstd::seq_lib::group_to_multiset_ensures;

    if l.len() == 0 {
    } else {
        lemma_insertion_sort_ensures(leq, l.drop_last());
        lemma_insert_sorted_sorted(leq, l.last(), insertion_sort(leq, l.drop_last()));
        lemma_insert_sorted_multiset(leq, l.last(), insertion_sort(leq, l.drop_last()));
        assert(l =~= l.drop_last().push(l.last()));
        assert(l.drop_last().push(l.last()).to_multiset() =~= l.drop_last().to_multiset().insert(
            l.last(),
        ));
    }
}

/// Where the scan of the exec insertion loop stops is exactly where the
/// spec-level insertion places the element.
pub proof fn lemma_insert_sorted_at(
    leq: spec_fn(FileChange, FileChange) -> bool,
    x: FileChange,
    l: Seq<FileChange>,
    j: int,
)
    requires
        0 <= j <= l.len(),
        forall|k: int| 0 <= k < j ==> #[trigger] leq(l[k], x),
        j == l.len() || !leq(l[j], x),
    ensures
        insert_sorted(leq, x, l) =~= l.insert(j, x),
    decreases l.len(),
{
    if l.len() == 0 {
        assert(insert_sorted(leq, x, l) =~= l.insert(0, x));
    } else if j == 0 {
        assert(!leq(l[0], x));
        assert(insert_sorted(leq, x, l) =~= l.insert(0, x));
    } else {
        assert(leq(l[0], x));
        assert(forall|k: int| 0 <= k < j - 1 ==> #[trigger] leq(l.drop_first()[k], x));
        lemma_insert_sorted_at(leq, x, l.drop_first(), j - 1);
        assert(insert_sorted(leq, x, l) =~= seq![l[0]] + l.drop_first().insert(j - 1, x));
        assert(seq![l[0]] + l.drop_first().insert(j - 1, x) =~= l.insert(j, x));
    }
}

/// The ordering used for a fresh snapshot: by filesystem modification time,
/// newest first, then by path for entries without one.
pub open spec fn mt_le(a: FileChange, b: FileChange) -> bool {
    key_path_le(a.modified_time, a.path@, b.modified_time, b.path@)
}

/// The snapshot ordering as a relation value, for use with the sort.
pub open spec fn mt_leq() -> spec_fn(FileChange, FileChange) -> bool {
    |a: FileChange, b: FileChange| mt_le(a, b)
}

/// The snapshot ordering relates any two entries and is transitive.
pub proof fn lemma_mt_leq_properties()
    ensures
        forall|a: FileChange, b: FileChange| #[trigger] mt_leq()(a, b) || mt_leq()(b, a),
        forall|a: FileChange, b: FileChange, c: FileChange|
            #[trigger] mt_leq()(a, b) && #[trigger] mt_leq()(b, c) ==> mt_leq()(a, c),
{
    assert forall|a: FileChange, b: FileChange| #[trigger] mt_leq()(a, b) || mt_leq()(b, a) by {
        lemma_key_path_le_total(a.modified_time, a.path@, b.modified_time, b.path@);
    }
    assert forall|a: FileChange, b: FileChange, c: FileChange|
        #[trigger] mt_leq()(a, b) && #[trigger] mt_leq()(b, c) implies mt_leq()(a, c) by {
        lemma_key_path_le_trans(
            a.modified_time,
            a.path@,
            b.modified_time,
            b.path@,
            c.modified_time,
            c.path@,
        );
    }
}

/// Exec comparison deciding `mt_le`.
fn mt_le_exec(a: &FileChange, b: &FileChange) -> (r: bool)
    ensures
        r == mt_le(*a, *b),
{
    match (a.modified_time, b.modified_time) {
        (Some(ta), Some(tb)) => ta >= tb,
        (Some(_), None) => true,
        (None, Some(_)) => false,
        (None, None) => crate::strutil::str_le(a.path.as_str(), b.path.as_str()),
    }
}

/// Position where the insertion sort places `x` into `out`: directly after
/// every element that sorts at or before it.
fn mt_insert_pos(out: &Vec<FileChange>, x: &FileChange) -> (j: usize)
    ensures
        0 <= j <= out@.len(),
        forall|k: int| 0 <= k < j ==> #[trigger] mt_leq()(out@[k], *x),
        j == out@.len() || !mt_leq()(out@[j as int], *x),
{
    let mut j: usize = 0;
    loop
        invariant
            0 <= j <= out@.len(),
            forall|k: int| 0 <= k < j ==> #[trigger] mt_leq()(out@[k], *x),
        decreases out@.len() - j,
    {
        if j == out.len() {
            return j;
        }
        if !mt_le_exec(&out[j], x) {
            return j;
        }
        j = j + 1;
    }
}

/// Sort a fresh snapshot by modification time, newest first; entries
/// without a known modification time follow, in ascending path order.
/// The result is the stable insertion sort of the input, so equal keys
/// keep their snapshot order.
pub fn sort_by_modified_time(files: Vec<FileChange>) -> (r: Vec<FileChange>)
    ensures
        r@ == insertion_sort(mt_leq(), files@),
        sorted_by(r@, mt_leq()),
        r@.to_multiset() == files@.to_multiset(),
        r@.len() == files@.len(),
{
    proof {
        lemma_mt_leq_properties();
    }
    let ghost leq = mt_leq();
    let ghost input = files@;
    let ghost total: int = input.len() as int;
    let mut rest = files;
    let mut out: Vec<FileChange> = Vec::new();
    while rest.len() > 0
        invariant
            input.len() == total,
            rest@.len() <= total,
            rest@ =~= input.skip(total - rest@.len() as int),
            out@ == insertion_sort(leq, input.take(total - rest@.len() as int)),
            leq == mt_leq(),
        decreases rest@.len(),
    {
        let ghost done = total - rest@.len() as int;
        let x = rest.remove(0);
        proof {
            assert(x == input[done]);
            assert(rest@ =~= input.skip(done + 1));
        }
        let j: usize = mt_insert_pos(&out, &x);
        proof {
            lemma_insert_sorted_at(leq, x, out@, j as int);
            assert(input.take(done + 1).drop_last() =~= input.take(done));
            assert(input.take(done + 1).last() == x);
        }
        out.insert(j, x);
    }
    proof {
        assert(input.take(total) =~= input);
        lemma_mt_leq_properties();
        lemma_insertion_sort_ensures(leq, input);
    }
    out
}

} // verus!
