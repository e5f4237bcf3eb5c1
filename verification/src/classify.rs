//! Classification of raw filesystem notifications: bookkeeping noise is
//! ignored, index/HEAD writes become a content-free metadata signal, and
//! everything else becomes a working-tree change with a repository-relative
//! path. A debounce window's worth of raw paths coalesces into at most one
//! change-batch of deduplicated paths.

use vstd::prelude::*;
use crate::strutil::{contains_str, ends_with_str, is_prefix, is_substring, is_suffix, starts_with_str, str_eq, str_to_string, substring};
use vstd::string::StrSliceExecFns;

verus! {

/// The quiescence window over which raw notifications accumulate before
/// they flush as one batch, in milliseconds.
pub const DEBOUNCE_WINDOW_MS: u64 = 200;

/// What one raw filesystem path event means.
#[derive(Debug, PartialEq, Eq)]
pub enum Classification {
    /// Version-control bookkeeping or editor noise; contributes nothing.
    Ignore,
    /// The index or HEAD moved: status may have changed, no path is known.
    MetadataChange,
    /// A working-tree file changed, named relative to the repository root.
    WorkingTreeChange(String),
}

/// Paths inside bookkeeping directories unrelated to content, and editor
/// swap/backup files.
pub open spec fn is_ignored(p: Seq<char>) -> bool {
    ||| is_substring(p, ".git/objects"@)
    ||| is_substring(p, ".git/logs"@)
    ||| is_substring(p, ".git/FETCH_HEAD"@)
    ||| is_substring(p, "/target/"@)
    ||| is_substring(p, "/.git/hooks"@)
    ||| is_suffix(p, ".swp"@)
    ||| is_suffix(p, ".swo"@)
    ||| is_suffix(p, "~"@)
}

/// Paths referencing the index file or the HEAD pointer.
pub open spec fn is_metadata(p: Seq<char>) -> bool {
    is_substring(p, ".git/index"@) || is_substring(p, ".git/HEAD"@)
}

/// The classification ignores the path: bookkeeping noise, or some other
/// file inside the version-control directory.
pub open spec fn classify_ignores(p: Seq<char>) -> bool {
    is_ignored(p) || (!is_metadata(p) && is_substring(p, "/.git/"@))
}

/// The classification reports a metadata change.
pub open spec fn classify_is_metadata(p: Seq<char>) -> bool {
    !is_ignored(p) && is_metadata(p)
}

/// The classification reports a working-tree change.
pub open spec fn classify_is_wt(p: Seq<char>) -> bool {
    !is_ignored(p) && !is_metadata(p) && !is_substring(p, "/.git/"@)
}

/// The path made relative to the repository root: the root prefix and its
/// separator are stripped when they are there; a path outside the root is
/// used unmodified.
pub open spec fn relativize(p: Seq<char>, root: Seq<char>) -> Seq<char> {
    let r = if root.len() > 0 && root.last() == '/' {
        root.drop_last()
    } else {
        root
    };
    if p == r {
        Seq::empty()
    } else if r.len() < p.len() && is_prefix(p, r) && p[r.len() as int] == '/' {
        p.skip(r.len() as int + 1)
    } else {
        p
    }
}

/// Strip the repository root from a path, when it is a prefix.
fn relativize_path(path: &str, root: &str) -> (r: String)
    ensures
        r@ == relativize(path@, root@),
{
    let root_len: usize = root.unicode_len();
    let trimmed: &str = if root_len > 0 && root.get_char(root_len - 1) == '/' {
        root.substring_char(0, root_len - 1)
    } else {
        root
    };
    proof {
        assert(root@.drop_last() =~= root@.subrange(0, root@.len() - 1));
    }
    let t_len: usize = trimmed.unicode_len();
    if str_eq(path, trimmed) {
        let empty = String::new();
        proof {
            assert(empty@ =~= Seq::<char>::empty());
        }
        return empty;
    }
    let path_len: usize = path.unicode_len();
    if t_len < path_len && starts_with_str(path, trimmed) && path.get_char(t_len) == '/' {
        let rel = substring(path, t_len + 1, path_len);
        proof {
            assert(path@.subrange(t_len + 1, path@.len() as int) =~= path@.skip(t_len + 1));
        }
        rel
    } else {
        str_to_string(path)
    }
}

/// Classify one raw filesystem path event. Bookkeeping noise and files
/// inside the version-control directory are ignored; index and HEAD
/// writes signal a metadata change; any other path is a working-tree
/// change, made relative to the repository root.
pub fn classify_path(path: &str, repo_root: &str) -> (r: Classification)
    ensures
        r is Ignore <==> classify_ignores(path@),
        r is MetadataChange <==> classify_is_metadata(path@),
        r is WorkingTreeChange <==> classify_is_wt(path@),
        r matches Classification::WorkingTreeChange(rel) ==> rel@ == relativize(
            path@,
            repo_root@,
        ),
{
    let ignored = contains_str(path, ".git/objects") || contains_str(path, ".git/logs")
        || contains_str(path, ".git/FETCH_HEAD") || contains_str(path, "/target/")
        || contains_str(path, "/.git/hooks") || ends_with_str(path, ".swp") || ends_with_str(
        path,
        ".swo",
    ) || ends_with_str(path, "~");
    if ignored {
        return Classification::Ignore;
    }
    if contains_str(path, ".git/index") || contains_str(path, ".git/HEAD") {
        return Classification::MetadataChange;
    }
    if contains_str(path, "/.git/") {
        return Classification::Ignore;
    }
    Classification::WorkingTreeChange(relativize_path(path, repo_root))
}

/// The deduplicated relative paths that one debounce window's raw events
/// contribute, in first-occurrence order.
pub open spec fn batch_paths(paths: Seq<String>, root: Seq<char>) -> Seq<Seq<char>>
    decreases paths.len(),
{
    if paths.len() == 0 {
        Seq::empty()
    } else {
        let prev = batch_paths(paths.drop_last(), root);
        if classify_is_wt(paths.last()@) {
            let rel = relativize(paths.last()@, root);
            if prev.contains(rel) {
                prev
            } else {
                prev.push(rel)
            }
        } else {
            prev
        }
    }
}

/// Whether any raw event of the window classifies as more than noise.
pub open spec fn batch_signal(paths: Seq<String>) -> bool {
    exists|k: int|
        0 <= k < paths.len() && (classify_is_metadata(#[trigger] paths[k]@) || classify_is_wt(
            paths[k]@,
        ))
}

/// The coalesced paths of a window hold no duplicates.
proof fn lemma_batch_paths_distinct(paths: Seq<String>, root: Seq<char>)
    ensures
        forall|i: int, j: int|
            0 <= i < j < batch_paths(paths, root).len() ==> batch_paths(paths, root)[i]
                != batch_paths(paths, root)[j],
    decreases paths.len(),
{
    if paths.len() == 0 {
    } else {
        lemma_batch_paths_distinct(paths.drop_last(), root);
        let prev = batch_paths(paths.drop_last(), root);
        let whole = batch_paths(paths, root);
        if classify_is_wt(paths.last()@) {
            let rel = relativize(paths.last()@, root);
            if !prev.contains(rel) {
                assert forall|i: int, j: int| 0 <= i < j < whole.len() implies whole[i]
                    != whole[j] by {
                    if j == whole.len() - 1 {
                        assert(whole[i] == prev[i]);
                        assert(prev.contains(prev[i]));
                    }
                }
            }
        }
    }
}

/// Whether the batch already holds this relative path.
fn batch_contains(batch: &Vec<String>, rel: &str) -> (r: bool)
    ensures
        r == batch@.map_values(|s: String| s@).contains(rel@),
{
    let mut i: usize = 0;
    loop
        invariant
            0 <= i <= batch@.len(),
            forall|k: int| 0 <= k < i ==> batch@[k]@ != rel@,
        decreases batch@.len() - i,
    {
        if i == batch.len() {
            proof {
                let mapped = batch@.map_values(|s: String| s@);
                if mapped.contains(rel@) {
                    let k = choose|k: int| 0 <= k < mapped.len() && mapped[k] == rel@;
                    assert(batch@[k]@ == rel@);
                }
            }
            return false;
        }
        if str_eq(batch[i].as_str(), rel) {
            proof {
                let mapped = batch@.map_values(|s: String| s@);
                assert(mapped[i as int] == rel@);
            }
            return true;
        }
        i = i + 1;
    }
}

/// Coalesce one debounce window's raw events into at most one change-batch.
///
/// Every event runs through the classifier; when at least one is more than
/// noise the window yields exactly one batch holding the deduplicated
/// working-tree paths in first-occurrence order — possibly empty, when only
/// metadata changed. A window of nothing but noise yields no batch.
pub fn build_change_batch(paths: &Vec<String>, repo_root: &str) -> (r: Option<Vec<String>>)
    ensures
        match r {
            Some(batch) => batch_signal(paths@) && batch@.map_values(|s: String| s@)
                == batch_paths(paths@, repo_root@),
            None => !batch_signal(paths@),
        },
        r is Some ==> forall|i: int, j: int|
            0 <= i < j < batch_paths(paths@, repo_root@).len() ==> batch_paths(
                paths@,
                repo_root@,
            )[i] != batch_paths(paths@, repo_root@)[j],
{
    let ghost root = repo_root@;
    let mut found_signal = false;
    let mut batch: Vec<String> = Vec::new();
    let mut i: usize = 0;
    proof {
        assert(paths@.take(0) =~= Seq::empty());
        assert(batch@.map_values(|s: String| s@) =~= Seq::empty());
    }
    while i < paths.len()
        invariant
            0 <= i <= paths@.len(),
            root == repo_root@,
            batch@.map_values(|s: String| s@) == batch_paths(paths@.take(i as int), root),
            found_signal == batch_signal(paths@.take(i as int)),
        decreases paths@.len() - i,
    {
        proof {
            assert(paths@.take(i + 1).drop_last() =~= paths@.take(i as int));
            assert(paths@.take(i + 1).last() == paths@[i as int]);
        }
        let ghost prev_mapped = batch@.map_values(|s: String| s@);
        match classify_path(paths[i].as_str(), repo_root) {
            Classification::Ignore => {
                proof {
                    if batch_signal(paths@.take(i + 1)) {
                        let k = choose|k: int|
                            0 <= k < paths@.take(i + 1).len() && (classify_is_metadata(
                                #[trigger] paths@.take(i + 1)[k]@,
                            ) || classify_is_wt(paths@.take(i + 1)[k]@));
                        assert(k < i + 1);
                        if k < i {
                            assert(paths@.take(i as int)[k] == paths@[k]);
                            assert(batch_signal(paths@.take(i as int)));
                        }
                    }
                }
            },
            Classification::MetadataChange => {
                found_signal = true;
                proof {
                    assert(paths@.take(i + 1)[i as int] == paths@[i as int]);
                    assert(batch_signal(paths@.take(i + 1)));
                }
            },
            Classification::WorkingTreeChange(rel) => {
                found_signal = true;
                proof {
                    assert(paths@.take(i + 1)[i as int] == paths@[i as int]);
                    assert(batch_signal(paths@.take(i + 1)));
                }
                if !batch_contains(&batch, rel.as_str()) {
                    let ghost batch0 = batch@;
                    batch.push(rel);
                    proof {
                        assert(batch@ == batch0.push(batch@.last()));
                        assert(batch@.map_values(|s: String| s@) =~= prev_mapped.push(
                            batch@.last()@,
                        ));
                    }
                }
            },
        }
        i = i + 1;
    }
    proof {
        assert(paths@.take(paths@.len() as int) =~= paths@);
        lemma_batch_paths_distinct(paths@, root);
    }
    if found_signal {
        Some(batch)
    } else {
        None
    }
}

} // verus!
