//! Display helpers for the file list: splitting a path into file name and
//! directory, fitting both into the available width, and the status marker
//! with its color.

use vstd::prelude::*;
use vstd::string::{StringExecFns, StrSliceExecFns};
use crate::color::{Color, Theme};
use crate::status::{symbol_spec, FileStatus};
use crate::strutil::substring;

verus! {

/// What a path splits into: the part after the last separator, and the
/// part before it; a path without separators is all file name.
pub open spec fn split_path_spec(p: Seq<char>) -> (Seq<char>, Seq<char>) {
    match p.index_of_last('/') {
        Some(i) => (p.skip(i + 1), p.take(i)),
        None => (p, Seq::empty()),
    }
}

/// Split a path into (filename, directory) at the last separator.
pub fn split_path(path: &str) -> (r: (String, String))
    ensures
        (r.0@, r.1@) == split_path_spec(path@),
{
    let len: usize = path.unicode_len();
    let mut i: usize = len;
    loop
        invariant
            len == path@.len(),
            0 <= i <= len,
            forall|j: int| i <= j < len ==> path@[j] != '/',
        decreases i,
    {
        if i == 0 {
            proof {
                path@.index_of_last_ensures('/');
                if path@.contains('/') {
                    let k = choose|k: int| 0 <= k < path@.len() && path@[k] == '/';
                    assert(false);
                }
            }
            let filename = crate::strutil::str_to_string(path);
            let directory = String::new();
            proof {
                assert(directory@ =~= Seq::<char>::empty());
            }
            return (filename, directory);
        }
        if path.get_char(i - 1) == '/' {
            proof {
                path@.index_of_last_ensures('/');
                assert(path@.contains('/')) by {
                    assert(path@[i - 1] == '/');
                }
            }
            let filename = substring(path, i, len);
            let directory = substring(path, 0, i - 1);
            proof {
                assert(path@.subrange(i as int, len as int) =~= path@.skip(i - 1 + 1));
                assert(path@.subrange(0, i - 1) =~= path@.take(i - 1));
            }
            return (filename, directory);
        }
        i = i - 1;
    }
}

/// How a file name and directory fit into the available width, measured in
/// characters: a file name that alone overflows is truncated with an
/// ellipsis; otherwise the directory is shown whole when it fits after the
/// file name and a separating space, truncated from the front with an
/// ellipsis when enough room remains, and dropped when not.
pub open spec fn format_spec(f: Seq<char>, d: Seq<char>, avail: int) -> (Seq<char>, Seq<char>) {
    if f.len() >= avail {
        if avail > 3 {
            (f.take(avail - 3) + "..."@, Seq::empty())
        } else {
            (f.take(if avail < f.len() { avail } else { f.len() as int }), Seq::empty())
        }
    } else if d.len() == 0 {
        (f, Seq::empty())
    } else {
        let dir_avail = avail - f.len() - 1;
        if dir_avail == 0 {
            (f, Seq::empty())
        } else if d.len() <= dir_avail {
            (f, d)
        } else if dir_avail > 4 {
            (f, "..."@ + d.skip(d.len() - (dir_avail - 3)))
        } else {
            (f, Seq::empty())
        }
    }
}

/// Fit a file name and its directory into `available` characters.
pub fn format_filename_and_dir(filename: &str, directory: &str, available: usize) -> (r: (
    String,
    String,
))
    ensures
        (r.0@, r.1@) == format_spec(filename@, directory@, available as int),
{
    let filename_len: usize = filename.unicode_len();
    if filename_len >= available {
        if available > 3 {
            let head = substring(filename, 0, available - 3);
            let shown = head.concat("...");
            proof {
                assert(filename@.subrange(0, available - 3) =~= filename@.take(available - 3));
            }
            return (shown, String::new());
        } else {
            let end: usize = if available < filename_len {
                available
            } else {
                filename_len
            };
            let shown = substring(filename, 0, end);
            proof {
                assert(filename@.subrange(0, end as int) =~= filename@.take(end as int));
            }
            return (shown, String::new());
        }
    }
    let fname = crate::strutil::str_to_string(filename);
    let dir_len: usize = directory.unicode_len();
    if dir_len == 0 {
        return (fname, String::new());
    }
    let dir_avail: usize = available - filename_len - 1;
    if dir_avail == 0 {
        return (fname, String::new());
    }
    if dir_len <= dir_avail {
        return (fname, crate::strutil::str_to_string(directory));
    }
    if dir_avail > 4 {
        let visible: usize = dir_avail - 3;
        let start: usize = dir_len - visible;
        let tail = substring(directory, start, dir_len);
        let shown_dir = String::from_str("...").concat(tail.as_str());
        proof {
            assert(directory@.subrange(start as int, dir_len as int) =~= directory@.skip(
                start as int,
            ));
        }
        return (fname, shown_dir);
    }
    (fname, String::new())
}

/// The color for a status marker: staged modifications in the staged
/// color, unstaged ones in the modified color, and each other status kind
/// in its own color.
pub open spec fn status_color_spec(status: FileStatus, staged: bool) -> Color {
    match status {
        FileStatus::Modified => if staged {
            Color::Rgb(166, 227, 161)
        } else {
            Color::Rgb(249, 226, 175)
        },
        FileStatus::Added => Color::Rgb(137, 180, 250),
        FileStatus::Deleted => Color::Rgb(243, 139, 168),
        FileStatus::Renamed => Color::Rgb(203, 166, 247),
        FileStatus::Untracked => Color::Rgb(108, 112, 134),
        FileStatus::Conflicted => Color::Rgb(245, 194, 231),
    }
}

/// The status marker and its display color for one entry.
pub fn get_status_display(status: &FileStatus, staged: bool) -> (r: (&'static str, Color))
    ensures
        r.0@ == symbol_spec(*status),
        r.1 == status_color_spec(*status, staged),
{
    let color = match status {
        FileStatus::Modified => {
            if staged {
                Theme::staged()
            } else {
                Theme::modified()
            }
        },
        FileStatus::Added => Theme::added(),
        FileStatus::Deleted => Theme::deleted(),
        FileStatus::Renamed => Theme::renamed(),
        FileStatus::Untracked => Theme::untracked(),
        FileStatus::Conflicted => Theme::conflicted(),
    };
    (status.symbol(), color)
}

} // verus!
