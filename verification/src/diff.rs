//! Diff text helpers: classifying unified-diff lines for coloring, the
//! prefix that each raw diff line origin carries, and scroll clamping for
//! the diff view.

use vstd::prelude::*;
use crate::strutil::{is_prefix, starts_with_str};

verus! {

/// What a line of unified-diff text is, for coloring.
#[derive(Debug, Clone, Copy, PartialEq, Eq, Structural)]
pub enum DiffLineKind {
    /// A `@@` hunk header.
    Hunk,
    /// An added line: `+`, but not a `+++` file header.
    Addition,
    /// A removed line: `-`, but not a `---` file header.
    Deletion,
    /// Anything else.
    Context,
}

/// How one line of diff text classifies for coloring.
pub open spec fn diff_line_kind_spec(line: Seq<char>) -> DiffLineKind {
    if is_prefix(line, "@@"@) {
        DiffLineKind::Hunk
    } else if is_prefix(line, "+"@) && !is_prefix(line, "+++"@) {
        DiffLineKind::Addition
    } else if is_prefix(line, "-"@) && !is_prefix(line, "---"@) {
        DiffLineKind::Deletion
    } else {
        DiffLineKind::Context
    }
}

/// Classify one line of unified-diff text for coloring.
pub fn classify_diff_line(line: &str) -> (r: DiffLineKind)
    ensures
        r == diff_line_kind_spec(line@),
{
    if starts_with_str(line, "@@") {
        DiffLineKind::Hunk
    } else if starts_with_str(line, "+") && !starts_with_str(line, "+++") {
        DiffLineKind::Addition
    } else if starts_with_str(line, "-") && !starts_with_str(line, "---") {
        DiffLineKind::Deletion
    } else {
        DiffLineKind::Context
    }
}

/// The prefix that a raw diff line origin marker contributes to the
/// printed diff: content markers pass through, headers contribute none.
pub open spec fn origin_prefix_spec(origin: char) -> Seq<char> {
    if origin == '+' {
        "+"@
    } else if origin == '-' {
        "-"@
    } else if origin == ' ' {
        " "@
    } else if origin == '@' {
        "@"@
    } else if origin == '>' {
        ">"@
    } else if origin == '<' {
        "<"@
    } else {
        ""@
    }
}

/// The prefix printed for a raw diff line origin marker.
pub fn origin_prefix(origin: char) -> (r: &'static str)
    ensures
        r@ == origin_prefix_spec(origin),
{
    if origin == '+' {
        "+"
    } else if origin == '-' {
        "-"
    } else if origin == ' ' {
        " "
    } else if origin == '@' {
        "@"
    } else if origin == '>' {
        ">"
    } else if origin == '<' {
        "<"
    } else {
        ""
    }
}

/// The scroll offset clamped so that the last visible line never scrolls
/// past the end of the diff.
pub open spec fn clamp_scroll_spec(offset: int, total_lines: int, visible_lines: int) -> int {
    let max_scroll = if total_lines >= visible_lines {
        total_lines - visible_lines
    } else {
        0int
    };
    if offset < max_scroll {
        offset
    } else {
        max_scroll
    }
}

/// Clamp a scroll offset into the valid range for a diff of
/// `total_lines` with `visible_lines` of room.
pub fn clamp_scroll(offset: usize, total_lines: usize, visible_lines: usize) -> (r: usize)
    ensures
        r == clamp_scroll_spec(offset as int, total_lines as int, visible_lines as int),
{
    let max_scroll: usize = if total_lines >= visible_lines {
        total_lines - visible_lines
    } else {
        0
    };
    if offset < max_scroll {
        offset
    } else {
        max_scroll
    }
}

/// How far through the diff the scroll position is, in percent.
pub fn scroll_percent(offset: usize, max_scroll: usize) -> (r: usize)
    requires
        offset <= max_scroll,
    ensures
        max_scroll > 0 ==> r == offset * 100 / (max_scroll as int),
        max_scroll == 0 ==> r == 0,
        r <= 100,
    {
    if max_scroll > 0 {
        let wide: u128 = offset as u128 * 100 / max_scroll as u128;
        proof {
            vstd::arithmetic::div_mod::lemma_div_is_ordered(
                offset as int * 100,
                max_scroll as int * 100,
                max_scroll as int,
            );
            vstd::arithmetic::div_mod::lemma_div_multiples_vanish(100, max_scroll as int);
            assert(max_scroll as int * 100 == 100 * max_scroll as int);
            assert(offset as int * 100 / (max_scroll as int) <= 100);
        }
        wide as usize
    } else {
        0
    }
}

} // verus!
