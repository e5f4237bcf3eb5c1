//! File-type icons: a glyph and color looked up by file name, with the hex
//! color string parsed into a plain RGB value.

use vstd::prelude::*;
use vstd::string::StrSliceExecFns;
use crate::color::Color;

verus! {

/// A hexadecimal digit, in either case.
pub open spec fn is_hex_digit(c: char) -> bool {
    ||| (48 <= c as u32 && c as u32 <= 57)
    ||| (97 <= c as u32 && c as u32 <= 102)
    ||| (65 <= c as u32 && c as u32 <= 70)
}

/// The value of a hexadecimal digit.
pub open spec fn hex_digit_val(c: char) -> u32 {
    let v = c as u32;
    if 48 <= v && v <= 57 {
        (v - 48) as u32
    } else if 97 <= v && v <= 102 {
        (v - 87) as u32
    } else if 65 <= v && v <= 70 {
        (v - 55) as u32
    } else {
        0
    }
}

/// The value of a two-digit hexadecimal pair; a malformed pair falls back
/// to the default gray channel.
pub open spec fn pair_val(c1: char, c2: char) -> u32 {
    if is_hex_digit(c1) && is_hex_digit(c2) {
        (hex_digit_val(c1) * 16 + hex_digit_val(c2)) as u32
    } else {
        158
    }
}

/// The string with every leading `#` removed.
pub open spec fn strip_hashes(s: Seq<char>) -> Seq<char>
    decreases s.len(),
{
    if s.len() > 0 && s[0] == '#' {
        strip_hashes(s.drop_first())
    } else {
        s
    }
}

/// What a hex color string denotes: an RGB triple read two digits per
/// channel after the leading `#`s, or the default gray when the string is
/// not six digits long.
pub open spec fn hex_color_spec(s: Seq<char>) -> Color {
    let t = strip_hashes(s);
    if t.len() != 6 {
        Color::Rgb(158, 158, 158)
    } else {
        Color::Rgb(
            pair_val(t[0], t[1]) as u8,
            pair_val(t[2], t[3]) as u8,
            pair_val(t[4], t[5]) as u8,
        )
    }
}

/// A scan past the leading `#`s lands on the stripped remainder.
proof fn lemma_strip_hashes_at(s: Seq<char>, i: int)
    requires
        0 <= i <= s.len(),
        forall|k: int| 0 <= k < i ==> s[k] == '#',
        i == s.len() || s[i] != '#',
    ensures
        strip_hashes(s) == s.skip(i),
    decreases i,
{
    if i == 0 {
        assert(s.skip(0) =~= s);
    } else {
        assert(s[0] == '#');
        assert(forall|k: int| 0 <= k < i - 1 ==> #[trigger] s.drop_first()[k] == '#');
        lemma_strip_hashes_at(s.drop_first(), i - 1);
        assert(s.drop_first().skip(i - 1) =~= s.skip(i));
    }
}

/// The value of one hexadecimal digit character, if it is one.
fn hex_digit(c: char) -> (r: Option<u8>)
    ensures
        (r is Some) == is_hex_digit(c),
        r matches Some(d) ==> d == hex_digit_val(c) && d <= 15,
{
    let v: u32 = c as u32;
    if 48 <= v && v <= 57 {
        Some((v - 48) as u8)
    } else if 97 <= v && v <= 102 {
        Some((v - 87) as u8)
    } else if 65 <= v && v <= 70 {
        Some((v - 55) as u8)
    } else {
        None
    }
}

/// One color channel from two hex digit characters, falling back to the
/// default gray channel on a malformed pair.
fn hex_pair(c1: char, c2: char) -> (r: u8)
    ensures
        r == pair_val(c1, c2) as u8,
{
    match (hex_digit(c1), hex_digit(c2)) {
        (Some(a), Some(b)) => a * 16 + b,
        _ => 158,
    }
}

/// Parse a hex color string such as `#e44d26` (with or without the `#`)
/// into an RGB color; anything else yields the default gray.
pub fn parse_hex_color(hex: &str) -> (c: Color)
    ensures
        c == hex_color_spec(hex@),
{
    let len: usize = hex.unicode_len();
    let mut i: usize = 0;
    while i < len && hex.get_char(i) == '#'
        invariant
            len == hex@.len(),
            0 <= i <= len,
            forall|k: int| 0 <= k < i ==> hex@[k] == '#',
        decreases len - i,
    {
        i = i + 1;
    }
    proof {
        lemma_strip_hashes_at(hex@, i as int);
    }
    if len - i != 6 {
        return Color::Rgb(158, 158, 158);
    }
    let r = hex_pair(hex.get_char(i), hex.get_char(i + 1));
    let g = hex_pair(hex.get_char(i + 2), hex.get_char(i + 3));
    let b = hex_pair(hex.get_char(i + 4), hex.get_char(i + 5));
    proof {
        assert(hex@.skip(i as int)[0] == hex@[i as int]);
        assert(hex@.skip(i as int)[1] == hex@[i as int + 1]);
        assert(hex@.skip(i as int)[2] == hex@[i as int + 2]);
        assert(hex@.skip(i as int)[3] == hex@[i as int + 3]);
        assert(hex@.skip(i as int)[4] == hex@[i as int + 4]);
        assert(hex@.skip(i as int)[5] == hex@[i as int + 5]);
    }
    Color::Rgb(r, g, b)
}

/// File icon: a one-character glyph and a color keyed by the file's name
/// or extension.
#[derive(Debug)]
pub struct FileIcon {
    pub icon: String,
    pub color: Color,
}

/// Relies on devicons' `FileIcon::from`: a glyph character and a `#rrggbb`
/// color string from its static icon tables. Which table entry applies can
/// depend on the filesystem (an existing directory of the same name gets
/// the directory icon), so nothing is stated beyond the shape: the glyph
/// is a single character.
#[verifier::external_body]
fn dev_icon_lookup(filename: &str) -> (r: (String, String))
    ensures
        r.0@.len() == 1,
{
    let dev_icon = devicons::FileIcon::from(filename);
    (dev_icon.icon.to_string(), dev_icon.color.to_string())
}

impl FileIcon {
    /// The icon for a file name: the devicons glyph, with its hex color
    /// parsed into an RGB value.
    pub fn from_filename(filename: &str) -> (r: FileIcon)
        ensures
            r.icon@.len() == 1,
    {
        let looked_up = dev_icon_lookup(filename);
        let color = parse_hex_color(looked_up.1.as_str());
        FileIcon { icon: looked_up.0, color }
    }
}

} // verus!
