//! Terminal colors as plain RGB values, the pulse-brightness curve that
//! drives the recently-touched highlight, and linear color interpolation.

use vstd::prelude::*;

verus! {

/// A terminal color: either a named palette entry or a 24-bit RGB value.
#[derive(Clone, Copy, Debug, PartialEq, Eq, Structural)]
pub enum Color {
    Black,
    Red,
    Green,
    Yellow,
    Blue,
    Magenta,
    Cyan,
    White,
    Gray,
    Rgb(u8, u8, u8),
}

/// Catppuccin-inspired color theme.
pub struct Theme;

impl Theme {
    pub fn staged() -> (c: Color)
        ensures
            c == (Color::Rgb(166, 227, 161)),
    {
        Color::Rgb(166, 227, 161)
    }

    pub fn modified() -> (c: Color)
        ensures
            c == (Color::Rgb(249, 226, 175)),
    {
        Color::Rgb(249, 226, 175)
    }

    pub fn added() -> (c: Color)
        ensures
            c == (Color::Rgb(137, 180, 250)),
    {
        Color::Rgb(137, 180, 250)
    }

    pub fn deleted() -> (c: Color)
        ensures
            c == (Color::Rgb(243, 139, 168)),
    {
        Color::Rgb(243, 139, 168)
    }

    pub fn untracked() -> (c: Color)
        ensures
            c == (Color::Rgb(108, 112, 134)),
    {
        Color::Rgb(108, 112, 134)
    }

    pub fn renamed() -> (c: Color)
        ensures
            c == (Color::Rgb(203, 166, 247)),
    {
        Color::Rgb(203, 166, 247)
    }

    pub fn conflicted() -> (c: Color)
        ensures
            c == (Color::Rgb(245, 194, 231)),
    {
        Color::Rgb(245, 194, 231)
    }

    pub fn background() -> (c: Color)
        ensures
            c == (Color::Rgb(30, 30, 46)),
    {
        Color::Rgb(30, 30, 46)
    }

    pub fn surface() -> (c: Color)
        ensures
            c == (Color::Rgb(49, 50, 68)),
    {
        Color::Rgb(49, 50, 68)
    }

    pub fn overlay() -> (c: Color)
        ensures
            c == (Color::Rgb(69, 71, 90)),
    {
        Color::Rgb(69, 71, 90)
    }

    pub fn text() -> (c: Color)
        ensures
            c == (Color::Rgb(205, 214, 244)),
    {
        Color::Rgb(205, 214, 244)
    }

    pub fn subtext() -> (c: Color)
        ensures
            c == (Color::Rgb(166, 173, 200)),
    {
        Color::Rgb(166, 173, 200)
    }

    pub fn border() -> (c: Color)
        ensures
            c == (Color::Rgb(88, 91, 112)),
    {
        Color::Rgb(88, 91, 112)
    }

    pub fn accent() -> (c: Color)
        ensures
            c == (Color::Rgb(137, 180, 250)),
    {
        Color::Rgb(137, 180, 250)
    }

    pub fn highlight() -> (c: Color)
        ensures
            c == (Color::Rgb(180, 190, 254)),
    {
        Color::Rgb(180, 190, 254)
    }

    pub fn diff_add() -> (c: Color)
        ensures
            c == (Color::Rgb(166, 227, 161)),
    {
        Color::Rgb(166, 227, 161)
    }

    pub fn diff_del() -> (c: Color)
        ensures
            c == (Color::Rgb(243, 139, 168)),
    {
        Color::Rgb(243, 139, 168)
    }

    pub fn diff_hunk() -> (c: Color)
        ensures
            c == (Color::Rgb(137, 180, 250)),
    {
        Color::Rgb(137, 180, 250)
    }

    pub fn flash_bright() -> (c: Color)
        ensures
            c == (Color::Rgb(255, 230, 150)),
    {
        Color::Rgb(255, 230, 150)
    }

    pub fn flash_dim() -> (c: Color)
        ensures
            c == (Color::Rgb(180, 160, 100)),
    {
        Color::Rgb(180, 160, 100)
    }

    pub fn flash_bg() -> (c: Color)
        ensures
            c == (Color::Rgb(80, 70, 50)),
    {
        Color::Rgb(80, 70, 50)
    }
}

pub(crate) proof fn lemma_scale_le(x: int, f: int)
    requires
        0 <= x,
        0 <= f <= 1000,
    ensures
        x * f / 1000 <= x,
{
    assert(x * f <= 1000 * x) by (nonlinear_arith)
        requires 0 <= x && f <= 1000;
    vstd::arithmetic::div_mod::lemma_div_is_ordered(x * f, 1000 * x, 1000);
    vstd::arithmetic::div_mod::lemma_div_multiples_vanish(x, 1000);
}

/// Quadratic approximation of the positive half wave of the sine, scaled to
/// permille: the input sweeps half a turn, the result rises from 0 to 1000
/// and back to 0.
pub open spec fn half_wave(t: int) -> int {
    2 * t * (500 - t) / 125
}

proof fn lemma_half_wave_bounds(t: int)
    requires
        0 <= t <= 500,
    ensures
        0 <= half_wave(t) <= 1000,
{
    assert(0 <= 2 * t * (500 - t) <= 125000) by (nonlinear_arith)
        requires 0 <= t <= 500;
    vstd::arithmetic::div_mod::lemma_div_is_ordered(2 * t * (500 - t), 125000, 125);
    vstd::arithmetic::div_mod::lemma_div_pos_is_pos(2 * t * (500 - t), 125);
}

/// Sine of an angle given in permille of a full turn, scaled to permille:
/// the result lies in [-1000, 1000] and is 0 at angle 0.
pub open spec fn sine_permille(t: int) -> int {
    if t <= 500 {
        half_wave(t)
    } else {
        -half_wave(t - 500)
    }
}

/// The sine shifted and scaled into [0, 1000]: `(sine + 1000) / 2`.
pub(crate) fn raised_sine(t: u64) -> (h: u64)
    requires
        t < 1000,
    ensures
        h == (sine_permille(t as int) + 1000) / 2,
        h <= 1000,
        t == 0 ==> h == 500,
{
    if t <= 500 {
        proof {
            lemma_half_wave_bounds(t as int);
            if t == 0 {
                assert(2 * t * (500 - t) == 0) by (nonlinear_arith)
                    requires t == 0;
            }
        }
        let w: u64 = 2 * t * (500 - t) / 125;
        (w + 1000) / 2
    } else {
        let u: u64 = t - 500;
        proof {
            lemma_half_wave_bounds(u as int);
        }
        let w: u64 = 2 * u * (500 - u) / 125;
        (1000 - w) / 2
    }
}

/// The pulse-brightness curve for the recently-touched highlight, in
/// permille. Over the animation window the highlight oscillates two and a
/// half times while its amplitude decays linearly to zero.
pub open spec fn pulse_brightness(progress: int) -> int {
    let t = (progress * 5 / 2) % 1000;
    (sine_permille(t) + 1000) / 2 * (1000 - progress) / 1000
}

/// Brightness of the pulse animation at `progress` permille of the window.
///
/// The brightness always stays within [0, 1000], starts at exactly half
/// intensity, and is bounded by the remaining part of the window, so it
/// decays to zero as the animation ends.
pub fn calculate_pulse_brightness(progress: u64) -> (b: u64)
    requires
        progress <= 1000,
    ensures
        b == pulse_brightness(progress as int),
        b <= 1000,
        b <= 1000 - progress,
        progress == 0 ==> b == 500,
{
    let t: u64 = (progress * 5 / 2) % 1000;
    let half: u64 = raised_sine(t);
    proof {
        assert(half * (1000 - progress) <= 1000000) by (nonlinear_arith)
            requires half <= 1000 && progress <= 1000;
        lemma_scale_le((1000 - progress) as int, half as int);
        assert(half * (1000 - progress) == (1000 - progress) * half) by (nonlinear_arith);
    }
    let b: u64 = half * (1000 - progress) / 1000;
    b
}

/// One interpolated channel: `a` moved `f` permille of the way towards `b`.
pub open spec fn lerp_channel(a: u8, b: u8, f: int) -> int {
    if b >= a {
        a + (b - a) * f / 1000
    } else {
        a - (a - b) * f / 1000
    }
}

fn lerp_channel_exec(a: u8, b: u8, f: u64) -> (r: u8)
    requires
        f <= 1000,
    ensures
        r == lerp_channel(a, b, f as int),
{
    if b >= a {
        let d: u64 = (b - a) as u64;
        proof {
            lemma_scale_le(d as int, f as int);
        }
        a + (d * f / 1000) as u8
    } else {
        let d: u64 = (a - b) as u64;
        proof {
            lemma_scale_le(d as int, f as int);
        }
        a - (d * f / 1000) as u8
    }
}

/// What interpolation yields: a channel-wise blend for two RGB colors, and
/// the target color whenever either side is a named palette entry.
pub open spec fn interpolate_color_spec(from: Color, to: Color, factor: int) -> Color {
    let f = if factor > 1000 { 1000 } else { factor };
    match (from, to) {
        (Color::Rgb(r1, g1, b1), Color::Rgb(r2, g2, b2)) => Color::Rgb(
            lerp_channel(r1, r2, f) as u8,
            lerp_channel(g1, g2, f) as u8,
            lerp_channel(b1, b2, f) as u8,
        ),
        _ => to,
    }
}

/// Interpolate between two colors by `factor` permille (clamped to one).
pub fn interpolate_color(from: Color, to: Color, factor: u64) -> (c: Color)
    ensures
        c == interpolate_color_spec(from, to, factor as int),
{
    let f: u64 = if factor > 1000 { 1000 } else { factor };
    match (from, to) {
        (Color::Rgb(r1, g1, b1), Color::Rgb(r2, g2, b2)) => Color::Rgb(
            lerp_channel_exec(r1, r2, f),
            lerp_channel_exec(g1, g2, f),
            lerp_channel_exec(b1, b2, f),
        ),
        (_, other) => other,
    }
}

} // verus!
