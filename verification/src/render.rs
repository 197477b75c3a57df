//! Rendering images as terminal text.

use vstd::prelude::*;
use vstd::string::*;
use crate::image::{Image, Rgba};
use crate::text::{dec, push_decimal, ascii_lower, has_run, to_ascii_lower, same_text, contains_text};
use crate::image::pixel_index;

verus! {

/// How pixels are drawn.
#[derive(Clone, Copy, Debug, PartialEq, Eq, Structural)]
pub enum Mode {
    /// Two full-block characters `██` per pixel, coloured with the foreground.
    Block,
    /// Two spaces per pixel, coloured with the background.
    Bg,
    /// Half blocks `▀`: two pixels stacked in one cell, so pixels come out square.
    Half,
}

/// How many colours the terminal shows.
#[derive(Clone, Copy, Debug, PartialEq, Eq, Structural)]
pub enum ColorLevel {
    True,
    Ansi256,
    Ansi16,
    /// No colour: shades pixels with ASCII characters by brightness.
    NoColor,
}

/// The rendered lines of an image.
pub struct Rendered {
    pub lines: Vec<String>,
    /// Width of every line in terminal cells.
    pub width: usize,
}

/// A colour as three signed components, for distance arithmetic.
pub type Rgb = (int, int, int);

/// Rough perceptual squared distance between two colours.
pub open spec fn color_dist(a: Rgb, b: Rgb) -> int {
    2 * (a.0 - b.0) * (a.0 - b.0) + 4 * (a.1 - b.1) * (a.1 - b.1) + 3 * (a.2 - b.2) * (a.2 - b.2)
}

/// The six channel levels of the xterm 256-colour cube.
pub open spec fn cube_level(i: int) -> int {
    if i == 0 {
        0
    } else if i == 1 {
        95
    } else if i == 2 {
        135
    } else if i == 3 {
        175
    } else if i == 4 {
        215
    } else {
        255
    }
}

/// xterm's default 16-colour palette.
pub open spec fn palette16(i: int) -> Rgb {
    if i == 0 {
        (0, 0, 0)
    } else if i == 1 {
        (205, 0, 0)
    } else if i == 2 {
        (0, 205, 0)
    } else if i == 3 {
        (205, 205, 0)
    } else if i == 4 {
        (0, 0, 238)
    } else if i == 5 {
        (205, 0, 205)
    } else if i == 6 {
        (0, 205, 205)
    } else if i == 7 {
        (229, 229, 229)
    } else if i == 8 {
        (127, 127, 127)
    } else if i == 9 {
        (255, 0, 0)
    } else if i == 10 {
        (0, 255, 0)
    } else if i == 11 {
        (255, 255, 0)
    } else if i == 12 {
        (92, 92, 255)
    } else if i == 13 {
        (255, 0, 255)
    } else if i == 14 {
        (0, 255, 255)
    } else {
        (255, 255, 255)
    }
}

pub open spec fn abs_diff(a: int, b: int) -> int {
    if a >= b {
        a - b
    } else {
        b - a
    }
}

/// Among cube levels 0..n, the first one closest to `v`.
pub open spec fn nearest_level_upto(v: int, n: int) -> int
    decreases n,
{
    if n <= 1 {
        0
    } else {
        let b = nearest_level_upto(v, n - 1);
        if abs_diff(cube_level(n - 1), v) < abs_diff(cube_level(b), v) {
            n - 1
        } else {
            b
        }
    }
}

/// The first cube level closest to `v`.
pub open spec fn nearest_level(v: int) -> int {
    nearest_level_upto(v, 6)
}

/// Among palette entries 0..n, the first one closest to `t`.
pub open spec fn nearest_palette_upto(t: Rgb, n: int) -> int
    decreases n,
{
    if n <= 1 {
        0
    } else {
        let b = nearest_palette_upto(t, n - 1);
        if color_dist(t, palette16(n - 1)) < color_dist(t, palette16(b)) {
            n - 1
        } else {
            b
        }
    }
}

/// The grey ramp step (0..=23) for the average of the three channels.
pub open spec fn grey_step(r: int, g: int, b: int) -> int {
    let avg = (r + g + b) / 3;
    let s = (if avg - 8 > 0 { avg - 8 } else { 0 }) / 10;
    if s < 23 {
        s
    } else {
        23
    }
}

/// The xterm 256-colour index for a colour: the nearest cube colour, unless the
/// nearest grey ramp entry is strictly closer.
pub open spec fn ansi256(r: int, g: int, b: int) -> int {
    let (ri, gi, bi) = (nearest_level(r), nearest_level(g), nearest_level(b));
    let cube = (cube_level(ri), cube_level(gi), cube_level(bi));
    let gs = grey_step(r, g, b);
    let gv = 8 + 10 * gs;
    if color_dist((r, g, b), (gv, gv, gv)) < color_dist((r, g, b), cube) {
        232 + gs
    } else {
        16 + 36 * ri + 6 * gi + bi
    }
}

/// The xterm 16-colour index for a colour: the first nearest palette entry.
pub open spec fn ansi16(r: int, g: int, b: int) -> int {
    nearest_palette_upto((r, g, b), 16)
}

/// The SGR parameters that select colour `c` as foreground, or background when `bg`.
pub open spec fn sgr_text(c: Rgba, level: ColorLevel, bg: bool) -> Seq<char> {
    let layer: nat = if bg { 48 } else { 38 };
    match level {
        ColorLevel::True => dec(layer) + ";2;"@ + dec(c[0] as nat) + ";"@ + dec(c[1] as nat) + ";"@
            + dec(c[2] as nat),
        ColorLevel::Ansi256 => dec(layer) + ";5;"@ + dec(ansi256(c[0] as int, c[1] as int, c[2] as int) as nat),
        ColorLevel::Ansi16 => {
            let i = ansi16(c[0] as int, c[1] as int, c[2] as int);
            let base: int = if bg {
                if i < 8 { 40 } else { 100 }
            } else {
                if i < 8 { 30 } else { 90 }
            };
            dec((base + i % 8) as nat)
        },
        ColorLevel::NoColor => Seq::empty(),
    }
}

fn dist(a: (i32, i32, i32), b: (i32, i32, i32)) -> (d: i32)
    requires
        0 <= a.0 <= 255,
        0 <= a.1 <= 255,
        0 <= a.2 <= 255,
        0 <= b.0 <= 255,
        0 <= b.1 <= 255,
        0 <= b.2 <= 255,
    ensures
        d == color_dist((a.0 as int, a.1 as int, a.2 as int), (b.0 as int, b.1 as int, b.2 as int)),
{
    // Rough perceptual weighting.
    let dr: i32 = a.0 - b.0;
    let dg: i32 = a.1 - b.1;
    let db: i32 = a.2 - b.2;
    assert(0 <= (2 * dr) * dr <= 130050 && 0 <= (4 * dg) * dg <= 260100 && 0 <= (3 * db) * db <= 195075) by (nonlinear_arith)
        requires -255 <= dr <= 255, -255 <= dg <= 255, -255 <= db <= 255;
    2 * dr * dr + 4 * dg * dg + 3 * db * db
}

fn level(i: usize) -> (v: i32)
    requires
        i < 6,
    ensures
        v == cube_level(i as int),
        0 <= v <= 255,
{
    match i {
        0 => 0,
        1 => 95,
        2 => 135,
        3 => 175,
        4 => 215,
        _ => 255,
    }
}

fn palette(i: usize) -> (c: (i32, i32, i32))
    requires
        i < 16,
    ensures
        (c.0 as int, c.1 as int, c.2 as int) == palette16(i as int),
        0 <= c.0 <= 255,
        0 <= c.1 <= 255,
        0 <= c.2 <= 255,
{
    match i {
        0 => (0, 0, 0),
        1 => (205, 0, 0),
        2 => (0, 205, 0),
        3 => (205, 205, 0),
        4 => (0, 0, 238),
        5 => (205, 0, 205),
        6 => (0, 205, 205),
        7 => (229, 229, 229),
        8 => (127, 127, 127),
        9 => (255, 0, 0),
        10 => (0, 255, 0),
        11 => (255, 255, 0),
        12 => (92, 92, 255),
        13 => (255, 0, 255),
        14 => (0, 255, 255),
        _ => (255, 255, 255),
    }
}

/// The first cube level closest to `v`.
fn nearest(v: u8) -> (i: usize)
    ensures
        i == nearest_level(v as int),
        i < 6,
{
    let mut best: usize = 0;
    let mut i: usize = 1;
    while i < 6
        invariant
            1 <= i <= 6,
            best < i,
            best == nearest_level_upto(v as int, i as int),
        decreases 6 - i,
    {
        let d_new: i32 = if level(i) >= v as i32 { level(i) - v as i32 } else { v as i32 - level(i) };
        let d_best: i32 = if level(best) >= v as i32 { level(best) - v as i32 } else { v as i32 - level(best) };
        if d_new < d_best {
            best = i;
        }
        i = i + 1;
    }
    best
}

/// The xterm 256-colour index nearest to a colour.
pub fn to_256(r: u8, g: u8, b: u8) -> (c: u8)
    ensures
        c == ansi256(r as int, g as int, b as int),
{
    let ri = nearest(r);
    let gi = nearest(g);
    let bi = nearest(b);
    let cube = (level(ri), level(gi), level(bi));
    let cube_idx: usize = 16 + 36 * ri + 6 * gi + bi;
    let avg: i32 = (r as i32 + g as i32 + b as i32) / 3;
    let above: i32 = if avg - 8 > 0 { avg - 8 } else { 0 };
    let gi2: i32 = if above / 10 < 23 { above / 10 } else { 23 };
    let gv: i32 = 8 + 10 * gi2;
    let target = (r as i32, g as i32, b as i32);
    if dist(target, (gv, gv, gv)) < dist(target, cube) {
        (232 + gi2) as u8
    } else {
        cube_idx as u8
    }
}

/// The xterm 16-colour index nearest to a colour.
pub fn to_16(r: u8, g: u8, b: u8) -> (c: u8)
    ensures
        c == ansi16(r as int, g as int, b as int),
        c < 16,
{
    let t = (r as i32, g as i32, b as i32);
    let mut best: usize = 0;
    let mut i: usize = 1;
    while i < 16
        invariant
            1 <= i <= 16,
            best < i,
            t == (r as i32, g as i32, b as i32),
            best == nearest_palette_upto((r as int, g as int, b as int), i as int),
        decreases 16 - i,
    {
        if dist(t, palette(i)) < dist(t, palette(best)) {
            best = i;
        }
        i = i + 1;
    }
    best as u8
}

/// The SGR parameters selecting colour `c` at the given level, as foreground or background.
pub fn sgr(c: Rgba, level: ColorLevel, bg: bool) -> (s: String)
    ensures
        s@ == sgr_text(c, level, bg),
{
    let layer: u64 = if bg { 48 } else { 38 };
    let mut s = String::new();
    match level {
        ColorLevel::True => {
            push_decimal(&mut s, layer);
            s.append(";2;");
            push_decimal(&mut s, c[0] as u64);
            s.append(";");
            push_decimal(&mut s, c[1] as u64);
            s.append(";");
            push_decimal(&mut s, c[2] as u64);
        },
        ColorLevel::Ansi256 => {
            push_decimal(&mut s, layer);
            s.append(";5;");
            push_decimal(&mut s, to_256(c[0], c[1], c[2]) as u64);
        },
        ColorLevel::Ansi16 => {
            let i: u64 = to_16(c[0], c[1], c[2]) as u64;
            let base: u64 = match (bg, i < 8) {
                (false, true) => 30,
                (false, false) => 90,
                (true, true) => 40,
                (true, false) => 100,
            };
            push_decimal(&mut s, base + i % 8);
        },
        ColorLevel::NoColor => {},
    }
    proof {
        assert(s@ =~= sgr_text(c, level, bg));
    }
    s
}


/// The brightness of a pixel, 0..=255, from its colour channels.
pub open spec fn luma(p: Rgba) -> int {
    (p[0] * 299 + p[1] * 587 + p[2] * 114) / 1000
}

/// The summed brightness of some pixels.
pub open spec fn luma_sum(px: Seq<Rgba>) -> int
    decreases px.len(),
{
    if px.len() == 0 {
        0
    } else {
        luma_sum(px.drop_last()) + luma(px.last())
    }
}

/// Position on the shade ramp (0..=8) for the average brightness of some pixels.
pub open spec fn shade_level(px: Seq<Rgba>) -> int {
    let avg = luma_sum(px) / (px.len() as int);
    let i = avg * 9 / 256;
    if i < 8 {
        i
    } else {
        8
    }
}

/// The ASCII shade ramp, from dim to bright: `.:-=+*#%@`.
pub open spec fn ramp_char(i: int) -> char {
    if i == 0 {
        '.'
    } else if i == 1 {
        ':'
    } else if i == 2 {
        '-'
    } else if i == 3 {
        '='
    } else if i == 4 {
        '+'
    } else if i == 5 {
        '*'
    } else if i == 6 {
        '#'
    } else if i == 7 {
        '%'
    } else {
        '@'
    }
}

/// The ASCII shade for the average brightness of some pixels (bright = dense).
pub open spec fn shade_of(px: Seq<Rgba>) -> char {
    ramp_char(shade_level(px))
}

proof fn lemma_luma_range(p: Rgba)
    ensures
        0 <= luma(p) <= 255,
{
    assert(0 <= (p[0] * 299 + p[1] * 587 + p[2] * 114) / 1000 <= 255) by (nonlinear_arith)
        requires 0 <= p[0] <= 255, 0 <= p[1] <= 255, 0 <= p[2] <= 255;
}

proof fn lemma_luma_sum_range(px: Seq<Rgba>)
    ensures
        0 <= luma_sum(px) <= 255 * px.len(),
    decreases px.len(),
{
    if px.len() > 0 {
        lemma_luma_sum_range(px.drop_last());
        lemma_luma_range(px.last());
    }
}

fn ramp(i: usize) -> (c: char)
    requires
        i <= 8,
    ensures
        c == ramp_char(i as int),
{
    match i {
        0 => '.',
        1 => ':',
        2 => '-',
        3 => '=',
        4 => '+',
        5 => '*',
        6 => '#',
        7 => '%',
        _ => '@',
    }
}

/// ASCII shade for the average brightness of the given pixels (bright = dense).
fn shade(px: &[Rgba]) -> (c: char)
    requires
        px@.len() > 0,
        px@.len() * 255 <= u32::MAX,
    ensures
        c == shade_of(px@),
{
    let mut lum: u32 = 0;
    let mut i: usize = 0;
    while i < px.len()
        invariant
            i <= px@.len(),
            px@.len() * 255 <= u32::MAX,
            lum == luma_sum(px@.subrange(0, i as int)),
            lum <= 255 * i,
        decreases px@.len() - i,
    {
        let p = px[i];
        proof {
            lemma_luma_range(p);
            assert(px@.subrange(0, i + 1).drop_last() =~= px@.subrange(0, i as int));
        }
        let l: u32 = (p[0] as u32 * 299 + p[1] as u32 * 587 + p[2] as u32 * 114) / 1000;
        lum = lum + l;
        i = i + 1;
    }
    proof {
        assert(px@.subrange(0, px@.len() as int) =~= px@);
    }
    let avg: u32 = lum / (px.len() as u32);
    proof {
        lemma_luma_sum_range(px@);
        assert(avg <= 255) by (nonlinear_arith)
            requires avg == (lum as int) / (px@.len() as int), lum <= 255 * px@.len(), px@.len() > 0;
    }
    let idx: usize = (avg as usize) * 9 / 256;
    let idx: usize = if idx < 8 { idx } else { 8 };
    ramp(idx)
}

/// What one terminal cell shows.
#[derive(Clone, Copy, Debug, PartialEq, Eq, Structural)]
pub enum Glyph {
    /// `██`: two full blocks.
    Full,
    /// Two spaces.
    Space2,
    /// `▀`: the upper half block.
    Upper,
    /// `▄`: the lower half block.
    Lower,
    /// One space.
    Space1,
}

/// The characters of a glyph.
pub open spec fn glyph_text(g: Glyph) -> Seq<char> {
    match g {
        Glyph::Full => seq!['█', '█'],
        Glyph::Space2 => seq![' ', ' '],
        Glyph::Upper => seq!['▀'],
        Glyph::Lower => seq!['▄'],
        Glyph::Space1 => seq![' '],
    }
}

/// A glyph of spaces shows only the background colour.
pub open spec fn glyph_blank(g: Glyph) -> bool {
    g == Glyph::Space2 || g == Glyph::Space1
}

/// One cell of a rendered line: colours (`None` is the terminal default), the glyph,
/// and the text used when there is no colour.
pub struct CellSpec {
    pub fg: Option<Rgba>,
    pub bg: Option<Rgba>,
    pub glyph: Glyph,
    pub mono: Seq<char>,
}

/// What has been written of a line so far, and the colours in effect at its end.
pub struct LineState {
    pub out: Seq<char>,
    pub fg: Option<Seq<char>>,
    pub bg: Option<Seq<char>>,
    pub styled: bool,
}

/// The SGR parameters for an optional colour.
pub open spec fn opt_sgr(c: Option<Rgba>, level: ColorLevel, bg: bool) -> Option<Seq<char>> {
    match c {
        Some(c) => Some(sgr_text(c, level, bg)),
        None => None,
    }
}

/// The parameters in `c`, or `default` (a reset to the terminal's colour).
pub open spec fn code_or(c: Option<Seq<char>>, default: Seq<char>) -> Seq<char> {
    match c {
        Some(s) => s,
        None => default,
    }
}

/// The escape sequence that sets the foreground when `f` and the background when `b`.
pub open spec fn sgr_sequence(f: bool, fc: Seq<char>, b: bool, bc: Seq<char>) -> Seq<char> {
    if !f && !b {
        Seq::empty()
    } else {
        seq!['\x1b', '['] + (if f && b {
            fc + seq![';'] + bc
        } else if f {
            fc
        } else {
            bc
        }) + seq!['m']
    }
}

/// Appends one cell to a line, emitting SGR codes only when the colours change. The
/// foreground of a blank glyph is invisible, so it is left as it is.
pub open spec fn step(st: LineState, level: ColorLevel, cell: CellSpec) -> LineState {
    if level == ColorLevel::NoColor {
        LineState { out: st.out + cell.mono, ..st }
    } else {
        let fgc = opt_sgr(cell.fg, level, false);
        let bgc = opt_sgr(cell.bg, level, true);
        let fg_change = fgc != st.fg && !glyph_blank(cell.glyph);
        let bg_change = bgc != st.bg;
        LineState {
            out: st.out + sgr_sequence(fg_change, code_or(fgc, seq!['3', '9']), bg_change, code_or(bgc, seq!['4', '9']))
                + glyph_text(cell.glyph),
            fg: if fg_change { fgc } else { st.fg },
            bg: if bg_change { bgc } else { st.bg },
            styled: st.styled || fg_change || bg_change,
        }
    }
}

/// A line with its colours reset at the end if any were set.
pub open spec fn finish_text(st: LineState) -> Seq<char> {
    if st.styled {
        st.out + seq!['\x1b', '[', '0', 'm']
    } else {
        st.out
    }
}

/// Pixel (x, y) when it exists and is at least half opaque.
pub open spec fn visible(img: Image, x: int, y: int) -> Option<Rgba> {
    if y < img.h && img.at(x, y)[3] >= 128 {
        Some(img.at(x, y))
    } else {
        None
    }
}

/// The cell drawn for column `x` of the text row that starts at pixel row `y`.
pub open spec fn cell_of(img: Image, mode: Mode, x: int, y: int) -> CellSpec {
    match mode {
        Mode::Block => match visible(img, x, y) {
            Some(c) => CellSpec { fg: Some(c), bg: None, glyph: Glyph::Full, mono: seq![shade_of(seq![c]), shade_of(seq![c])] },
            None => CellSpec { fg: None, bg: None, glyph: Glyph::Space2, mono: seq![' ', ' '] },
        },
        Mode::Bg => match visible(img, x, y) {
            Some(c) => CellSpec { fg: None, bg: Some(c), glyph: Glyph::Space2, mono: seq![shade_of(seq![c]), shade_of(seq![c])] },
            None => CellSpec { fg: None, bg: None, glyph: Glyph::Space2, mono: seq![' ', ' '] },
        },
        Mode::Half => match (visible(img, x, y), visible(img, x, y + 1)) {
            (Some(t), Some(b)) => CellSpec { fg: Some(t), bg: Some(b), glyph: Glyph::Upper, mono: seq![shade_of(seq![t, b])] },
            (Some(t), None) => CellSpec { fg: Some(t), bg: None, glyph: Glyph::Upper, mono: seq![shade_of(seq![t])] },
            (None, Some(b)) => CellSpec { fg: Some(b), bg: None, glyph: Glyph::Lower, mono: seq![shade_of(seq![b])] },
            (None, None) => CellSpec { fg: None, bg: None, glyph: Glyph::Space1, mono: seq![' '] },
        },
    }
}

/// The state of the line for pixel row `y` after its first `n` cells.
pub open spec fn line_run(img: Image, mode: Mode, level: ColorLevel, y: int, n: int) -> LineState
    decreases n,
{
    if n <= 0 {
        LineState { out: Seq::empty(), fg: None, bg: None, styled: false }
    } else {
        step(line_run(img, mode, level, y, n - 1), level, cell_of(img, mode, n - 1, y))
    }
}

/// The text of the line that starts at pixel row `y`.
pub open spec fn line_text(img: Image, mode: Mode, level: ColorLevel, y: int) -> Seq<char> {
    finish_text(line_run(img, mode, level, y, img.w as int))
}

/// Pixel rows per text line.
pub open spec fn rows_per_line(mode: Mode) -> int {
    if mode == Mode::Half {
        2
    } else {
        1
    }
}

/// Terminal cells per pixel column.
pub open spec fn cells_per_pixel(mode: Mode) -> int {
    if mode == Mode::Half {
        1
    } else {
        2
    }
}

/// Pixel (x, y) when it exists and is at least half opaque.
fn visible_px(img: &Image, x: u32, y: u64) -> (p: Option<Rgba>)
    requires
        img.wf(),
        x < img.w,
    ensures
        p == visible(*img, x as int, y as int),
{
    if y < img.h as u64 {
        proof {
            crate::image::lemma_index_in_bounds(img.w as int, img.h as int, x as int, y as int);
        }
        let c = img.get(x, y as u32);
        if c[3] >= 128 {
            Some(c)
        } else {
            None
        }
    } else {
        None
    }
}

fn shade1(c: Rgba) -> (ch: char)
    ensures
        ch == shade_of(seq![c]),
{
    let px: Vec<Rgba> = vec![c];
    proof {
        assert(px@ =~= seq![c]);
    }
    shade(px.as_slice())
}

fn shade2(t: Rgba, b: Rgba) -> (ch: char)
    ensures
        ch == shade_of(seq![t, b]),
{
    let px: Vec<Rgba> = vec![t, b];
    proof {
        assert(px@ =~= seq![t, b]);
    }
    shade(px.as_slice())
}

fn text1(a: char) -> (s: String)
    ensures
        s@ == seq![a],
{
    let mut s = String::new();
    s.push(a);
    proof {
        assert(s@ =~= seq![a]);
    }
    s
}

fn text2(a: char) -> (s: String)
    ensures
        s@ == seq![a, a],
{
    let mut s = String::new();
    s.push(a);
    s.push(a);
    proof {
        assert(s@ =~= seq![a, a]);
    }
    s
}

/// Renders an image as terminal lines: in `Half` mode each line holds two pixel rows,
/// otherwise one.
pub fn render(img: &Image, mode: Mode, level: ColorLevel) -> (r: Rendered)
    requires
        img.wf(),
        img.w * 2 <= usize::MAX,
    ensures
        r.width == img.w * cells_per_pixel(mode),
        r.lines@.len() == (img.h + rows_per_line(mode) - 1) / rows_per_line(mode),
        forall|i: int|
            0 <= i < r.lines@.len() ==> #[trigger] r.lines@[i]@ == line_text(*img, mode, level, i * rows_per_line(mode)),
{
    let step: u64 = match mode {
        Mode::Half => 2,
        _ => 1,
    };
    let width: usize = match mode {
        Mode::Half => img.w as usize,
        _ => img.w as usize * 2,
    };
    let mut lines: Vec<String> = Vec::new();
    let mut y: u64 = 0;
    while y < img.h as u64
        invariant
            img.wf(),
            step == rows_per_line(mode),
            y == lines@.len() * step,
            y <= img.h + 1,
            y < img.h + step,
            forall|i: int|
                0 <= i < lines@.len() ==> #[trigger] lines@[i]@ == line_text(*img, mode, level, i * step),
        decreases img.h + 1 - y,
    {
        let mut line = Line::new(level);
        let mut x: u32 = 0;
        while x < img.w
            invariant
                img.wf(),
                y < img.h,
                x <= img.w,
                line.level == level,
                line.state() == line_run(*img, mode, level, y as int, x as int),
            decreases img.w - x,
        {
            let px = visible_px(img, x, y);
            match mode {
                Mode::Block => match px {
                    Some(c) => {
                        let m = text2(shade1(c));
                        line.cell(Some(c), None, Glyph::Full, m.as_str());
                    },
                    None => {
                        let m = text2(' ');
                        line.cell(None, None, Glyph::Space2, m.as_str());
                    },
                },
                Mode::Bg => match px {
                    Some(c) => {
                        let m = text2(shade1(c));
                        line.cell(None, Some(c), Glyph::Space2, m.as_str());
                    },
                    None => {
                        let m = text2(' ');
                        line.cell(None, None, Glyph::Space2, m.as_str());
                    },
                },
                Mode::Half => match (px, visible_px(img, x, y + 1)) {
                    (Some(t), Some(b)) => {
                        let m = text1(shade2(t, b));
                        line.cell(Some(t), Some(b), Glyph::Upper, m.as_str());
                    },
                    (Some(t), None) => {
                        let m = text1(shade1(t));
                        line.cell(Some(t), None, Glyph::Upper, m.as_str());
                    },
                    (None, Some(b)) => {
                        let m = text1(shade1(b));
                        line.cell(Some(b), None, Glyph::Lower, m.as_str());
                    },
                    (None, None) => {
                        let m = text1(' ');
                        line.cell(None, None, Glyph::Space1, m.as_str());
                    },
                },
            }
            x = x + 1;
        }
        lines.push(line.finish());
        y = y + step;
    }
    proof {
        assert(lines@.len() == (img.h + step - 1) / step as int) by (nonlinear_arith)
            requires y == lines@.len() * step, y >= img.h, y < img.h + step, step == 1 || step == 2;
    }
    Rendered { lines, width }
}

/// The characters a terminal shows for `s`, which is read as starting inside an escape
/// sequence when `in_esc`: every escape sequence, from ESC up to and including the next
/// `m`, is dropped.
pub open spec fn strip_from(s: Seq<char>, in_esc: bool) -> Seq<char>
    decreases s.len(),
{
    if s.len() == 0 {
        Seq::empty()
    } else if in_esc {
        strip_from(s.drop_first(), s[0] != 'm')
    } else if s[0] == '\x1b' {
        strip_from(s.drop_first(), true)
    } else {
        seq![s[0]] + strip_from(s.drop_first(), false)
    }
}

/// Whether reading `s` from state `in_esc` ends inside an escape sequence.
pub open spec fn ends_in_esc(s: Seq<char>, in_esc: bool) -> bool
    decreases s.len(),
{
    if s.len() == 0 {
        in_esc
    } else if in_esc {
        ends_in_esc(s.drop_first(), s[0] != 'm')
    } else {
        ends_in_esc(s.drop_first(), s[0] == '\x1b')
    }
}

/// The characters a terminal shows for `s`: `s` without its escape sequences.
pub open spec fn visible_text(s: Seq<char>) -> Seq<char> {
    strip_from(s, false)
}

/// The glyphs of the first `n` cells of the line for pixel row `y`.
pub open spec fn glyph_row(img: Image, mode: Mode, y: int, n: int) -> Seq<char>
    decreases n,
{
    if n <= 0 {
        Seq::empty()
    } else {
        glyph_row(img, mode, y, n - 1) + glyph_text(cell_of(img, mode, n - 1, y).glyph)
    }
}

/// The text holds neither ESC nor `m`, so it can stand inside an escape sequence.
pub open spec fn sgr_safe(s: Seq<char>) -> bool {
    forall|i: int| 0 <= i < s.len() ==> s[i] != '\x1b' && s[i] != 'm'
}

/// The text holds no ESC, so it is shown as it is.
pub open spec fn no_esc(s: Seq<char>) -> bool {
    forall|i: int| 0 <= i < s.len() ==> s[i] != '\x1b'
}

proof fn lemma_strip_concat(a: Seq<char>, b: Seq<char>, e: bool)
    ensures
        strip_from(a + b, e) == strip_from(a, e) + strip_from(b, ends_in_esc(a, e)),
        ends_in_esc(a + b, e) == ends_in_esc(b, ends_in_esc(a, e)),
    decreases a.len(),
{
    if a.len() == 0 {
        assert(a + b =~= b);
    } else {
        assert((a + b).drop_first() =~= a.drop_first() + b);
        let e2 = if e { a[0] != 'm' } else { a[0] == '\x1b' };
        lemma_strip_concat(a.drop_first(), b, e2);
        if !e && a[0] != '\x1b' {
            assert(strip_from(a + b, e) =~= strip_from(a, e) + strip_from(b, ends_in_esc(a, e)));
        }
    }
}

proof fn lemma_strip_no_esc(t: Seq<char>)
    requires
        no_esc(t),
    ensures
        strip_from(t, false) == t,
        !ends_in_esc(t, false),
    decreases t.len(),
{
    if t.len() > 0 {
        lemma_strip_no_esc(t.drop_first());
        assert(strip_from(t, false) =~= t);
    }
}

proof fn lemma_strip_inside(t: Seq<char>)
    requires
        sgr_safe(t),
    ensures
        strip_from(t, true) == Seq::<char>::empty(),
        ends_in_esc(t, true),
    decreases t.len(),
{
    if t.len() > 0 {
        lemma_strip_inside(t.drop_first());
    }
}

proof fn lemma_dec_safe(n: nat)
    ensures
        sgr_safe(dec(n)),
    decreases n,
{
    if n >= 10 {
        lemma_dec_safe(n / 10);
    }
}

proof fn lemma_sgr_safe(c: Rgba, level: ColorLevel, bg: bool)
    ensures
        sgr_safe(sgr_text(c, level, bg)),
{
    reveal_strlit(";2;");
    reveal_strlit(";5;");
    reveal_strlit(";");
    let layer: nat = if bg { 48 } else { 38 };
    lemma_dec_safe(layer);
    lemma_dec_safe(c[0] as nat);
    lemma_dec_safe(c[1] as nat);
    lemma_dec_safe(c[2] as nat);
    match level {
        ColorLevel::Ansi256 => {
            lemma_dec_safe(ansi256(c[0] as int, c[1] as int, c[2] as int) as nat);
        },
        ColorLevel::Ansi16 => {
            let i = ansi16(c[0] as int, c[1] as int, c[2] as int);
            let base: int = if bg {
                if i < 8 { 40 } else { 100 }
            } else {
                if i < 8 { 30 } else { 90 }
            };
            lemma_dec_safe((base + i % 8) as nat);
        },
        _ => {},
    }
    assert(sgr_safe(sgr_text(c, level, bg)));
}

proof fn lemma_code_safe(c: Option<Rgba>, level: ColorLevel, bg: bool, first: char)
    requires
        first == '3' || first == '4',
    ensures
        sgr_safe(code_or(opt_sgr(c, level, bg), seq![first, '9'])),
{
    if let Some(c) = c {
        lemma_sgr_safe(c, level, bg);
    }
}

proof fn lemma_sequence_invisible(f: bool, fc: Seq<char>, b: bool, bc: Seq<char>)
    requires
        sgr_safe(fc),
        sgr_safe(bc),
    ensures
        strip_from(sgr_sequence(f, fc, b, bc), false) == Seq::<char>::empty(),
        !ends_in_esc(sgr_sequence(f, fc, b, bc), false),
{
    if f || b {
        let body = if f && b {
            fc + seq![';'] + bc
        } else if f {
            fc
        } else {
            bc
        };
        assert(sgr_safe(body));
        let s = seq!['\x1b', '['] + body + seq!['m'];
        assert(sgr_sequence(f, fc, b, bc) == s);
        lemma_strip_concat(seq!['\x1b', '['], body + seq!['m'], false);
        lemma_strip_concat(body, seq!['m'], true);
        lemma_strip_inside(body);
        assert(s =~= seq!['\x1b', '['] + (body + seq!['m']));
        assert(seq!['\x1b', '['].drop_first() =~= seq!['[']);
        lemma_strip_inside(seq!['[']);
        let m = seq!['m'];
        assert(m.len() == 1 && m[0] == 'm');
        assert(m.drop_first() =~= Seq::<char>::empty());
        assert(strip_from(m.drop_first(), false) =~= Seq::<char>::empty());
        assert(!ends_in_esc(m.drop_first(), false));
        assert(strip_from(m, true) =~= Seq::<char>::empty());
        assert(!ends_in_esc(m, true));
    }
}

proof fn lemma_glyph_no_esc(g: Glyph)
    ensures
        no_esc(glyph_text(g)),
{
}

proof fn lemma_run_visible(img: Image, mode: Mode, level: ColorLevel, y: int, n: int)
    requires
        level != ColorLevel::NoColor,
    ensures
        strip_from(line_run(img, mode, level, y, n).out, false) == glyph_row(img, mode, y, n),
        !ends_in_esc(line_run(img, mode, level, y, n).out, false),
    decreases n,
{
    if n > 0 {
        lemma_run_visible(img, mode, level, y, n - 1);
        let st = line_run(img, mode, level, y, n - 1);
        let cell = cell_of(img, mode, n - 1, y);
        let fgc = opt_sgr(cell.fg, level, false);
        let bgc = opt_sgr(cell.bg, level, true);
        let fg_change = fgc != st.fg && !glyph_blank(cell.glyph);
        let bg_change = bgc != st.bg;
        let esc = sgr_sequence(fg_change, code_or(fgc, seq!['3', '9']), bg_change, code_or(bgc, seq!['4', '9']));
        let g = glyph_text(cell.glyph);
        lemma_code_safe(cell.fg, level, false, '3');
        lemma_code_safe(cell.bg, level, true, '4');
        lemma_sequence_invisible(fg_change, code_or(fgc, seq!['3', '9']), bg_change, code_or(bgc, seq!['4', '9']));
        lemma_glyph_no_esc(cell.glyph);
        lemma_strip_no_esc(g);
        lemma_strip_concat(st.out, esc, false);
        lemma_strip_concat(st.out + esc, g, false);
        assert(line_run(img, mode, level, y, n).out == st.out + esc + g);
        assert(strip_from(st.out + esc + g, false) =~= glyph_row(img, mode, y, n));
    }
}

proof fn lemma_glyph_row_len(img: Image, mode: Mode, y: int, n: int)
    requires
        n >= 0,
    ensures
        glyph_row(img, mode, y, n).len() == n * cells_per_pixel(mode),
    decreases n,
{
    if n > 0 {
        lemma_glyph_row_len(img, mode, y, n - 1);
        assert(glyph_text(cell_of(img, mode, n - 1, y).glyph).len() == cells_per_pixel(mode));
        assert(n * cells_per_pixel(mode) == (n - 1) * cells_per_pixel(mode) + cells_per_pixel(mode)) by (nonlinear_arith);
    }
}

proof fn lemma_run_mono(img: Image, mode: Mode, y: int, n: int)
    requires
        n >= 0,
    ensures
        line_run(img, mode, ColorLevel::NoColor, y, n).out.len() == n * cells_per_pixel(mode),
        no_esc(line_run(img, mode, ColorLevel::NoColor, y, n).out),
        !line_run(img, mode, ColorLevel::NoColor, y, n).styled,
    decreases n,
{
    if n > 0 {
        lemma_run_mono(img, mode, y, n - 1);
        let st = line_run(img, mode, ColorLevel::NoColor, y, n - 1);
        let cell = cell_of(img, mode, n - 1, y);
        assert(cell.mono.len() == cells_per_pixel(mode));
        assert(no_esc(cell.mono));
        assert(n * cells_per_pixel(mode) == (n - 1) * cells_per_pixel(mode) + cells_per_pixel(mode)) by (nonlinear_arith);
        assert(no_esc(st.out + cell.mono));
    }
}

/// Every rendered line shows exactly `width` characters: with colour, once its escape
/// sequences are left out, it is the row of glyphs (`██` or two spaces per pixel, or
/// one half block or space per pixel pair), the same at every colour level; without
/// colour it holds no escape sequence at all.
pub proof fn law_line_width(img: Image, mode: Mode, level: ColorLevel, y: int)
    ensures
        level != ColorLevel::NoColor ==> visible_text(line_text(img, mode, level, y)) == glyph_row(
            img,
            mode,
            y,
            img.w as int,
        ),
        visible_text(line_text(img, mode, level, y)).len() == img.w * cells_per_pixel(mode),
        level == ColorLevel::NoColor ==> no_esc(line_text(img, mode, level, y))
            && line_text(img, mode, level, y).len() == img.w * cells_per_pixel(mode),
{
    lemma_glyph_row_len(img, mode, y, img.w as int);
    if level != ColorLevel::NoColor {
        lemma_run_visible(img, mode, level, y, img.w as int);
        let st = line_run(img, mode, level, y, img.w as int);
        if st.styled {
            let reset = seq!['\x1b', '[', '0', 'm'];
            lemma_strip_concat(st.out, reset, false);
            assert(sgr_safe(seq!['[', '0']));
            lemma_sequence_invisible(true, seq!['0'], false, Seq::empty());
            assert(sgr_sequence(true, seq!['0'], false, Seq::empty()) =~= reset);
            assert(line_text(img, mode, level, y) == st.out + reset);
            assert(visible_text(line_text(img, mode, level, y)) =~= glyph_row(img, mode, y, img.w as int));
        }
    } else {
        lemma_run_mono(img, mode, y, img.w as int);
        lemma_strip_no_esc(line_text(img, mode, level, y));
    }
}

proof fn lemma_nearest_level_upto(v: int, n: int)
    requires
        1 <= n <= 6,
    ensures
        0 <= nearest_level_upto(v, n) < n,
        forall|j: int| 0 <= j < n ==> abs_diff(cube_level(nearest_level_upto(v, n)), v) <= #[trigger] abs_diff(cube_level(j), v),
        forall|j: int| 0 <= j < nearest_level_upto(v, n) ==> abs_diff(cube_level(nearest_level_upto(v, n)), v) < #[trigger] abs_diff(cube_level(j), v),
    decreases n,
{
    if n > 1 {
        lemma_nearest_level_upto(v, n - 1);
    }
}

/// Two pixels with the same colour channels, whatever their alpha.
pub open spec fn same_colour(p: Rgba, q: Rgba) -> bool {
    p[0] == q[0] && p[1] == q[1] && p[2] == q[2]
}

/// Two optional pixels that are both absent, or both present with the same colour.
pub open spec fn alike(p: Option<Rgba>, q: Option<Rgba>) -> bool {
    match (p, q) {
        (None, None) => true,
        (Some(p), Some(q)) => same_colour(p, q),
        _ => false,
    }
}

/// Two images of one size whose pixels agree on being at least half opaque, and where
/// they are, on their colour.
pub open spec fn drawn_alike(a: Image, b: Image) -> bool {
    &&& a.w == b.w
    &&& a.h == b.h
    &&& forall|x: int, y: int|
        #![trigger a.at(x, y), b.at(x, y)]
        0 <= x < a.w && 0 <= y < a.h ==> {
            &&& (a.at(x, y)[3] >= 128) == (b.at(x, y)[3] >= 128)
            &&& a.at(x, y)[3] >= 128 ==> same_colour(a.at(x, y), b.at(x, y))
        }
}

proof fn lemma_visible_alike(a: Image, b: Image, x: int, y: int)
    requires
        drawn_alike(a, b),
        0 <= x < a.w,
        0 <= y,
    ensures
        alike(visible(a, x, y), visible(b, x, y)),
{
    if y < a.h {
        assert(a.at(x, y) == a.at(x, y) && b.at(x, y) == b.at(x, y));
    }
}

proof fn lemma_shade_alike(p: Rgba, q: Rgba, t: Rgba, u: Rgba)
    requires
        same_colour(p, q),
        same_colour(t, u),
    ensures
        shade_of(seq![p]) == shade_of(seq![q]),
        shade_of(seq![p, t]) == shade_of(seq![q, u]),
{
    assert(luma_sum(Seq::<Rgba>::empty()) == 0);
    assert(seq![p].drop_last() =~= Seq::<Rgba>::empty());
    assert(seq![q].drop_last() =~= Seq::<Rgba>::empty());
    assert(seq![p, t].drop_last() =~= seq![p]);
    assert(seq![q, u].drop_last() =~= seq![q]);
    assert(luma(p) == luma(q) && luma(t) == luma(u));
    assert(luma_sum(seq![p]) == luma(p)) by {
        assert(seq![p].last() == p);
    }
    assert(luma_sum(seq![q]) == luma(q)) by {
        assert(seq![q].last() == q);
    }
    assert(luma_sum(seq![p, t]) == luma(p) + luma(t)) by {
        assert(seq![p, t].last() == t);
    }
    assert(luma_sum(seq![q, u]) == luma(q) + luma(u)) by {
        assert(seq![q, u].last() == u);
    }
}

proof fn lemma_cell_alike(a: Image, b: Image, mode: Mode, x: int, y: int)
    requires
        drawn_alike(a, b),
        0 <= x < a.w,
        0 <= y,
    ensures
        cell_of(a, mode, x, y).glyph == cell_of(b, mode, x, y).glyph,
        cell_of(a, mode, x, y).mono == cell_of(b, mode, x, y).mono,
        alike(cell_of(a, mode, x, y).fg, cell_of(b, mode, x, y).fg),
        alike(cell_of(a, mode, x, y).bg, cell_of(b, mode, x, y).bg),
{
    lemma_visible_alike(a, b, x, y);
    lemma_visible_alike(a, b, x, y + 1);
    let (p, q) = (visible(a, x, y), visible(b, x, y));
    let (t, u) = (visible(a, x, y + 1), visible(b, x, y + 1));
    match (p, q, t, u) {
        (Some(p), Some(q), Some(t), Some(u)) => lemma_shade_alike(p, q, t, u),
        (Some(p), Some(q), _, _) => lemma_shade_alike(p, q, p, q),
        (_, _, Some(t), Some(u)) => lemma_shade_alike(t, u, t, u),
        _ => {},
    }
}

proof fn lemma_step_alike(st: LineState, level: ColorLevel, c: CellSpec, d: CellSpec)
    requires
        c.glyph == d.glyph,
        c.mono == d.mono,
        alike(c.fg, d.fg),
        alike(c.bg, d.bg),
    ensures
        step(st, level, c) == step(st, level, d),
{
    assert(opt_sgr(c.fg, level, false) == opt_sgr(d.fg, level, false));
    assert(opt_sgr(c.bg, level, true) == opt_sgr(d.bg, level, true));
}

proof fn lemma_run_alike(a: Image, b: Image, mode: Mode, level: ColorLevel, y: int, n: int)
    requires
        drawn_alike(a, b),
        0 <= y,
        n <= a.w,
    ensures
        line_run(a, mode, level, y, n) == line_run(b, mode, level, y, n),
    decreases n,
{
    if n > 0 {
        lemma_run_alike(a, b, mode, level, y, n - 1);
        lemma_cell_alike(a, b, mode, n - 1, y);
        lemma_step_alike(line_run(a, mode, level, y, n - 1), level, cell_of(a, mode, n - 1, y), cell_of(b, mode, n - 1, y));
    }
}

/// Rendering reads a pixel's alpha only to tell whether it is at least half opaque: a
/// pixel below alpha 128 is left blank whatever its colour, and a visible one is drawn
/// by its colour alone. Two images that agree on that render to the same lines of the
/// same width.
pub proof fn law_alpha_threshold(a: Image, b: Image, mode: Mode, level: ColorLevel)
    requires
        drawn_alike(a, b),
    ensures
        a.w * cells_per_pixel(mode) == b.w * cells_per_pixel(mode),
        forall|y: int| 0 <= y ==> #[trigger] line_text(a, mode, level, y) == line_text(b, mode, level, y),
{
    assert forall|y: int| 0 <= y implies #[trigger] line_text(a, mode, level, y) == line_text(b, mode, level, y) by {
        lemma_run_alike(a, b, mode, level, y, a.w as int);
    }
}

/// The colour the upper half of a cell shows: the foreground of `▀`, otherwise the
/// background (`None` is the terminal's own).
pub open spec fn upper_colour(c: CellSpec) -> Option<Rgba> {
    if c.glyph == Glyph::Upper {
        c.fg
    } else {
        c.bg
    }
}

/// The colour the lower half of a cell shows: the foreground of `▄`, otherwise the
/// background.
pub open spec fn lower_colour(c: CellSpec) -> Option<Rgba> {
    if c.glyph == Glyph::Lower {
        c.fg
    } else {
        c.bg
    }
}

/// The colour a whole-cell glyph shows: the foreground of `██`, otherwise the
/// background.
pub open spec fn cell_colour(c: CellSpec) -> Option<Rgba> {
    if c.glyph == Glyph::Full {
        c.fg
    } else {
        c.bg
    }
}

/// Pixel (x, y) of `img` as drawn: present when it lies in the image's rows and is at
/// least half opaque.
pub open spec fn drawn_pixel(img: Image, x: int, y: int) -> Option<Rgba> {
    if 0 <= y < img.h && img.at(x, y)[3] >= 128 {
        Some(img.at(x, y))
    } else {
        None
    }
}

/// In half-block mode the cell for column `x` of the line starting at row `y` shows
/// pixel (x, y) in its upper half and pixel (x, y + 1) in its lower half; in the other
/// modes a cell shows pixel (x, y) whole.
pub proof fn law_cells_show_their_pixels(img: Image, x: int, y: int)
    requires
        0 <= y,
    ensures
        upper_colour(cell_of(img, Mode::Half, x, y)) == drawn_pixel(img, x, y),
        lower_colour(cell_of(img, Mode::Half, x, y)) == drawn_pixel(img, x, y + 1),
        cell_colour(cell_of(img, Mode::Block, x, y)) == drawn_pixel(img, x, y),
        cell_colour(cell_of(img, Mode::Bg, x, y)) == drawn_pixel(img, x, y),
{
}

/// A 256-colour cube index names, channel by channel, a cube level nearest to the
/// colour's red, green and blue: the index is `16 + 36 * red + 6 * green + blue` over
/// level numbers 0..6.
pub proof fn law_ansi256_cube_channels(r: u8, g: u8, b: u8)
    ensures
        16 <= ansi256(r as int, g as int, b as int) <= 231 ==> {
            let c = ansi256(r as int, g as int, b as int) - 16;
            &&& forall|j: int| 0 <= j < 6 ==> abs_diff(cube_level(c / 36), r as int) <= #[trigger] abs_diff(cube_level(j), r as int)
            &&& forall|j: int| 0 <= j < 6 ==> abs_diff(cube_level((c / 6) % 6), g as int) <= #[trigger] abs_diff(cube_level(j), g as int)
            &&& forall|j: int| 0 <= j < 6 ==> abs_diff(cube_level(c % 6), b as int) <= #[trigger] abs_diff(cube_level(j), b as int)
        },
{
    let (ri, gi, bi) = (nearest_level(r as int), nearest_level(g as int), nearest_level(b as int));
    law_nearest_level(r as int);
    law_nearest_level(g as int);
    law_nearest_level(b as int);
    if 16 <= ansi256(r as int, g as int, b as int) <= 231 {
        let gs = grey_step(r as int, g as int, b as int);
        assert(0 <= gs);
        let c = ansi256(r as int, g as int, b as int) - 16;
        assert(c == 36 * ri + 6 * gi + bi);
        vstd::arithmetic::div_mod::lemma_fundamental_div_mod_converse(c, 36, ri, 6 * gi + bi);
        vstd::arithmetic::div_mod::lemma_fundamental_div_mod_converse(c, 6, 6 * ri + gi, bi);
        vstd::arithmetic::div_mod::lemma_fundamental_div_mod_converse(6 * ri + gi, 6, ri, gi);
        assert(c / 36 == ri && (c / 6) % 6 == gi && c % 6 == bi);
    }
}

/// The cube level picked for a channel is a nearest one, and the first of the nearest.
pub proof fn law_nearest_level(v: int)
    ensures
        0 <= nearest_level(v) < 6,
        forall|j: int| 0 <= j < 6 ==> abs_diff(cube_level(nearest_level(v)), v) <= #[trigger] abs_diff(cube_level(j), v),
        forall|j: int| 0 <= j < nearest_level(v) ==> abs_diff(cube_level(nearest_level(v)), v) < #[trigger] abs_diff(cube_level(j), v),
{
    lemma_nearest_level_upto(v, 6);
}

proof fn lemma_nearest_palette_upto(t: Rgb, n: int)
    requires
        1 <= n <= 16,
    ensures
        0 <= nearest_palette_upto(t, n) < n,
        forall|j: int| 0 <= j < n ==> color_dist(t, palette16(nearest_palette_upto(t, n))) <= #[trigger] color_dist(t, palette16(j)),
        forall|j: int| 0 <= j < nearest_palette_upto(t, n) ==> color_dist(t, palette16(nearest_palette_upto(t, n))) < #[trigger] color_dist(t, palette16(j)),
    decreases n,
{
    if n > 1 {
        lemma_nearest_palette_upto(t, n - 1);
    }
}

/// The 16-colour index is that of a palette entry nearest to the colour, the first
/// of the nearest.
pub proof fn law_ansi16_nearest(r: int, g: int, b: int)
    ensures
        0 <= ansi16(r, g, b) < 16,
        forall|j: int| 0 <= j < 16 ==> color_dist((r, g, b), palette16(ansi16(r, g, b))) <= #[trigger] color_dist((r, g, b), palette16(j)),
        forall|j: int| 0 <= j < ansi16(r, g, b) ==> color_dist((r, g, b), palette16(ansi16(r, g, b))) < #[trigger] color_dist((r, g, b), palette16(j)),
{
    lemma_nearest_palette_upto((r, g, b), 16);
}

/// The 256-colour index is a cube colour (16..=231) or a grey ramp entry (232..=255).
pub proof fn law_ansi256_range(r: int, g: int, b: int)
    requires
        0 <= r <= 255,
        0 <= g <= 255,
        0 <= b <= 255,
    ensures
        16 <= ansi256(r, g, b) <= 255,
{
    law_nearest_level(r);
    law_nearest_level(g);
    law_nearest_level(b);
    assert(0 <= grey_step(r, g, b) <= 23);
}

/// Shades get denser with brightness: a pixel at least as bright as another never gets
/// a lighter shade.
pub proof fn law_shade_monotone(p: Rgba, q: Rgba)
    requires
        luma(p) <= luma(q),
    ensures
        shade_level(seq![p]) <= shade_level(seq![q]),
{
    assert(seq![p].drop_last() =~= Seq::<Rgba>::empty());
    assert(seq![q].drop_last() =~= Seq::<Rgba>::empty());
    assert(luma_sum(Seq::<Rgba>::empty()) == 0);
    assert(seq![p].last() == p);
    assert(seq![q].last() == q);
    assert(luma_sum(seq![p]) == luma(p));
    assert(luma_sum(seq![q]) == luma(q));
    lemma_luma_range(p);
    lemma_luma_range(q);
    assert(luma(p) * 9 / 256 <= luma(q) * 9 / 256) by (nonlinear_arith)
        requires luma(p) <= luma(q), 0 <= luma(p);
}

/// The colour support that the environment advertises: `NO_COLOR` set and not empty
/// turns colour off; then `COLORTERM`, `TERM` and `TERM_PROGRAM` decide.
pub open spec fn advertised_color(no_color: Seq<char>, colorterm: Seq<char>, term: Seq<char>, program: Seq<char>) -> ColorLevel {
    let ct = ascii_lower(colorterm);
    let t = ascii_lower(term);
    if no_color.len() > 0 {
        ColorLevel::NoColor
    } else if ct == "truecolor"@ || ct == "24bit"@ || has_run(t, "truecolor"@) || has_run(t, "direct"@) {
        ColorLevel::True
    } else if program == "iTerm.app"@ || program == "WezTerm"@ || program == "ghostty"@ || program == "vscode"@ {
        ColorLevel::True
    } else if has_run(t, "256"@) {
        ColorLevel::Ansi256
    } else if t == "dumb"@ {
        ColorLevel::NoColor
    } else {
        ColorLevel::Ansi16
    }
}

/// Picks the richest colour support the terminal advertises, from the values of the
/// environment variables `NO_COLOR`, `COLORTERM`, `TERM` and `TERM_PROGRAM` (empty when
/// unset).
pub fn detect_color(no_color: &str, colorterm: &str, term: &str, term_program: &str) -> (level: ColorLevel)
    ensures
        level == advertised_color(no_color@, colorterm@, term@, term_program@),
{
    if !no_color.is_empty() {
        return ColorLevel::NoColor;
    }
    let colorterm = to_ascii_lower(colorterm);
    let term = to_ascii_lower(term);
    if same_text(colorterm.as_str(), "truecolor") || same_text(colorterm.as_str(), "24bit")
        || contains_text(term.as_str(), "truecolor") || contains_text(term.as_str(), "direct")
    {
        return ColorLevel::True;
    }
    if same_text(term_program, "iTerm.app") || same_text(term_program, "WezTerm")
        || same_text(term_program, "ghostty") || same_text(term_program, "vscode")
    {
        return ColorLevel::True;
    }
    if contains_text(term.as_str(), "256") {
        return ColorLevel::Ansi256;
    }
    if same_text(term.as_str(), "dumb") {
        return ColorLevel::NoColor;
    }
    ColorLevel::Ansi16
}

/// Builds one line, emitting SGR codes only when the colours change.
struct Line {
    level: ColorLevel,
    out: String,
    fg: Option<String>,
    bg: Option<String>,
    styled: bool,
}

pub open spec fn opt_view(s: Option<String>) -> Option<Seq<char>> {
    match s {
        Some(s) => Some(s@),
        None => None,
    }
}

impl Line {
    spec fn state(&self) -> LineState {
        LineState { out: self.out@, fg: opt_view(self.fg), bg: opt_view(self.bg), styled: self.styled }
    }

    fn new(level: ColorLevel) -> (line: Line)
        ensures
            line.level == level,
            line.state() == (LineState { out: Seq::empty(), fg: None, bg: None, styled: false }),
    {
        Line { level, out: String::new(), fg: None, bg: None, styled: false }
    }

    /// `fg`/`bg` of None mean the terminal default. `mono` is the text used without colour.
    fn cell(&mut self, fg: Option<Rgba>, bg: Option<Rgba>, glyph: Glyph, mono: &str)
        ensures
            final(self).level == old(self).level,
            final(self).state() == step(
                old(self).state(),
                old(self).level,
                CellSpec { fg, bg, glyph, mono: mono@ },
            ),
    {
        if self.level == ColorLevel::NoColor {
            self.out.append(mono);
            return;
        }
        let fgc: Option<String> = match fg {
            Some(c) => Some(sgr(c, self.level, false)),
            None => None,
        };
        let bgc: Option<String> = match bg {
            Some(c) => Some(sgr(c, self.level, true)),
            None => None,
        };
        let blank = glyph == Glyph::Space2 || glyph == Glyph::Space1;
        // Only the background is visible for spaces, so the foreground can stay as is.
        let fg_change = !same_code(&fgc, &self.fg) && !blank;
        let bg_change = !same_code(&bgc, &self.bg);
        push_sgr_sequence(&mut self.out, fg_change, &fgc, bg_change, &bgc);
        if fg_change || bg_change {
            self.styled = true;
        }
        if fg_change {
            self.fg = fgc;
        }
        if bg_change {
            self.bg = bgc;
        }
        push_glyph(&mut self.out, glyph);
        proof {
            assert(self.out@ =~= step(
                old(self).state(),
                old(self).level,
                CellSpec { fg, bg, glyph, mono: mono@ },
            ).out);
        }
    }

    fn finish(self) -> (s: String)
        ensures
            s@ == finish_text(self.state()),
    {
        let mut out = self.out;
        if self.styled {
            out.push('\x1b');
            out.push('[');
            out.push('0');
            out.push('m');
        }
        proof {
            assert(out@ =~= finish_text(self.state()));
        }
        out
    }
}

fn same_code(a: &Option<String>, b: &Option<String>) -> (same: bool)
    ensures
        same == (opt_view(*a) == opt_view(*b)),
{
    match (a, b) {
        (Some(x), Some(y)) => x.eq(y),
        (None, None) => true,
        _ => false,
    }
}

/// Appends the escape sequence that sets the colours that change.
fn push_sgr_sequence(out: &mut String, f: bool, fc: &Option<String>, b: bool, bc: &Option<String>)
    ensures
        final(out)@ == old(out)@ + sgr_sequence(
            f,
            code_or(opt_view(*fc), seq!['3', '9']),
            b,
            code_or(opt_view(*bc), seq!['4', '9']),
        ),
{
    if f || b {
        out.push('\x1b');
        out.push('[');
        if f {
            push_code(out, fc, '3');
        }
        if f && b {
            out.push(';');
        }
        if b {
            push_code(out, bc, '4');
        }
        out.push('m');
    }
    proof {
        assert(final(out)@ =~= old(out)@ + sgr_sequence(
            f,
            code_or(opt_view(*fc), seq!['3', '9']),
            b,
            code_or(opt_view(*bc), seq!['4', '9']),
        ));
    }
}

/// Appends the parameters in `c`, or the reset code `<first>9` for the default colour.
fn push_code(out: &mut String, c: &Option<String>, first: char)
    ensures
        final(out)@ == old(out)@ + code_or(opt_view(*c), seq![first, '9']),
{
    match c {
        Some(s) => out.append(s.as_str()),
        None => {
            out.push(first);
            out.push('9');
        },
    }
    proof {
        assert(final(out)@ =~= old(out)@ + code_or(opt_view(*c), seq![first, '9']));
    }
}

fn push_glyph(out: &mut String, g: Glyph)
    ensures
        final(out)@ == old(out)@ + glyph_text(g),
{
    match g {
        Glyph::Full => {
            out.push('█');
            out.push('█');
        },
        Glyph::Space2 => {
            out.push(' ');
            out.push(' ');
        },
        Glyph::Upper => out.push('▀'),
        Glyph::Lower => out.push('▄'),
        Glyph::Space1 => out.push(' '),
    }
    proof {
        assert(final(out)@ =~= old(out)@ + glyph_text(g));
    }
}

} // verus!
