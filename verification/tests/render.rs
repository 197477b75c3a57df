use mcface::image::Image;
use mcface::render::{detect_color, render, sgr, to_16, to_256, ColorLevel, Mode};

fn checker() -> Image {
    let mut img = Image::new(2, 2);
    img.set(0, 0, [255, 0, 0, 255]);
    img.set(1, 1, [0, 0, 255, 255]);
    img
}

fn strip_ansi(s: &str) -> String {
    let mut out = String::new();
    let mut chars = s.chars();
    while let Some(c) = chars.next() {
        if c == '\x1b' {
            chars.by_ref().find(|&c| c == 'm');
        } else {
            out.push(c);
        }
    }
    out
}

#[test]
fn block_mode_layout() {
    let r = render(&checker(), Mode::Block, ColorLevel::True);
    assert_eq!(r.width, 4);
    assert_eq!(r.lines[0], "\x1b[38;2;255;0;0m██  \x1b[0m");
    assert_eq!(strip_ansi(&r.lines[1]), "  ██");
}

#[test]
fn bg_mode_resets_background_for_transparent_pixels() {
    let r = render(&checker(), Mode::Bg, ColorLevel::True);
    assert_eq!(r.lines[0], "\x1b[48;2;255;0;0m  \x1b[49m  \x1b[0m");
}

#[test]
fn half_mode_packs_two_rows() {
    let r = render(&checker(), Mode::Half, ColorLevel::True);
    assert_eq!((r.lines.len(), r.width), (1, 2));
    assert_eq!(strip_ansi(&r.lines[0]), "▀▄");
}

#[test]
fn mono_uses_shades() {
    let r = render(&checker(), Mode::Block, ColorLevel::NoColor);
    assert!(!r.lines[0].contains('\x1b'));
    assert_eq!(r.lines[0].chars().count(), 4);
}

#[test]
fn palette_mapping() {
    assert_eq!(to_256(255, 0, 0), 196);
    assert_eq!(to_256(128, 128, 128), 244);
    assert_eq!(to_16(250, 10, 10), 9);
    assert_eq!(sgr([0, 0, 0, 255], ColorLevel::Ansi16, true), "40");
}

#[test]
fn sgr_codes_at_every_level() {
    assert_eq!(sgr([1, 2, 3, 255], ColorLevel::True, false), "38;2;1;2;3");
    assert_eq!(sgr([255, 0, 0, 255], ColorLevel::Ansi256, true), "48;5;196");
    assert_eq!(sgr([255, 255, 255, 255], ColorLevel::Ansi16, false), "97");
    assert_eq!(sgr([1, 2, 3, 255], ColorLevel::NoColor, false), "");
    assert_eq!(to_256(0, 0, 0), 16);
    assert_eq!(to_256(255, 255, 255), 231);
    assert_eq!(to_16(0, 0, 0), 0);
}

#[test]
fn half_mode_odd_height_and_shades() {
    // Three rows: the second line has only a top pixel.
    let mut img = Image::new(1, 3);
    img.set(0, 2, [255, 255, 255, 255]);
    let r = render(&img, Mode::Half, ColorLevel::Ansi16);
    assert_eq!(r.lines.len(), 2);
    assert_eq!(r.lines[0], " ");
    assert_eq!(r.lines[1], "\x1b[97m▀\x1b[0m");
    let m = render(&img, Mode::Half, ColorLevel::NoColor);
    assert_eq!(m.lines, vec![" ".to_string(), "@".to_string()]);
    // Dark pixels get the lightest shade.
    let mut dark = Image::new(1, 1);
    dark.set(0, 0, [0, 0, 0, 255]);
    assert_eq!(render(&dark, Mode::Block, ColorLevel::NoColor).lines[0], "..");
}

#[test]
fn colours_are_only_emitted_on_change() {
    let mut img = Image::new(3, 1);
    for x in 0..3 {
        img.set(x, 0, [255, 0, 0, 255]);
    }
    let r = render(&img, Mode::Block, ColorLevel::Ansi256);
    assert_eq!(r.lines[0], "\x1b[38;5;196m██████\x1b[0m");
    // Pixels under half opacity are not drawn.
    let mut faint = Image::new(1, 1);
    faint.set(0, 0, [255, 0, 0, 127]);
    assert_eq!(render(&faint, Mode::Block, ColorLevel::True).lines[0], "  ");
}

#[test]
fn visible_width_matches_width() {
    for mode in [Mode::Block, Mode::Bg, Mode::Half] {
        for level in [ColorLevel::True, ColorLevel::Ansi256, ColorLevel::Ansi16, ColorLevel::NoColor] {
            let r = render(&checker(), mode, level);
            for line in &r.lines {
                assert_eq!(strip_ansi(line).chars().count(), r.width);
            }
        }
    }
}

#[test]
fn detect_color_reads_the_environment() {
    assert_eq!(detect_color("1", "truecolor", "xterm", ""), ColorLevel::NoColor);
    assert_eq!(detect_color("", "TrueColor", "xterm", ""), ColorLevel::True);
    assert_eq!(detect_color("", "24bit", "", ""), ColorLevel::True);
    assert_eq!(detect_color("", "", "xterm-direct", ""), ColorLevel::True);
    assert_eq!(detect_color("", "", "xterm", "WezTerm"), ColorLevel::True);
    assert_eq!(detect_color("", "", "xterm-256color", ""), ColorLevel::Ansi256);
    assert_eq!(detect_color("", "", "DUMB", ""), ColorLevel::NoColor);
    assert_eq!(detect_color("", "", "xterm", ""), ColorLevel::Ansi16);
}

#[test]
fn pixels_below_half_alpha_are_blank_whatever_their_colour() {
    let mut a = checker();
    let mut b = checker();
    a.set(1, 0, [10, 20, 30, 127]);
    b.set(1, 0, [200, 0, 0, 0]);
    a.set(0, 1, [5, 6, 7, 128]);
    b.set(0, 1, [5, 6, 7, 255]);
    for mode in [Mode::Block, Mode::Bg, Mode::Half] {
        for level in [ColorLevel::True, ColorLevel::Ansi256, ColorLevel::Ansi16, ColorLevel::NoColor] {
            let (ra, rb) = (render(&a, mode, level), render(&b, mode, level));
            assert_eq!(ra.lines, rb.lines);
            assert_eq!(ra.width, rb.width);
        }
    }
}
