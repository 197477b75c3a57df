use mcface::builtin::{Builtin, Kind};
use mcface::cli::{
    builtin_targets, classify_target, color_level, face_from_skin, faces_text, invalid_target, list_lines,
    pixel_rows, png_path, png_path_ok, term_columns, unknown_character, Target,
};
use mcface::image::Image;
use mcface::layout::layout;
use mcface::render::{render, ColorLevel, Mode, Rendered};

#[test]
fn color_level_names() {
    assert_eq!(color_level("truecolor"), Some(ColorLevel::True));
    assert_eq!(color_level("256"), Some(ColorLevel::Ansi256));
    assert_eq!(color_level("16"), Some(ColorLevel::Ansi16));
    assert_eq!(color_level("none"), Some(ColorLevel::NoColor));
    assert_eq!(color_level("auto"), None);
}

#[test]
fn targets_are_classified() {
    assert!(matches!(classify_target("@steve"), Target::Builtin(id) if id == "steve"));
    assert!(matches!(classify_target("069a79f4-44e9-4726-a5be-fca90e38aaf5"), Target::Uuid(0x069a79f444e94726a5befca90e38aaf5)));
    assert!(matches!(classify_target("Notch"), Target::Name));
    assert!(matches!(classify_target("../etc"), Target::Invalid));
    assert_eq!(invalid_target(), "not a valid player name or UUID (use @name for built-in characters)");
    assert_eq!(unknown_character("x"), "unknown character '@x' (see --list)");
}

#[test]
fn png_paths() {
    assert!(png_path_ok("face.png", 1));
    assert!(!png_path_ok("face.png", 2));
    assert!(png_path_ok("faces/{}.png", 2));
    assert_eq!(png_path("faces/{}.png", "Wither Skeleton"), "faces/Wither_Skeleton.png");
    assert_eq!(png_path("{}-{}", "a b"), "a_b-a_b");
    assert_eq!(png_path("plain.png", "x"), "plain.png");
}

#[test]
fn builtin_listing() {
    let t = [
        Builtin { id: "steve", name: "Steve", kind: Kind::Player, w: 1, h: 1, rgba: &[0, 0, 0, 255] },
        Builtin { id: "creeper", name: "Creeper", kind: Kind::Mob, w: 1, h: 1, rgba: &[0, 0, 0, 255] },
    ];
    assert_eq!(builtin_targets(&t), vec!["@steve".to_string(), "@creeper".to_string()]);
    assert_eq!(
        list_lines(&t),
        vec![
            "Default skins:".to_string(),
            "  @steve            Steve".to_string(),
            "Mobs:".to_string(),
            "  @creeper          Creeper".to_string(),
        ]
    );
}

#[test]
fn json_pixel_rows() {
    let mut img = Image::new(2, 1);
    img.set(1, 0, [1, 0xab, 255, 16]);
    assert_eq!(pixel_rows(&img), vec!["00000000" .to_string() + "01abff10"]);
}

#[test]
fn columns_from_environment() {
    assert_eq!(term_columns("80"), Some(80));
    assert_eq!(term_columns("+7"), Some(7));
    assert_eq!(term_columns("0"), None);
    assert_eq!(term_columns(""), None);
    assert_eq!(term_columns("+"), None);
    assert_eq!(term_columns("-5"), None);
    assert_eq!(term_columns("12a"), None);
    assert_eq!(term_columns("99999999999999999999999999"), None);
}

fn block(width: usize, lines: &[&str], name: &str) -> (Rendered, String) {
    (Rendered { lines: lines.iter().map(|s| s.to_string()).collect(), width }, name.to_string())
}

#[test]
fn layout_wraps_and_centres() {
    let blocks = vec![block(2, &["ab", "cd"], "x"), block(2, &["ef"], "y"), block(2, &["gh"], "z")];
    assert_eq!(layout(&blocks, false, 6), "ab  ef\ncd\n\ngh\n");
    assert_eq!(layout(&blocks, false, usize::MAX), "ab  ef  gh\ncd\n");
    // Names wider than the face widen its column; the face is centred in it.
    let named = vec![block(2, &["ab"], "long")];
    assert_eq!(layout(&named, true, 80), " ab\nlong\n");
    // A face wider than the terminal still gets a row of its own.
    assert_eq!(layout(&blocks, false, 1), "ab\ncd\n\nef\n\ngh\n");
    assert_eq!(layout(&Vec::new(), true, 80), "\n");
}

#[test]
fn faces_render_and_lay_out() {
    let mut img = Image::new(1, 1);
    img.set(0, 0, [255, 255, 255, 255]);
    let text = faces_text(&vec![(img.clone(), "W".to_string())], Mode::Block, ColorLevel::NoColor, 2, true, 80);
    assert_eq!(text, "@@@@\n@@@@\n W\n");
    let r = render(&img.scale(2), Mode::Block, ColorLevel::NoColor);
    assert_eq!(r.lines, vec!["@@@@".to_string(), "@@@@".to_string()]);
}

#[test]
fn skins_from_png_bytes() {
    let mut s = Image::new(64, 64);
    s.set(8, 8, [1, 2, 3, 0]);
    let f = face_from_skin(&s.encode_png(), false).unwrap();
    assert_eq!((f.w, f.h), (8, 8));
    assert_eq!(f.get(0, 0), [1, 2, 3, 255]);
    let small = Image::new(1, 1);
    assert_eq!(face_from_skin(&small.encode_png(), true).unwrap_err(), "unsupported skin size 1x1");
    assert!(face_from_skin(b"junk", true).is_err());
}
