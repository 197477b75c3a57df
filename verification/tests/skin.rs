use mcface::image::Image;
use mcface::skin::face;

fn skin(w: u32, h: u32, fill: [u8; 4]) -> Image {
    let mut img = Image::new(w, h);
    img.px.iter_mut().for_each(|p| *p = fill);
    img
}

#[test]
fn overlay_is_applied_on_modern_skins() {
    let mut s = skin(64, 64, [10, 10, 10, 0]);
    s.set(40, 8, [200, 0, 0, 255]);
    let f = face(&s, true).unwrap();
    assert_eq!(f.get(0, 0), [200, 0, 0, 255]);
    assert_eq!(f.get(1, 0), [10, 10, 10, 255]);
    assert_eq!(face(&s, false).unwrap().get(0, 0), [10, 10, 10, 255]);
}

#[test]
fn opaque_legacy_hat_is_ignored() {
    let s = skin(64, 32, [5, 6, 7, 255]);
    let mut s2 = s.clone();
    s2.set(40, 8, [1, 1, 1, 255]);
    assert_eq!(face(&s2, true).unwrap().get(0, 0), [5, 6, 7, 255]);
}

#[test]
fn rejects_odd_sizes() {
    assert!(face(&Image::new(32, 32), true).is_err());
}

#[test]
fn legacy_hat_with_holes_is_drawn() {
    let mut s = skin(64, 32, [5, 6, 7, 255]);
    s.set(40, 8, [1, 1, 1, 255]);
    s.set(63, 0, [0, 0, 0, 0]);
    assert_eq!(face(&s, true).unwrap().get(0, 0), [1, 1, 1, 255]);
}

#[test]
fn hd_skins_scale_the_face() {
    let mut s = skin(128, 128, [3, 3, 3, 255]);
    s.set(16, 16, [9, 9, 9, 9]);
    let f = face(&s, false).unwrap();
    assert_eq!((f.w, f.h), (16, 16));
    assert_eq!(f.get(0, 0), [9, 9, 9, 255]);
}

#[test]
fn size_errors_name_the_size() {
    assert_eq!(face(&Image::new(64, 48), true).unwrap_err(), "unsupported skin size 64x48");
    assert_eq!(face(&Image::new(96, 96), true).unwrap_err(), "unsupported skin size 96x96");
}
