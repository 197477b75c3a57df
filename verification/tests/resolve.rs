use mcface::builtin::{Builtin, Kind};
use mcface::image::Image;
use mcface::mojang::{Error, Profile};
use mcface::resolve::{after_lookup, after_profile, after_skin, start, Step};

fn face(id: &'static str, name: &'static str, kind: Kind, rgba: &'static [u8]) -> Builtin {
    Builtin { id, name, kind, w: 1, h: 1, rgba }
}

fn table() -> Vec<Builtin> {
    vec![
        face("steve", "Steve", Kind::Player, &[1, 2, 3, 255]),
        face("alex", "Alex", Kind::Player, &[4, 5, 6, 255]),
        face("ari", "Ari", Kind::Player, &[7, 8, 9, 255]),
        face("efe", "Efe", Kind::Player, &[10, 11, 12, 255]),
        face("kai", "Kai", Kind::Player, &[13, 14, 15, 255]),
        face("makena", "Makena", Kind::Player, &[16, 17, 18, 255]),
        face("noor", "Noor", Kind::Player, &[19, 20, 21, 255]),
        face("sunny", "Sunny", Kind::Player, &[22, 23, 24, 255]),
        face("zuri", "Zuri", Kind::Player, &[25, 26, 27, 255]),
        face("creeper", "Creeper", Kind::Mob, &[0, 200, 0, 255]),
    ]
}

fn profile(uuid: u128, skin_url: Option<&str>) -> Profile {
    Profile {
        uuid,
        name: "Notch".to_string(),
        skin_url: skin_url.map(str::to_string),
        slim: false,
    }
}

#[test]
fn builtin_targets_resolve_at_once() {
    let t = table();
    match start(&t, "@Creeper") {
        Step::Done(Ok(r)) => {
            assert_eq!(r.input, "@Creeper");
            assert_eq!(r.name, "Creeper");
            assert_eq!(r.builtin, Some("creeper"));
            assert!(r.player.is_none());
            assert_eq!(r.face, Image { w: 1, h: 1, px: vec![[0, 200, 0, 255]] });
        }
        _ => panic!("expected a resolved built-in"),
    }
    match start(&t, "@nobody") {
        Step::Done(Err(m)) => assert_eq!(m, "unknown character '@nobody' (see --list)"),
        _ => panic!("expected an unknown character"),
    }
}

#[test]
fn player_targets_ask_for_requests() {
    let t = table();
    assert!(matches!(start(&t, "Notch"), Step::LookupName));
    assert!(matches!(
        start(&t, "069a79f4-44e9-4726-a5be-fca90e38aaf5"),
        Step::FetchProfile(0x069a79f444e94726a5befca90e38aaf5)
    ));
    match start(&t, "not a name!") {
        Step::Done(Err(m)) => {
            assert_eq!(m, "not a valid player name or UUID (use @name for built-in characters)")
        }
        _ => panic!("expected an invalid target"),
    }
}

#[test]
fn lookup_leads_to_the_profile() {
    assert!(matches!(after_lookup(Ok((42, "Notch".to_string()))), Step::FetchProfile(42)));
    match after_lookup(Err(Error::NotFound("player 'x' not found".to_string()))) {
        Step::Done(Err(m)) => assert_eq!(m, "player 'x' not found"),
        _ => panic!("expected the lookup's error"),
    }
}

#[test]
fn profile_without_skin_gets_the_default_skin() {
    let t = table();
    // UUID 15 hashes to slot 15: the wide Steve.
    match after_profile(&t, "Notch", Ok(profile(15, None))) {
        Step::Done(Ok(r)) => {
            assert_eq!(r.name, "Notch");
            assert_eq!(r.face.px, vec![[1, 2, 3, 255]]);
            assert!(r.builtin.is_none());
            let p = r.player.unwrap();
            assert_eq!((p.uuid, p.slim, p.default_skin), (15, false, Some("steve")));
            assert!(p.skin_url.is_none());
        }
        _ => panic!("expected the default skin"),
    }
}

#[test]
fn profile_with_skin_asks_for_the_texture() {
    let t = table();
    let url = "http://textures.minecraft.net/texture/abc";
    match after_profile(&t, "Notch", Ok(profile(1, Some(url)))) {
        Step::FetchSkin(p, u) => {
            assert_eq!(u, url);
            assert_eq!(p.uuid, 1);
        }
        _ => panic!("expected a skin request"),
    }
    match after_profile(&t, "Notch", Err(Error::Other("request failed: timeout".to_string()))) {
        Step::Done(Err(m)) => assert_eq!(m, "request failed: timeout"),
        _ => panic!("expected the request's error"),
    }
}

#[test]
fn skin_texture_gives_the_face() {
    let mut skin = Image::new(64, 64);
    skin.set(8, 8, [10, 20, 30, 255]);
    let png = skin.encode_png();
    let url = "http://textures.minecraft.net/texture/abc";
    match after_skin("Notch", profile(7, Some(url)), Ok(png), true) {
        Step::Done(Ok(r)) => {
            assert_eq!((r.face.w, r.face.h), (8, 8));
            assert_eq!(r.face.get(0, 0), [10, 20, 30, 255]);
            let p = r.player.unwrap();
            assert_eq!(p.skin_url.as_deref(), Some(url));
            assert!(p.default_skin.is_none());
        }
        _ => panic!("expected a face"),
    }
    match after_skin("Notch", profile(7, Some(url)), Ok(b"not a png".to_vec()), true) {
        Step::Done(Err(m)) => assert!(m.starts_with("invalid PNG: "), "{m}"),
        _ => panic!("expected a decoding error"),
    }
    match after_skin("Notch", profile(7, Some(url)), Err(Error::Other("gone".to_string())), true) {
        Step::Done(Err(m)) => assert_eq!(m, "gone"),
        _ => panic!("expected the request's error"),
    }
}

#[test]
fn json_fields_of_players_and_builtins() {
    let t = table();
    let r = match start(&t, "@creeper") {
        Step::Done(Ok(r)) => r,
        _ => panic!("expected a built-in"),
    };
    let f = mcface::resolve::json_fields(&r);
    assert_eq!((f.kind, f.id, f.width, f.height), (Some("builtin"), Some("creeper"), 1, 1));
    assert!(f.player.is_none());
    assert_eq!(f.pixels, vec!["00c800ff".to_string()]);
    let r = match after_profile(&t, "Notch", Ok(profile(15, None))) {
        Step::Done(Ok(r)) => r,
        _ => panic!("expected the default skin"),
    };
    let f = mcface::resolve::json_fields(&r);
    assert_eq!((f.kind, f.id), (Some("player"), None));
    let p = f.player.unwrap();
    assert_eq!(p.uuid, "00000000-0000-0000-0000-00000000000f");
    assert_eq!((p.model, p.default_skin, p.skin_url), ("classic", Some("steve"), None));
}
