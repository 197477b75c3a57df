use mcface::builtin::{default_skin, find, holds_default_skins, random, Builtin, Kind};

fn face(id: &'static str, name: &'static str, kind: Kind, rgba: &'static [u8]) -> Builtin {
    Builtin { id, name, kind, w: 1, h: 1, rgba }
}

/// A small catalogue: the nine default skins and two mobs, one pixel each.
fn table() -> Vec<Builtin> {
    vec![
        face("steve", "Steve", Kind::Player, &[1, 2, 3, 255]),
        face("alex", "Alex", Kind::Player, &[4, 5, 6, 255]),
        face("ari", "Ari", Kind::Player, &[7, 8, 9, 255]),
        face("efe", "Efe", Kind::Player, &[10, 11, 12, 255]),
        face("kai", "Kai", Kind::Player, &[13, 14, 15, 255]),
        face("makena", "Makena", Kind::Player, &[16, 17, 18, 255]),
        face("noor", "Noor", Kind::Player, &[19, 20, 21, 255]),
        face("sunny", "Sunny", Kind::Player, &[22, 23, 24, 255]),
        face("zuri", "Zuri", Kind::Player, &[25, 26, 27, 255]),
        face("creeper", "Creeper", Kind::Mob, &[0, 200, 0, 255]),
        face("wither_skeleton", "Wither Skeleton", Kind::Mob, &[30, 30, 30, 128]),
    ]
}

#[test]
fn all_builtins_are_well_formed() {
    for b in table() {
        assert_eq!(b.rgba.len(), (b.w * b.h * 4) as usize, "{}", b.id);
        assert!(b.rgba.chunks(4).any(|p| p[3] > 0), "{} is empty", b.id);
    }
}

#[test]
fn find_is_lenient() {
    let t = table();
    assert_eq!(find(&t, "Steve").unwrap().id, "steve");
    assert_eq!(find(&t, "wither-skeleton").unwrap().id, "wither_skeleton");
    assert!(find(&t, "nobody").is_none());
}

#[test]
fn default_skin_matches_java_hash() {
    let t = table();
    // Java: new UUID(0, 0).hashCode() == 0 -> index 0 (slim alex).
    assert_eq!(default_skin(&t, 0).0.id, "alex");
    assert!(default_skin(&t, 0).1);
    // hashCode == 15 -> index 15 (wide steve).
    let (skin, slim) = default_skin(&t, 15);
    assert_eq!((skin.id, slim), ("steve", false));
    // Negative hash -1 -> floorMod(-1, 18) == 17 (wide zuri).
    let (skin, slim) = default_skin(&t, 0xffff_ffff);
    assert_eq!((skin.id, slim), ("zuri", false));
}

#[test]
fn default_skin_uses_both_halves_of_the_uuid() {
    let t = table();
    // The high and low halves are xored: equal halves cancel to hash 0 (slim alex).
    let (skin, slim) = default_skin(&t, (7u128 << 64) | 7);
    assert_eq!((skin.id, slim), ("alex", true));
    // hashCode 8 -> index 8 (slim zuri); 9 -> index 9 (wide alex).
    assert_eq!(default_skin(&t, 8).0.id, "zuri");
    assert!(default_skin(&t, 8).1);
    let (skin, slim) = default_skin(&t, 9);
    assert_eq!((skin.id, slim), ("alex", false));
    // 18 wraps round to index 0.
    assert_eq!(default_skin(&t, 18).0.id, "alex");
}

#[test]
fn find_takes_the_first_match_and_folds_case() {
    let mut t = table();
    t.push(face("steve", "Second Steve", Kind::Mob, &[0, 0, 0, 255]));
    assert_eq!(find(&t, "STEVE").unwrap().name, "Steve");
    assert_eq!(find(&t, "Wither_Skeleton").unwrap().name, "Wither Skeleton");
    assert!(find(&t, "").is_none());
    assert!(find(&[], "steve").is_none());
}

#[test]
fn default_skins_must_all_be_present() {
    let t = table();
    assert!(holds_default_skins(&t));
    assert!(!holds_default_skins(&t[1..]));
    assert!(!holds_default_skins(&[]));
}

#[test]
fn random_picks_from_the_table() {
    let t = table();
    for _ in 0..50 {
        let b = random(&t);
        assert!(t.iter().any(|x| x.id == b.id));
    }
    let one = [face("pig", "Pig", Kind::Mob, &[255, 180, 180, 255])];
    assert_eq!(random(&one).id, "pig");
}

#[test]
fn builtin_face_is_its_pixels() {
    let b = Builtin { id: "two", name: "Two", kind: Kind::Mob, w: 2, h: 1, rgba: &[1, 2, 3, 4, 5, 6, 7, 8] };
    let img = b.face();
    assert_eq!((img.w, img.h), (2, 1));
    assert_eq!(img.get(0, 0), [1, 2, 3, 4]);
    assert_eq!(img.get(1, 0), [5, 6, 7, 8]);
}
