use base64::Engine as _;
use mcface::mojang::{
    bad_response, classify_status, cache_fresh, fnv1a, format_uuid, https_url, is_valid_name, name_key,
    name_urls, no_player, parse_name_lookup, parse_profile, parse_uuid, player_not_found, profile_key,
    profile_url, settle_fetch, skin_key, Error, Settled,
};

#[test]
fn uuid_forms() {
    let plain = "069a79f444e94726a5befca90e38aaf5";
    let dashed = "069a79f4-44e9-4726-a5be-fca90e38aaf5";
    assert_eq!(parse_uuid(plain), parse_uuid(dashed));
    assert_eq!(format_uuid(parse_uuid(plain).unwrap()), dashed);
    assert_eq!(parse_uuid("069a79f444e94726a5befca90e38aaf"), None);
    assert_eq!(parse_uuid("069a79f4-44e94726-a5be-fca90e38aaf5"), None);
    assert_eq!(parse_uuid("zz9a79f444e94726a5befca90e38aaf5"), None);
}

#[test]
fn names() {
    assert!(is_valid_name("Notch"));
    assert!(is_valid_name("jeb_"));
    assert!(!is_valid_name("../etc"));
    assert!(!is_valid_name("a_name_that_is_too_long"));
}

#[test]
fn profile_textures() {
    let textures = r#"{"textures":{"SKIN":{"url":"http://textures.minecraft.net/texture/abc","metadata":{"model":"slim"}}}}"#;
    let body = format!(
        r#"{{"id":"069a79f444e94726a5befca90e38aaf5","name":"Notch","properties":[{{"name":"textures","value":"{}"}}]}}"#,
        base64::engine::general_purpose::STANDARD.encode(textures)
    );
    let p = parse_profile(body.as_bytes()).unwrap();
    assert_eq!(p.name, "Notch");
    assert_eq!(p.skin_url.as_deref(), Some("http://textures.minecraft.net/texture/abc"));
    assert!(p.slim);
}

#[test]
fn uuid_edge_values() {
    assert_eq!(format_uuid(0), "00000000-0000-0000-0000-000000000000");
    assert_eq!(format_uuid(u128::MAX), "ffffffff-ffff-ffff-ffff-ffffffffffff");
    assert_eq!(parse_uuid("FFFFFFFFFFFFFFFFFFFFFFFFFFFFFFFF"), Some(u128::MAX));
    assert_eq!(parse_uuid("00000000000000000000000000000001"), Some(1));
    assert_eq!(parse_uuid(""), None);
    assert_eq!(parse_uuid("069a79f4-44e9-4726-a5be-fca90e38aaf5x"), None);
    assert_eq!(parse_uuid("069a79f4+44e9-4726-a5be-fca90e38aaf5"), None);
    let u = 0x0123_4567_89ab_cdef_fedc_ba98_7654_3210u128;
    assert_eq!(parse_uuid(&format_uuid(u)), Some(u));
}

#[test]
fn name_edges() {
    assert!(is_valid_name("a"));
    assert!(is_valid_name("sixteen_chars_ok"));
    assert!(!is_valid_name("seventeen_chars__"));
    assert!(!is_valid_name(""));
    assert!(!is_valid_name("émile"));
}

#[test]
fn fnv1a_known_values() {
    assert_eq!(fnv1a(b""), 0xcbf29ce484222325);
    assert_eq!(fnv1a(b"a"), 0xaf63dc4c8601ec8c);
}

#[test]
fn profile_without_textures_and_errors() {
    let p = parse_profile(br#"{"id":"069a79f4-44e9-4726-a5be-fca90e38aaf5","name":"Notch","properties":[]}"#).unwrap();
    assert_eq!(p.uuid, 0x069a79f444e94726a5befca90e38aaf5);
    assert_eq!(p.skin_url, None);
    assert!(!p.slim);
    let e = parse_profile(br#"{"name":"Notch"}"#).err().unwrap();
    assert_eq!(e.message(), "unexpected Mojang API response (missing 'id')");
    let e = parse_profile(br#"{"id":"069a79f444e94726a5befca90e38aaf5"}"#).err().unwrap();
    assert_eq!(e.message(), "unexpected Mojang API response (missing 'name')");
    let e = parse_profile(br#"{"id":"069a79f444e94726a5befca90e38aaf5","name":"N","properties":[{"name":"textures","value":"***"}]}"#).err().unwrap();
    assert_eq!(e.message(), "unexpected Mojang API response (missing 'textures')");
    let e = parse_profile(b"not json").err().unwrap();
    assert!(e.message().starts_with("invalid JSON from Mojang API: "));
}

#[test]
fn classic_model_is_not_slim() {
    let textures = r#"{"textures":{"SKIN":{"url":"http://x/y"}}}"#;
    let body = format!(
        r#"{{"id":"069a79f444e94726a5befca90e38aaf5","name":"N","properties":[{{"name":"other","value":"x"}},{{"name":"textures","value":"{}"}}]}}"#,
        base64::engine::general_purpose::STANDARD.encode(textures)
    );
    let p = parse_profile(body.as_bytes()).unwrap();
    assert_eq!(p.skin_url.as_deref(), Some("http://x/y"));
    assert!(!p.slim);
}

#[test]
fn name_lookup_responses() {
    let (u, n) = parse_name_lookup(br#"{"id":"069a79f444e94726a5befca90e38aaf5","name":"Notch"}"#).unwrap();
    assert_eq!((u, n.as_str()), (0x069a79f444e94726a5befca90e38aaf5, "Notch"));
    let e = parse_name_lookup(br#"{"id":"nope","name":"Notch"}"#).err().unwrap();
    assert_eq!(e.message(), "unexpected Mojang API response (missing 'id')");
    assert!(matches!(bad_response("x"), Error::Other(_)));
}

#[test]
fn status_codes() {
    assert!(classify_status(200, "u").unwrap());
    assert!(!classify_status(404, "u").unwrap());
    assert!(!classify_status(204, "u").unwrap());
    assert_eq!(classify_status(429, "u").unwrap_err().message(), "rate limited by the Mojang API (HTTP 429); try again in a minute");
    assert_eq!(classify_status(500, "https://x").unwrap_err().message(), "unexpected HTTP 500 from https://x");
}

#[test]
fn cache_decisions() {
    assert!(cache_fresh(5, None));
    assert!(cache_fresh(5, Some(6)));
    assert!(!cache_fresh(6, Some(6)));
    assert!(matches!(settle_fetch(Ok(Some(vec![1])), None), Settled::Store(b) if b == vec![1]));
    assert!(matches!(settle_fetch(Ok(None), Some(vec![1])), Settled::Remove));
    assert!(matches!(settle_fetch(Err(Error::Other("x".into())), Some(vec![2])), Settled::UseStale(b, _) if b == vec![2]));
    assert!(matches!(settle_fetch(Err(Error::Other("x".into())), None), Settled::Fail(_)));
}

#[test]
fn keys_and_urls() {
    assert_eq!(name_key("Notch"), "name/notch.json");
    let (a, b) = name_urls("jeb_");
    assert_eq!(a, "https://api.mojang.com/users/profiles/minecraft/jeb_");
    assert_eq!(b, "https://api.minecraftservices.com/minecraft/profile/lookup/name/jeb_");
    assert_eq!(profile_key(1), "profile/00000000000000000000000000000001.json");
    assert_eq!(profile_url(0xab), "https://sessionserver.mojang.com/session/minecraft/profile/000000000000000000000000000000ab");
    assert_eq!(skin_key("http://textures.minecraft.net/texture/abc123"), "skin/abc123.png");
    assert_eq!(skin_key("http://x/a.b"), format!("skin/{:016x}.png", fnv1a(b"http://x/a.b")));
    assert_eq!(skin_key("http://x/"), format!("skin/{:016x}.png", fnv1a(b"http://x/")));
    assert_eq!(https_url("http://textures.minecraft.net/t/a"), "https://textures.minecraft.net/t/a");
    assert_eq!(https_url("https://a/http://b"), "https://a/https://b");
    assert_eq!(https_url("ftp://a"), "ftp://a");
    assert_eq!(player_not_found("x").message(), "player 'x' not found");
    assert_eq!(no_player(1).message(), "no player with UUID 00000000-0000-0000-0000-000000000001");
}

#[test]
fn first_textures_property_decides() {
    let textures = r#"{"textures":{"SKIN":{"url":"http://x/y","metadata":{"model":"slim"}}}}"#;
    let encoded = base64::engine::general_purpose::STANDARD.encode(textures);
    let body = format!(
        r#"{{"id":"069a79f444e94726a5befca90e38aaf5","name":"N","properties":[{{"name":"textures","value":5}},{{"name":"textures","value":"{encoded}"}}]}}"#
    );
    let p = parse_profile(body.as_bytes()).unwrap();
    assert_eq!(p.skin_url, None);
    assert!(!p.slim);
    let body = format!(
        r#"{{"id":"069a79f444e94726a5befca90e38aaf5","name":"N","properties":[{{"name":"textures","value":"{encoded}"}}]}}"#
    );
    let p = parse_profile(body.as_bytes()).unwrap();
    assert_eq!(p.skin_url.as_deref(), Some("http://x/y"));
    assert!(p.slim);
}
