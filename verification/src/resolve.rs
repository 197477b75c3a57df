//! Resolving a command-line target to a face: a built-in character right away, a
//! player through up to three requests (name lookup, profile, skin). The requests are
//! made by the caller; the steps here decide what comes next from what came back.

use vstd::prelude::*;
use vstd::string::*;
use crate::builtin::{Builtin, find, default_skin, lookup_key, is_first_with_id, has_default_skins, default_skin_id, default_skin_slot};
use crate::cli::{Target, classify_target, target_kind, unknown_character, unknown_character_text, invalid_target, face_from_skin, face_of_skin, skin_decodes, skin_error_text};
use crate::image::{Image, pixels_of};
use crate::mojang::{Error, Profile, text_of, uuid_text, format_uuid};
use crate::cli::{pixel_rows, row_hex};

verus! {

/// What is known of a resolved player.
pub struct PlayerInfo {
    pub uuid: u128,
    pub skin_url: Option<String>,
    pub slim: bool,
    /// Set when the player has no custom skin and Minecraft's default applies.
    pub default_skin: Option<&'static str>,
}

/// A target and the face it resolved to.
pub struct Resolved {
    /// The target as given.
    pub input: String,
    pub name: String,
    pub face: Image,
    /// The id of the built-in character, for a built-in target.
    pub builtin: Option<&'static str>,
    /// The player, for a player target.
    pub player: Option<PlayerInfo>,
}

/// What resolving a target needs next.
pub enum Step {
    /// Look the target up as a player name; then `after_lookup`.
    LookupName,
    /// Fetch the profile of this UUID; then `after_profile`.
    FetchProfile(u128),
    /// Fetch the skin texture at this URL for this profile; then `after_skin`.
    FetchSkin(Profile, String),
    /// The target is resolved, or the message says why not.
    Done(Result<Resolved, String>),
}

/// Every built-in's face bytes hold exactly its pixels.
pub open spec fn table_wf(table: Seq<Builtin>) -> bool {
    forall|i: int| 0 <= i < table.len() ==> (#[trigger] table[i]).wf()
}

/// `r` is the built-in character `b`, asked for as `input`.
pub open spec fn builtin_resolved(r: Resolved, input: Seq<char>, b: Builtin) -> bool {
    &&& r.input@ == input
    &&& r.name@ == b.name@
    &&& r.face.wf()
    &&& r.face.w == b.w
    &&& r.face.h == b.h
    &&& r.face.px@ == pixels_of(b.rgba@)
    &&& r.builtin == Some(b.id)
    &&& r.player is None
}

/// `r` is the player of profile `p`, asked for as `input`, drawn with the default skin
/// `b`.
pub open spec fn default_skin_resolved(r: Resolved, input: Seq<char>, p: Profile, b: Builtin) -> bool {
    &&& r.input@ == input
    &&& r.name@ == p.name@
    &&& r.face.wf()
    &&& r.face.w == b.w
    &&& r.face.h == b.h
    &&& r.face.px@ == pixels_of(b.rgba@)
    &&& r.builtin is None
    &&& r.player matches Some(info) && {
        &&& info.uuid == p.uuid
        &&& info.skin_url is None
        &&& info.slim == (default_skin_slot(p.uuid) < 9)
        &&& info.default_skin == Some(b.id)
    }
}

/// `r` is the player of profile `p`, asked for as `input`, with the face `face`.
pub open spec fn skin_resolved(r: Resolved, input: Seq<char>, p: Profile, png: Seq<u8>, overlay: bool) -> bool {
    &&& r.input@ == input
    &&& r.name@ == p.name@
    &&& face_of_skin(png, overlay, r.face)
    &&& r.builtin is None
    &&& r.player matches Some(info) && {
        &&& info.uuid == p.uuid
        &&& text_of(info.skin_url) == text_of(p.skin_url)
        &&& info.slim == p.slim
        &&& info.default_skin is None
    }
}

/// `s` is the end of resolving, with the error message `m`.
pub open spec fn failed_with(s: Step, m: Seq<char>) -> bool {
    s matches Step::Done(Err(e)) && e@ == m
}

fn resolved_builtin(b: &Builtin, input: &str) -> (r: Resolved)
    requires
        b.wf(),
    ensures
        builtin_resolved(r, input@, *b),
{
    Resolved {
        input: String::from_str(input),
        name: String::from_str(b.name),
        face: b.face(),
        builtin: Some(b.id),
        player: None,
    }
}

/// The first step for `target`: a built-in character (`@id`) is resolved from the
/// table, a UUID goes to its profile, a player name to a lookup.
pub fn start(table: &[Builtin], target: &str) -> (s: Step)
    requires
        table_wf(table@),
    ensures
        target@.len() > 0 && target@[0] == '@' ==> {
            let key = lookup_key(target@.drop_first());
            if exists|i: int| 0 <= i < table@.len() && (#[trigger] table@[i]).id@ == key {
                s matches Step::Done(Ok(r)) && exists|i: int|
                    is_first_with_id(table@, key, i) && builtin_resolved(r, target@, #[trigger] table@[i])
            } else {
                failed_with(s, unknown_character_text(target@.drop_first()))
            }
        },
        !(target@.len() > 0 && target@[0] == '@') ==> match target_kind(target@) {
            Target::Uuid(u) => s matches Step::FetchProfile(v) && v == u,
            Target::Name => s is LookupName,
            _ => failed_with(s, "not a valid player name or UUID (use @name for built-in characters)"@),
        },
{
    match classify_target(target) {
        Target::Builtin(id) => match find(table, id.as_str()) {
            Some(b) => {
                proof {
                    let i = choose|i: int| is_first_with_id(table@, lookup_key(id@), i) && *b == table@[i];
                    assert(table@[i].wf());
                }
                Step::Done(Ok(resolved_builtin(b, target)))
            },
            None => Step::Done(Err(unknown_character(id.as_str()))),
        },
        Target::Uuid(u) => Step::FetchProfile(u),
        Target::Name => Step::LookupName,
        Target::Invalid => Step::Done(Err(invalid_target())),
    }
}

/// The step after a name lookup: the profile of the UUID found, or the lookup's error.
pub fn after_lookup(found: Result<(u128, String), Error>) -> (s: Step)
    ensures
        match found {
            Ok(r) => s matches Step::FetchProfile(v) && v == r.0,
            Err(e) => failed_with(s, e.text()),
        },
{
    match found {
        Ok((uuid, _)) => Step::FetchProfile(uuid),
        Err(e) => Step::Done(Err(e.message())),
    }
}

/// The step after a profile request: the skin texture when the player has one, else
/// the default skin Minecraft gives them; or the request's error.
pub fn after_profile(table: &[Builtin], target: &str, fetched: Result<Profile, Error>) -> (s: Step)
    requires
        table_wf(table@),
        fetched matches Ok(p) && p.skin_url is None ==> has_default_skins(table@),
    ensures
        match fetched {
            Err(e) => failed_with(s, e.text()),
            Ok(p) => match p.skin_url {
                Some(url) => s matches Step::FetchSkin(q, u) && q == p && u@ == url@,
                None => s matches Step::Done(Ok(r)) && exists|i: int|
                    is_first_with_id(table@, default_skin_id(default_skin_slot(p.uuid) % 9), i)
                    && default_skin_resolved(r, target@, p, #[trigger] table@[i]),
            },
        },
{
    match fetched {
        Err(e) => Step::Done(Err(e.message())),
        Ok(p) => match &p.skin_url {
            Some(url) => {
                let u = url.clone();
                Step::FetchSkin(p, u)
            },
            None => {
                let (b, slim) = default_skin(table, p.uuid);
                proof {
                    let i = choose|i: int|
                        is_first_with_id(table@, default_skin_id(default_skin_slot(p.uuid) % 9), i) && *b == table@[i];
                    assert(table@[i].wf());
                }
                let r = Resolved {
                    input: String::from_str(target),
                    name: p.name,
                    face: b.face(),
                    builtin: None,
                    player: Some(PlayerInfo { uuid: p.uuid, skin_url: None, slim, default_skin: Some(b.id) }),
                };
                Step::Done(Ok(r))
            },
        },
    }
}

/// The last step of a player with a custom skin: the face cut from the fetched texture,
/// or why there is none.
pub fn after_skin(target: &str, profile: Profile, fetched: Result<Vec<u8>, Error>, overlay: bool) -> (s: Step)
    ensures
        match fetched {
            Err(e) => failed_with(s, e.text()),
            Ok(png) => if skin_decodes(png@) {
                s matches Step::Done(Ok(r)) && skin_resolved(r, target@, profile, png@, overlay)
            } else {
                failed_with(s, skin_error_text(png@))
            },
        },
{
    match fetched {
        Err(e) => Step::Done(Err(e.message())),
        Ok(png) => match face_from_skin(png.as_slice(), overlay) {
            Err(m) => Step::Done(Err(m)),
            Ok(face) => {
                let r = Resolved {
                    input: String::from_str(target),
                    name: profile.name,
                    face,
                    builtin: None,
                    player: Some(PlayerInfo {
                        uuid: profile.uuid,
                        skin_url: profile.skin_url,
                        slim: profile.slim,
                        default_skin: None,
                    }),
                };
                Step::Done(Ok(r))
            },
        },
    }
}


/// The player fields of a resolved target's JSON record.
pub struct PlayerFields {
    /// The UUID in its hyphenated form.
    pub uuid: String,
    pub skin_url: Option<String>,
    /// `slim` or `classic`.
    pub model: &'static str,
    pub default_skin: Option<&'static str>,
}

/// What the JSON record of a resolved target holds.
pub struct JsonFields {
    pub input: String,
    pub name: String,
    /// `player` for a player, else `builtin` for a built-in character.
    pub kind: Option<&'static str>,
    /// The built-in character's id.
    pub id: Option<&'static str>,
    pub player: Option<PlayerFields>,
    pub width: u32,
    pub height: u32,
    /// The face's rows, each pixel as eight hex digits `rrggbbaa`.
    pub pixels: Vec<String>,
}

/// The text of an optional static string.
pub open spec fn str_of(s: Option<&'static str>) -> Option<Seq<char>> {
    match s {
        Some(s) => Some(s@),
        None => None,
    }
}

/// The kind a resolved target is recorded as: a player record wins over a built-in id.
pub open spec fn kind_of(r: Resolved) -> Option<Seq<char>> {
    if r.player is Some {
        Some("player"@)
    } else if r.builtin is Some {
        Some("builtin"@)
    } else {
        None
    }
}

/// The player fields that record `p`.
pub open spec fn player_fields_of(f: PlayerFields, p: PlayerInfo) -> bool {
    &&& f.uuid@ == uuid_text(p.uuid)
    &&& text_of(f.skin_url) == text_of(p.skin_url)
    &&& f.model@ == (if p.slim { "slim"@ } else { "classic"@ })
    &&& f.default_skin == p.default_skin
}

/// The fields of the JSON record of a resolved target.
pub fn json_fields(r: &Resolved) -> (f: JsonFields)
    requires
        r.face.wf(),
        r.face.w > 0,
    ensures
        f.input@ == r.input@,
        f.name@ == r.name@,
        str_of(f.kind) == kind_of(*r),
        f.id == r.builtin,
        match r.player {
            None => f.player is None,
            Some(p) => f.player matches Some(q) && player_fields_of(q, p),
        },
        f.width == r.face.w,
        f.height == r.face.h,
        f.pixels@.len() == r.face.h,
        forall|y: int| 0 <= y < r.face.h ==> #[trigger] f.pixels@[y]@ == row_hex(r.face, y, r.face.w as int),
{
    let kind: Option<&'static str> = match (&r.player, &r.builtin) {
        (Some(_), _) => Some("player"),
        (None, Some(_)) => Some("builtin"),
        (None, None) => None,
    };
    let player = match &r.player {
        None => None,
        Some(p) => {
            let model: &'static str = if p.slim { "slim" } else { "classic" };
            let skin_url = match &p.skin_url {
                Some(u) => Some(u.clone()),
                None => None,
            };
            Some(PlayerFields { uuid: format_uuid(p.uuid), skin_url, model, default_skin: p.default_skin })
        },
    };
    JsonFields {
        input: r.input.clone(),
        name: r.name.clone(),
        kind,
        id: r.builtin,
        player,
        width: r.face.w,
        height: r.face.h,
        pixels: pixel_rows(&r.face),
    }
}

} // verus!
