//! The decisions of the `mcface` command: what a target names, where a face is written,
//! how the built-in list and the JSON pixels read, and the text that faces make.

use vstd::prelude::*;
use vstd::string::*;
use crate::builtin::{Builtin, Kind};
use crate::image::{Image, PngColor};
use crate::mojang::{uuid_of, valid_name, parse_uuid, is_valid_name};
use crate::render::{ColorLevel, Mode, Rendered, render};
use crate::layout::{layout, layout_text, byte_len};
use crate::text::{has_run, contains_text, starts_with, text_starts_with, hex_fixed, push_hex};

verus! {

/// The colour level the `--color` option names; `None` for `auto`, which asks the
/// terminal.
pub open spec fn color_level_named(s: Seq<char>) -> Option<ColorLevel> {
    if s == "truecolor"@ {
        Some(ColorLevel::True)
    } else if s == "256"@ {
        Some(ColorLevel::Ansi256)
    } else if s == "16"@ {
        Some(ColorLevel::Ansi16)
    } else if s == "none"@ {
        Some(ColorLevel::NoColor)
    } else {
        None
    }
}

/// The colour level the `--color` option names; `None` for `auto`, which asks the
/// terminal.
pub fn color_level(s: &str) -> (level: Option<ColorLevel>)
    ensures
        level == color_level_named(s@),
{
    if crate::text::same_text(s, "truecolor") {
        Some(ColorLevel::True)
    } else if crate::text::same_text(s, "256") {
        Some(ColorLevel::Ansi256)
    } else if crate::text::same_text(s, "16") {
        Some(ColorLevel::Ansi16)
    } else if crate::text::same_text(s, "none") {
        Some(ColorLevel::NoColor)
    } else {
        None
    }
}

/// What a command-line target names.
pub enum Target {
    /// `@id`: a built-in character.
    Builtin(String),
    /// A UUID, with or without hyphens.
    Uuid(u128),
    /// A player name, to be looked up.
    Name,
    /// Neither.
    Invalid,
}

/// What a command-line target that does not start with `@` names: a UUID first,
/// then a player name.
pub open spec fn target_kind(t: Seq<char>) -> Target {
    match uuid_of(t) {
        Some(u) => Target::Uuid(u),
        None => if valid_name(t) {
            Target::Name
        } else {
            Target::Invalid
        },
    }
}

/// Classifies a target: `@id` names a built-in character (the id follows the `@`),
/// then a UUID, then a player name.
pub fn classify_target(t: &str) -> (k: Target)
    ensures
        t@.len() > 0 && t@[0] == '@' ==> (k matches Target::Builtin(id) && id@ == t@.drop_first()),
        !(t@.len() > 0 && t@[0] == '@') ==> match target_kind(t@) {
            Target::Uuid(u) => k == Target::Uuid(u),
            Target::Name => k is Name,
            _ => k is Invalid,
        },
{
    let n = t.unicode_len();
    if n > 0 && t.get_char(0) == '@' {
        let id = String::from_str(t.substring_char(1, n));
        proof {
            assert(t@.subrange(1, n as int) =~= t@.drop_first());
        }
        return Target::Builtin(id);
    }
    match parse_uuid(t) {
        Some(u) => Target::Uuid(u),
        None => if is_valid_name(t) {
            Target::Name
        } else {
            Target::Invalid
        },
    }
}

/// The error for a target that is neither a player nor a UUID.
pub fn invalid_target() -> (m: String)
    ensures
        m@ == "not a valid player name or UUID (use @name for built-in characters)"@,
{
    String::from_str("not a valid player name or UUID (use @name for built-in characters)")
}

/// The error for an unknown built-in character.
pub open spec fn unknown_character_text(id: Seq<char>) -> Seq<char> {
    "unknown character '@"@ + id + "' (see --list)"@
}

/// The error for an unknown built-in character.
pub fn unknown_character(id: &str) -> (m: String)
    ensures
        m@ == unknown_character_text(id@),
{
    let mut m = String::from_str("unknown character '@");
    m.append(id);
    m.append("' (see --list)");
    m
}

/// `f` is the face cut from the skin that the PNG file `png` decodes to.
pub open spec fn face_of_skin(png: Seq<u8>, overlay: bool, f: Image) -> bool {
    exists|skin: Image| {
        &&& skin.wf()
        &&& crate::image::png_image(png) == Ok::<(u32, u32, Seq<crate::image::Rgba>), Seq<char>>((skin.w, skin.h, skin.px@))
        &&& crate::skin::supported_skin(skin.w, skin.h)
        &&& f.wf()
        &&& f.w == 8 * (skin.w / 64)
        &&& f.h == 8 * (skin.w / 64)
        &&& forall|i: int, j: int| 0 <= i < f.w && 0 <= j < f.h ==> #[trigger] f.at(i, j) == crate::skin::face_at(skin, overlay, i, j)
    }
}

/// Whether the PNG file `png` decodes to a skin of a supported size.
pub open spec fn skin_decodes(png: Seq<u8>) -> bool {
    crate::image::png_image(png) matches Ok((w, h, _)) && crate::skin::supported_skin(w, h)
}

/// The error `face_from_skin` gives for a PNG file that holds no usable skin: the
/// decoding error, or the size of a decoded skin that is not supported.
pub open spec fn skin_error_text(png: Seq<u8>) -> Seq<char> {
    match crate::image::png_image(png) {
        Err(m) => m,
        Ok((w, h, _)) => crate::skin::unsupported_size_text(w, h),
    }
}

/// The face of a player from the bytes of their skin texture, a PNG file.
pub fn face_from_skin(png: &[u8], overlay: bool) -> (res: Result<Image, String>)
    ensures
        res is Ok <==> skin_decodes(png@),
        res matches Ok(f) ==> face_of_skin(png@, overlay, f),
        res matches Err(e) ==> e@ == skin_error_text(png@),
        forall|w: u32, h: u32, data: Seq<u8>|
            #[trigger] crate::image::png_encoded(w, h, data) == png@ && crate::image::encodable_rgba(w, h, data)
                && w * h <= u32::MAX ==> {
                &&& (res is Ok <==> crate::skin::supported_skin(w, h))
                &&& (res matches Err(e) ==> e@ == crate::skin::unsupported_size_text(w, h))
            },
{
    let skin = Image::decode_png(png)?;
    if skin.h > u32::MAX / 2 {
        let mut msg = String::from_str("unsupported skin size ");
        crate::text::push_decimal(&mut msg, skin.w as u64);
        msg.append("x");
        crate::text::push_decimal(&mut msg, skin.h as u64);
        proof {
            assert(msg@ =~= crate::skin::unsupported_size_text(skin.w, skin.h));
            assert(skin.w >= 64 ==> skin.w * skin.h >= 64 * skin.h) by (nonlinear_arith);
            assert(!crate::skin::supported_skin(skin.w, skin.h));
        }
        return Err(msg);
    }
    crate::skin::face(&skin, overlay)
}

/// With several targets, a `--png` path must hold `{}`, to be replaced by each name.
pub open spec fn png_path_usable(path: Seq<char>, targets: nat) -> bool {
    targets <= 1 || has_run(path, "{}"@)
}

/// Whether a `--png` path can take all the targets.
pub fn png_path_ok(path: &str, targets: usize) -> (ok: bool)
    ensures
        ok == png_path_usable(path@, targets as nat),
{
    targets <= 1 || contains_text(path, "{}")
}

/// `s` with every `from` character replaced by the text `to`.
pub open spec fn replace_char(s: Seq<char>, from: char, to: Seq<char>) -> Seq<char>
    decreases s.len(),
{
    if s.len() == 0 {
        s
    } else {
        replace_char(s.drop_last(), from, to) + if s.last() == from {
            to
        } else {
            seq![s.last()]
        }
    }
}

/// `s` with every `{}` replaced by `to`, scanning from the left.
pub open spec fn replace_braces(s: Seq<char>, to: Seq<char>) -> Seq<char>
    decreases s.len(),
{
    if s.len() == 0 {
        s
    } else if s.len() >= 2 && s[0] == '{' && s[1] == '}' {
        to + replace_braces(s.subrange(2, s.len() as int), to)
    } else {
        seq![s[0]] + replace_braces(s.drop_first(), to)
    }
}

/// The file a face is written to: `{}` in the path replaced by the name, with spaces
/// in the name turned into underscores.
pub open spec fn png_path_text(path: Seq<char>, name: Seq<char>) -> Seq<char> {
    replace_braces(path, replace_char(name, ' ', seq!['_']))
}

/// The file a face is written to.
pub fn png_path(path: &str, name: &str) -> (p: String)
    ensures
        p@ == png_path_text(path@, name@),
{
    let m = name.unicode_len();
    let mut fill = String::new();
    let mut j: usize = 0;
    while j < m
        invariant
            m == name@.len(),
            j <= m,
            fill@ == replace_char(name@.subrange(0, j as int), ' ', seq!['_']),
        decreases m - j,
    {
        let c = name.get_char(j);
        if c == ' ' {
            fill.push('_');
        } else {
            fill.push(c);
        }
        proof {
            assert(name@.subrange(0, j + 1).drop_last() =~= name@.subrange(0, j as int));
        }
        j = j + 1;
        proof {
            assert(fill@ =~= replace_char(name@.subrange(0, j as int), ' ', seq!['_']));
        }
    }
    proof {
        assert(name@.subrange(0, m as int) =~= name@);
    }
    let n = path.unicode_len();
    let mut out = String::new();
    let mut i: usize = 0;
    proof {
        assert(path@.subrange(0, n as int) =~= path@);
    }
    while i < n
        invariant
            n == path@.len(),
            i <= n,
            out@ + replace_braces(path@.subrange(i as int, n as int), fill@) == png_path_text(path@, name@),
        decreases n - i,
    {
        let ghost rest = path@.subrange(i as int, n as int);
        if i + 1 < n && path.get_char(i) == '{' && path.get_char(i + 1) == '}' {
            out.append(fill.as_str());
            proof {
                assert(rest.subrange(2, rest.len() as int) =~= path@.subrange(i + 2, n as int));
                assert(out@ + replace_braces(path@.subrange(i + 2, n as int), fill@) =~= png_path_text(path@, name@));
            }
            i = i + 2;
        } else {
            let c = path.get_char(i);
            out.push(c);
            proof {
                assert(rest.drop_first() =~= path@.subrange(i + 1, n as int));
                assert(out@ + replace_braces(path@.subrange(i + 1, n as int), fill@) =~= png_path_text(path@, name@));
            }
            i = i + 1;
        }
    }
    proof {
        assert(path@.subrange(n as int, n as int) =~= Seq::<char>::empty());
        assert(out@ =~= png_path_text(path@, name@));
    }
    out
}

/// `@id` for every built-in character, in table order.
pub fn builtin_targets(table: &[Builtin]) -> (targets: Vec<String>)
    ensures
        targets@.len() == table@.len(),
        forall|i: int| 0 <= i < table@.len() ==> #[trigger] targets@[i]@ == seq!['@'] + table@[i].id@,
{
    let mut targets: Vec<String> = Vec::new();
    let mut i: usize = 0;
    while i < table.len()
        invariant
            i <= table@.len(),
            targets@.len() == i,
            forall|k: int| 0 <= k < i ==> #[trigger] targets@[k]@ == seq!['@'] + table@[k].id@,
        decreases table@.len() - i,
    {
        let mut t = String::new();
        t.push('@');
        t.append(table[i].id);
        targets.push(t);
        i = i + 1;
    }
    targets
}

/// `s` padded with spaces on the right to `w` characters.
pub open spec fn pad_right(s: Seq<char>, w: int) -> Seq<char> {
    s + crate::layout::spaces(w - s.len())
}

/// The line listing one built-in character: its `@id` padded to 17 columns, then its name.
pub open spec fn list_line(b: Builtin) -> Seq<char> {
    "  @"@ + pad_right(b.id@, 16) + " "@ + b.name@
}

/// The lines listing the built-ins of one kind, in table order.
pub open spec fn kind_lines(table: Seq<Builtin>, kind: Kind) -> Seq<Seq<char>>
    decreases table.len(),
{
    if table.len() == 0 {
        Seq::empty()
    } else {
        kind_lines(table.drop_last(), kind) + if table.last().kind == kind {
            seq![list_line(table.last())]
        } else {
            Seq::empty()
        }
    }
}

/// The `--list` output: the default skins, then the mobs.
pub open spec fn list_text(table: Seq<Builtin>) -> Seq<Seq<char>> {
    seq!["Default skins:"@] + kind_lines(table, Kind::Player) + seq!["Mobs:"@] + kind_lines(table, Kind::Mob)
}

fn push_kind_lines(out: &mut Vec<String>, table: &[Builtin], kind: Kind)
    ensures
        final(out)@.map_values(|s: String| s@) == old(out)@.map_values(|s: String| s@) + kind_lines(table@, kind),
{
    let mut i: usize = 0;
    while i < table.len()
        invariant
            i <= table@.len(),
            out@.map_values(|s: String| s@) == old(out)@.map_values(|s: String| s@) + kind_lines(table@.subrange(0, i as int), kind),
        decreases table@.len() - i,
    {
        proof {
            assert(table@.subrange(0, i + 1).drop_last() =~= table@.subrange(0, i as int));
        }
        let b = &table[i];
        let ghost before = out@.map_values(|s: String| s@);
        if b.kind == kind {
            let mut line = String::from_str("  @");
            line.append(b.id);
            let n = b.id.unicode_len();
            let mut k: usize = n;
            while k < 16
                invariant
                    n == b.id@.len(),
                    n <= k <= 16 || (n > 16 && k == n),
                    line@ == "  @"@ + b.id@ + crate::layout::spaces(k - n),
                decreases 16 - k,
            {
                line.push(' ');
                k = k + 1;
                proof {
                    assert(line@ =~= "  @"@ + b.id@ + crate::layout::spaces(k - n));
                }
            }
            line.append(" ");
            line.append(b.name);
            proof {
                assert(line@ =~= list_line(*b));
            }
            out.push(line);
            proof {
                assert(out@.map_values(|s: String| s@) =~= before.push(list_line(*b)));
            }
        } else {
            proof {
                assert(out@.map_values(|s: String| s@) =~= before);
            }
        }
        i = i + 1;
        proof {
            assert(out@.map_values(|s: String| s@) =~= old(out)@.map_values(|s: String| s@) + kind_lines(table@.subrange(0, i as int), kind));
        }
    }
    proof {
        assert(table@.subrange(0, table@.len() as int) =~= table@);
    }
}

/// The lines of the `--list` output.
pub fn list_lines(table: &[Builtin]) -> (lines: Vec<String>)
    ensures
        lines@.map_values(|s: String| s@) == list_text(table@),
{
    let mut lines: Vec<String> = Vec::new();
    lines.push(String::from_str("Default skins:"));
    proof {
        assert(lines@.map_values(|s: String| s@) =~= seq!["Default skins:"@]);
    }
    push_kind_lines(&mut lines, table, Kind::Player);
    let ghost mid = lines@.map_values(|s: String| s@);
    lines.push(String::from_str("Mobs:"));
    proof {
        assert(lines@.map_values(|s: String| s@) =~= mid.push("Mobs:"@));
    }
    push_kind_lines(&mut lines, table, Kind::Mob);
    proof {
        assert(lines@.map_values(|s: String| s@) =~= list_text(table@));
    }
    lines
}

/// A pixel as eight lowercase hex digits: red, green, blue, alpha.
pub open spec fn pixel_hex(p: crate::image::Rgba) -> Seq<char> {
    hex_fixed(p[0] as nat, 2) + hex_fixed(p[1] as nat, 2) + hex_fixed(p[2] as nat, 2) + hex_fixed(p[3] as nat, 2)
}

/// The first `n` pixels of row `y`, in hex.
pub open spec fn row_hex(img: Image, y: int, n: int) -> Seq<char>
    decreases n,
{
    if n <= 0 {
        Seq::empty()
    } else {
        row_hex(img, y, n - 1) + pixel_hex(img.at(n - 1, y))
    }
}

/// The rows of an image's pixels as hex text, as the JSON output lists them.
pub fn pixel_rows(img: &Image) -> (rows: Vec<String>)
    requires
        img.wf(),
        img.w > 0,
    ensures
        rows@.len() == img.h,
        forall|y: int| 0 <= y < img.h ==> #[trigger] rows@[y]@ == row_hex(*img, y, img.w as int),
{
    let mut rows: Vec<String> = Vec::new();
    let mut y: u32 = 0;
    while y < img.h
        invariant
            img.wf(),
            y <= img.h,
            rows@.len() == y,
            forall|k: int| 0 <= k < y ==> #[trigger] rows@[k]@ == row_hex(*img, k, img.w as int),
        decreases img.h - y,
    {
        let mut row = String::new();
        let mut x: u32 = 0;
        while x < img.w
            invariant
                img.wf(),
                y < img.h,
                x <= img.w,
                row@ == row_hex(*img, y as int, x as int),
            decreases img.w - x,
        {
            proof {
                crate::image::lemma_index_in_bounds(img.w as int, img.h as int, x as int, y as int);
            }
            let p = img.get(x, y);
            push_hex(&mut row, p[0] as u128, 2);
            push_hex(&mut row, p[1] as u128, 2);
            push_hex(&mut row, p[2] as u128, 2);
            push_hex(&mut row, p[3] as u128, 2);
            x = x + 1;
            proof {
                assert(row@ =~= row_hex(*img, y as int, x as int));
            }
        }
        rows.push(row);
        y = y + 1;
    }
    rows
}

/// A decimal digit.
pub open spec fn is_digit(c: char) -> bool {
    '0' <= c <= '9'
}

/// The number that a run of decimal digits spells.
pub open spec fn decimal_value(s: Seq<char>) -> nat
    decreases s.len(),
{
    if s.len() == 0 {
        0
    } else {
        decimal_value(s.drop_last()) * 10 + (s.last() as nat - 48) as nat
    }
}

/// The `usize` that text spells as Rust reads one: an optional `+`, then at least one
/// decimal digit, with a value that fits.
pub open spec fn parsed_usize(s: Seq<char>) -> Option<nat> {
    let d = unsigned_part(s);
    if d.len() > 0 && all_digits(d) && decimal_value(d) <= usize::MAX {
        Some(decimal_value(d))
    } else {
        None
    }
}

/// The text after an optional leading `+`.
pub open spec fn unsigned_part(s: Seq<char>) -> Seq<char> {
    if s.len() > 0 && s[0] == '+' {
        s.drop_first()
    } else {
        s
    }
}

/// Every character is a decimal digit.
pub open spec fn all_digits(d: Seq<char>) -> bool {
    forall|i: int| 0 <= i < d.len() ==> #[trigger] is_digit(d[i])
}

proof fn lemma_decimal_value_grows(s: Seq<char>, k: int)
    requires
        0 <= k <= s.len(),
        forall|i: int| 0 <= i < s.len() ==> #[trigger] is_digit(s[i]),
    ensures
        decimal_value(s.subrange(0, k)) <= decimal_value(s),
    decreases s.len() - k,
{
    if k < s.len() {
        lemma_decimal_value_grows(s, k + 1);
        assert(s.subrange(0, k + 1).drop_last() =~= s.subrange(0, k));
    } else {
        assert(s.subrange(0, k) =~= s);
    }
}

/// The terminal width that a `COLUMNS` value gives: a positive `usize`, or nothing.
pub fn term_columns(v: &str) -> (cols: Option<usize>)
    ensures
        cols == (match parsed_usize(v@) {
            Some(n) => if n > 0 { Some(n as usize) } else { None::<usize> },
            None => None::<usize>,
        }),
{
    let n = v.unicode_len();
    let start: usize = if n > 0 && v.get_char(0) == '+' { 1 } else { 0 };
    let ghost d = unsigned_part(v@);
    proof {
        assert(d =~= v@.subrange(start as int, n as int));
    }
    if start == n {
        return None;
    }
    let mut value: usize = 0;
    let mut i: usize = start;
    while i < n
        invariant
            n == v@.len(),
            start <= i <= n,
            d == unsigned_part(v@),
            d == v@.subrange(start as int, n as int),
            forall|k: int| start <= k < i ==> #[trigger] is_digit(v@[k]),
            value == decimal_value(v@.subrange(start as int, i as int)),
        decreases n - i,
    {
        let c = v.get_char(i);
        if !('0' <= c && c <= '9') {
            proof {
                assert(d[i - start] == v@[i as int]);
                assert(!is_digit(d[i - start]));
                assert(!all_digits(d));
                assert(parsed_usize(v@) is None);
            }
            return None;
        }
        let digit: usize = (c as u32 - 48) as usize;
        proof {
            assert(v@.subrange(start as int, i + 1).drop_last() =~= v@.subrange(start as int, i as int));
        }
        let ghost next = v@.subrange(start as int, i + 1);
        proof {
            assert(decimal_value(next) == value * 10 + digit);
        }
        let grown = value.checked_mul(10);
        let sum = match grown {
            Some(t) => t.checked_add(digit),
            None => None,
        };
        match sum {
            Some(u) => {
                value = u;
            },
            None => {
                proof {
                    assert(decimal_value(next) > usize::MAX);
                    if all_digits(d) {
                        lemma_decimal_value_grows(d, i + 1 - start);
                        assert(d.subrange(0, i + 1 - start) =~= next);
                        assert(decimal_value(d) > usize::MAX);
                    }
                    assert(parsed_usize(v@) is None);
                }
                return None;
            },
        }
        i = i + 1;
    }
    proof {
        assert(v@.subrange(start as int, n as int) =~= d);
        assert forall|k: int| 0 <= k < d.len() implies #[trigger] is_digit(d[k]) by {
            assert(d[k] == v@[start + k]);
        }
    }
    if value > 0 {
        Some(value)
    } else {
        None
    }
}

/// `b` is the face `img`, scaled by `scale` to `scaled` and rendered.
pub open spec fn block_of(b: Rendered, img: Image, scaled: Image, mode: Mode, level: ColorLevel, scale: u32) -> bool {
    &&& scaled.wf()
    &&& scaled.w == img.w * scale
    &&& scaled.h == img.h * scale
    &&& (forall|x: int, y: int| 0 <= x < scaled.w && 0 <= y < scaled.h ==> #[trigger] scaled.at(x, y) == img.at(x / scale as int, y / scale as int))
    &&& b.width == scaled.w * crate::render::cells_per_pixel(mode)
    &&& b.lines@.len() == (scaled.h + crate::render::rows_per_line(mode) - 1) / crate::render::rows_per_line(mode)
    &&& forall|k: int| 0 <= k < b.lines@.len() ==> #[trigger] b.lines@[k]@ == crate::render::line_text(scaled, mode, level, k * crate::render::rows_per_line(mode))
}

/// `b` is the face `f` scaled and rendered, under the same name.
pub open spec fn rendered_face(b: (Rendered, String), f: (Image, String), mode: Mode, level: ColorLevel, scale: u32) -> bool {
    &&& b.1@ == f.1@
    &&& exists|scaled: Image| #[trigger] block_of(b.0, f.0, scaled, mode, level, scale)
}

/// `blocks` are the faces, each scaled and rendered.
pub open spec fn rendered_faces(blocks: Seq<(Rendered, String)>, faces: Seq<(Image, String)>, mode: Mode, level: ColorLevel, scale: u32) -> bool {
    &&& blocks.len() == faces.len()
    &&& forall|i: int| 0 <= i < blocks.len() ==> #[trigger] rendered_face(blocks[i], faces[i], mode, level, scale)
}

/// A face can be scaled by `scale` and rendered.
pub open spec fn renderable(f: (Image, String), scale: u32) -> bool {
    let img = f.0;
    &&& img.wf()
    &&& img.w * scale <= u32::MAX
    &&& img.h * scale <= u32::MAX
    &&& (img.w * scale) * (img.h * scale) <= u32::MAX
    &&& img.w * scale * 2 <= usize::MAX
    &&& byte_len(f.1@) <= usize::MAX
}

/// The faces, each scaled by `scale` and rendered, laid out in rows that fit `max`
/// columns, with their names when `names`.
pub fn faces_text(faces: &Vec<(Image, String)>, mode: Mode, level: ColorLevel, scale: u32, names: bool, max: usize) -> (text: String)
    requires
        forall|i: int| 0 <= i < faces@.len() ==> #[trigger] renderable(faces@[i], scale),
    ensures
        exists|blocks: Seq<(Rendered, String)>|
            #[trigger] rendered_faces(blocks, faces@, mode, level, scale) && text@ == layout_text(blocks, names, max as int),
{
    let mut blocks: Vec<(Rendered, String)> = Vec::new();
    let mut i: usize = 0;
    while i < faces.len()
        invariant
            i <= faces@.len(),
            blocks@.len() == i,
            forall|i: int| 0 <= i < faces@.len() ==> #[trigger] renderable(faces@[i], scale),
            forall|k: int| 0 <= k < i ==> #[trigger] rendered_face(blocks@[k], faces@[k], mode, level, scale),
            forall|k: int| 0 <= k < i ==> byte_len((#[trigger] blocks@[k]).1@) <= usize::MAX,
        decreases faces@.len() - i,
    {
        assert(renderable(faces@[i as int], scale));
        let scaled = faces[i].0.scale(scale);
        let r = render(&scaled, mode, level);
        let name = faces[i].1.clone();
        proof {
            assert(block_of(r, faces@[i as int].0, scaled, mode, level, scale));
        }
        blocks.push((r, name));
        proof {
            assert(blocks@[i as int].0 == r);
            assert(blocks@[i as int].1@ == faces@[i as int].1@);
            assert(block_of(blocks@[i as int].0, faces@[i as int].0, scaled, mode, level, scale));
            assert(rendered_face(blocks@[i as int], faces@[i as int], mode, level, scale));
        }
        i = i + 1;
    }
    let text = layout(&blocks, names, max);
    proof {
        assert(rendered_faces(blocks@, faces@, mode, level, scale));
    }
    text
}

} // verus!
