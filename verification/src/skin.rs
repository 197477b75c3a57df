//! Extracting the face from a player skin texture.

use vstd::prelude::*;
use vstd::string::*;
use crate::image::{Image, Rgba, blended};
use crate::text::{dec, push_decimal};

verus! {

/// The skin sizes that hold a face: square or legacy 2:1 textures whose width is a
/// positive multiple of 64.
pub open spec fn supported_skin(w: u32, h: u32) -> bool {
    &&& w >= 64
    &&& w % 64 == 0
    &&& (w == 2 * h || w == h)
}

/// The message `face` gives for a texture of any other size.
pub open spec fn unsupported_size_text(w: u32, h: u32) -> Seq<char> {
    "unsupported skin size "@ + dec(w as nat) + "x"@ + dec(h as nat)
}

/// A pixel with its alpha raised to fully opaque.
pub open spec fn opaque(p: Rgba) -> Rgba {
    [p[0], p[1], p[2], 255u8]
}

/// Every pixel of the hat region of the texture (the top sixteen rows, right half) is
/// fully opaque. `k` is the texture's scale relative to 64 pixels.
pub open spec fn hat_area_opaque(skin: Image, k: int) -> bool {
    forall|x: int, y: int| 0 <= y < 16 * k && 32 * k <= x < 64 * k ==> #[trigger] skin.at(x, y)[3] == 255
}

/// Whether the hat layer is drawn over the face.
pub open spec fn hat_drawn(skin: Image, overlay: bool) -> bool {
    overlay && !(skin.w == skin.h * 2 && hat_area_opaque(skin, (skin.w / 64) as int))
}

/// Pixel (i, j) of the face cut out of `skin`: the head's front with its alpha made
/// opaque, with the hat's front composited over it when the hat is drawn.
pub open spec fn face_at(skin: Image, overlay: bool, i: int, j: int) -> Rgba {
    let k = skin.w / 64;
    let base = opaque(skin.at(8 * k + i, 8 * k + j));
    if hat_drawn(skin, overlay) {
        blended(base, skin.at(40 * k + i, 8 * k + j))
    } else {
        base
    }
}

/// Cuts the 8x8 face (plus the hat layer when `overlay` is set) out of a skin.
/// Handles 64x64 and legacy 64x32 skins, and HD skins that are integer multiples.
pub fn face(skin: &Image, overlay: bool) -> (res: Result<Image, String>)
    requires
        skin.wf(),
        skin.h * 2 <= u32::MAX,
    ensures
        res is Ok <==> supported_skin(skin.w, skin.h),
        res matches Ok(f) ==> {
            &&& f.wf()
            &&& f.w == 8 * (skin.w / 64)
            &&& f.h == 8 * (skin.w / 64)
            &&& forall|i: int, j: int|
                0 <= i < f.w && 0 <= j < f.h ==> #[trigger] f.at(i, j) == face_at(*skin, overlay, i, j)
        },
        res matches Err(e) ==> e@ == unsupported_size_text(skin.w, skin.h),
{
    let legacy = skin.w == skin.h * 2;
    if skin.w < 64 || skin.w % 64 != 0 || !(legacy || skin.w == skin.h) {
        let mut msg = String::from_str("unsupported skin size ");
        push_decimal(&mut msg, skin.w as u64);
        msg.append("x");
        push_decimal(&mut msg, skin.h as u64);
        proof {
            assert(msg@ =~= unsupported_size_text(skin.w, skin.h));
        }
        return Err(msg);
    }
    let k: u32 = skin.w / 64;
    assert(16 * k <= skin.w && 16 * k <= skin.h) by (nonlinear_arith)
        requires k == skin.w / 64, skin.w >= 64, skin.w == 2 * skin.h || skin.w == skin.h;
    let base = skin.crop(8 * k, 8 * k, 8 * k, 8 * k);
    let mut face = match base {
        Ok(f) => f,
        Err(e) => {
            return Err(e);
        },
    };
    // Minecraft always renders the base head layer opaque.
    let n: usize = face.px.len();
    let mut i: usize = 0;
    while i < n
        invariant
            n == face.px@.len(),
            face.wf(),
            face.w == 8 * k,
            face.h == 8 * k,
            i <= n,
            forall|a: int, b: int|
                0 <= a < 8 * k && 0 <= b < 8 * k && crate::image::pixel_index(face.w as int, a, b) >= i
                    ==> #[trigger] face.at(a, b) == skin.at(8 * k + a, 8 * k + b),
            forall|a: int, b: int|
                0 <= a < 8 * k && 0 <= b < 8 * k && crate::image::pixel_index(face.w as int, a, b) < i
                    ==> #[trigger] face.at(a, b) == opaque(skin.at(8 * k + a, 8 * k + b)),
        decreases n - i,
    {
        let p = face.px[i];
        let ghost before = face;
        face.px.set(i, [p[0], p[1], p[2], 255u8]);
        proof {
            assert forall|a: int, b: int|
                0 <= a < 8 * k && 0 <= b < 8 * k && crate::image::pixel_index(face.w as int, a, b) < i + 1
                    implies #[trigger] face.at(a, b) == opaque(skin.at(8 * k + a, 8 * k + b)) by {
                crate::image::lemma_index_in_bounds(face.w as int, face.h as int, a, b);
                if crate::image::pixel_index(face.w as int, a, b) < i {
                    assert(face.at(a, b) == before.at(a, b));
                } else {
                    assert(before.at(a, b) == skin.at(8 * k + a, 8 * k + b));
                }
            }
            assert forall|a: int, b: int|
                0 <= a < 8 * k && 0 <= b < 8 * k && crate::image::pixel_index(face.w as int, a, b) >= i + 1
                    implies #[trigger] face.at(a, b) == skin.at(8 * k + a, 8 * k + b) by {
                crate::image::lemma_index_in_bounds(face.w as int, face.h as int, a, b);
                assert(face.at(a, b) == before.at(a, b));
            }
        }
        i = i + 1;
    }
    proof {
        assert forall|a: int, b: int| 0 <= a < 8 * k && 0 <= b < 8 * k implies
            crate::image::pixel_index(face.w as int, a, b) < n by {
            crate::image::lemma_index_in_bounds(face.w as int, face.h as int, a, b);
        }
    }
    let draw_hat = overlay && !(legacy && hat_area_is_opaque(skin, k));
    if draw_hat {
        assert(48 * k <= skin.w) by (nonlinear_arith)
            requires k == skin.w / 64, skin.w >= 64;
        let hat = match skin.crop(40 * k, 8 * k, 8 * k, 8 * k) {
            Ok(h) => h,
            Err(e) => {
                return Err(e);
            },
        };
        let ghost before = face;
        face.over(&hat, 0, 0);
        proof {
            assert forall|i: int, j: int| 0 <= i < face.w && 0 <= j < face.h implies
                #[trigger] face.at(i, j) == face_at(*skin, overlay, i, j) by {
                assert(before.at(i, j) == opaque(skin.at(8 * k + i, 8 * k + j)));
                assert(hat.at(i, j) == skin.at(40 * k + i, 8 * k + j));
            }
        }
    }
    Ok(face)
}

/// Legacy skins often filled the hat area with a solid colour; Minecraft ignores
/// the hat layer entirely in that case (the "Notch transparency hack").
fn hat_area_is_opaque(skin: &Image, k: u32) -> (res: bool)
    requires
        skin.wf(),
        skin.w == 64 * k,
        16 * k <= skin.h,
    ensures
        res == hat_area_opaque(*skin, k as int),
{
    let mut y: u32 = 0;
    while y < 16 * k
        invariant
            skin.wf(),
            skin.w == 64 * k,
            16 * k <= skin.h,
            y <= 16 * k,
            forall|a: int, b: int| 0 <= b < y && 32 * k <= a < 64 * k ==> #[trigger] skin.at(a, b)[3] == 255,
        decreases 16 * k - y,
    {
        let mut x: u32 = 32 * k;
        while x < 64 * k
            invariant
                skin.wf(),
                skin.w == 64 * k,
                16 * k <= skin.h,
                y < 16 * k,
                32 * k <= x <= 64 * k,
                forall|a: int, b: int| 0 <= b < y && 32 * k <= a < 64 * k ==> #[trigger] skin.at(a, b)[3] == 255,
                forall|a: int| 32 * k <= a < x ==> #[trigger] skin.at(a, y as int)[3] == 255,
            decreases 64 * k - x,
        {
            proof {
                crate::image::lemma_index_in_bounds(skin.w as int, skin.h as int, x as int, y as int);
            }
            let p = skin.get(x, y);
            if p[3] != 255 {
                proof {
                    assert(skin.at(x as int, y as int)[3] != 255);
                }
                return false;
            }
            x = x + 1;
        }
        y = y + 1;
    }
    true
}

/// Every pixel of a face is fully opaque: the head layer is drawn opaque, and the hat
/// composited over an opaque pixel leaves it opaque.
pub proof fn law_face_opaque(skin: Image, overlay: bool, i: int, j: int)
    ensures
        face_at(skin, overlay, i, j)[3] == 255,
{
    let k = skin.w / 64;
    let base = opaque(skin.at(8 * k + i, 8 * k + j));
    let hat = skin.at(40 * k + i, 8 * k + j);
    let sa = hat[3] as int;
    if 0 < sa < 255 {
        assert((sa * 255 + 255 * (255 - sa)) / 255 == 255) by (nonlinear_arith)
            requires 0 < sa < 255;
    }
}

/// The legacy "Notch transparency hack" only ever applies to 2:1 skins: on a square skin
/// the hat is drawn exactly when asked for.
pub proof fn law_square_skins_draw_hat(skin: Image, overlay: bool)
    requires
        skin.w == skin.h,
        skin.w > 0,
    ensures
        hat_drawn(skin, overlay) == overlay,
{
}

} // verus!
