//! Faces of built-in characters: the default player skins and mobs.

use vstd::prelude::*;
use vstd::string::*;
use crate::image::{Image, pixels_of};
use crate::text::{lower_char, ascii_lower};

verus! {

/// What a built-in character is.
#[derive(Clone, Copy, Debug, PartialEq, Eq, Structural)]
pub enum Kind {
    /// One of Minecraft's default player skins.
    Player,
    Mob,
}

/// A built-in character's face: `w` by `h` pixels of RGBA bytes, row by row.
pub struct Builtin {
    pub id: &'static str,
    pub name: &'static str,
    pub kind: Kind,
    pub w: u32,
    pub h: u32,
    pub rgba: &'static [u8],
}

impl Builtin {
    /// The face bytes hold exactly `w * h` pixels.
    pub open spec fn wf(&self) -> bool {
        &&& self.w * self.h * 4 <= u32::MAX
        &&& self.rgba@.len() == self.w * self.h * 4
    }

    /// The face as an image.
    pub fn face(&self) -> (img: Image)
        requires
            self.wf(),
        ensures
            img.wf(),
            img.w == self.w,
            img.h == self.h,
            img.px@ == pixels_of(self.rgba@),
    {
        Image::from_rgba(self.w, self.h, self.rgba)
    }
}

/// The id a lookup matches: ASCII upper case folded to lower case and `-` read as `_`.
pub open spec fn lookup_key(id: Seq<char>) -> Seq<char> {
    Seq::new(id.len(), |i: int| if id[i] == '-' { '_' } else { lower_char(id[i]) })
}

/// The built-in at `i` is the first in the table with id `key`.
pub open spec fn is_first_with_id(table: Seq<Builtin>, key: Seq<char>, i: int) -> bool {
    &&& 0 <= i < table.len()
    &&& table[i].id@ == key
    &&& forall|j: int| 0 <= j < i ==> (#[trigger] table[j]).id@ != key
}

fn lookup_key_of(id: &str) -> (key: String)
    ensures
        key@ == lookup_key(id@),
{
    let n = id.unicode_len();
    let mut key = String::new();
    let mut i: usize = 0;
    while i < n
        invariant
            n == id@.len(),
            i <= n,
            key@ == lookup_key(id@.subrange(0, i as int)),
        decreases n - i,
    {
        let c = id.get_char(i);
        let k = if c == '-' {
            '_'
        } else if 'A' <= c && c <= 'Z' {
            let b: u8 = (c as u32 + 32) as u8;
            b as char
        } else {
            c
        };
        key.push(k);
        i = i + 1;
        proof {
            assert(key@ =~= lookup_key(id@.subrange(0, i as int)));
        }
    }
    proof {
        assert(id@.subrange(0, n as int) =~= id@);
    }
    key
}

/// Looks up a builtin by id, ignoring case and treating `-` like `_`.
pub fn find<'a>(table: &'a [Builtin], id: &str) -> (found: Option<&'a Builtin>)
    ensures
        found is None <==> forall|i: int| 0 <= i < table@.len() ==> (#[trigger] table@[i]).id@ != lookup_key(id@),
        found matches Some(b) ==> exists|i: int| is_first_with_id(table@, lookup_key(id@), i) && *b == table@[i],
{
    let key = lookup_key_of(id);
    let mut i: usize = 0;
    while i < table.len()
        invariant
            i <= table@.len(),
            key@ == lookup_key(id@),
            forall|j: int| 0 <= j < i ==> (#[trigger] table@[j]).id@ != key@,
        decreases table@.len() - i,
    {
        let b = &table[i];
        if crate::text::same_text(b.id, key.as_str()) {
            proof {
                assert(is_first_with_id(table@, lookup_key(id@), i as int));
            }
            return Some(b);
        }
        i = i + 1;
    }
    None
}

/// Draws a number in `0..n` with `fastrand::usize(..n)`, from fastrand's thread-local
/// generator. `fastrand` panics only on an empty range, which `requires` leaves out;
/// nothing is stated of which number comes out.
#[verifier::external_body]
fn random_below(n: usize) -> (i: usize)
    requires
        n > 0,
    ensures
        i < n,
{
    fastrand::usize(..n)
}

/// A random built-in character.
pub fn random<'a>(table: &'a [Builtin]) -> (b: &'a Builtin)
    requires
        table@.len() > 0,
    ensures
        exists|i: int| 0 <= i < table@.len() && *b == table@[i],
{
    let i = random_below(table.len());
    &table[i]
}

/// Default skins in the order Minecraft's `DefaultPlayerSkin` lists them.
pub open spec fn default_skin_id(i: int) -> Seq<char> {
    if i == 0 {
        "alex"@
    } else if i == 1 {
        "ari"@
    } else if i == 2 {
        "efe"@
    } else if i == 3 {
        "kai"@
    } else if i == 4 {
        "makena"@
    } else if i == 5 {
        "noor"@
    } else if i == 6 {
        "steve"@
    } else if i == 7 {
        "sunny"@
    } else {
        "zuri"@
    }
}

fn default_skin_name(i: usize) -> (id: &'static str)
    requires
        i < 9,
    ensures
        id@ == default_skin_id(i as int),
{
    match i {
        0 => "alex",
        1 => "ari",
        2 => "efe",
        3 => "kai",
        4 => "makena",
        5 => "noor",
        6 => "steve",
        7 => "sunny",
        _ => "zuri",
    }
}

/// Java's `UUID.hashCode()`: the two 64-bit halves xored together, then the two
/// 32-bit halves of that xored together.
pub open spec fn java_uuid_hash(uuid: u128) -> i32 {
    let hilo: u64 = ((uuid >> 64u128) as u64) ^ (uuid as u64);
    ((hilo >> 32u64) as i32) ^ (hilo as i32)
}

/// `floorMod(uuid.hashCode(), 18)`: which of the 18 default skin slots a player gets.
pub open spec fn default_skin_slot(uuid: u128) -> int {
    (java_uuid_hash(uuid) as int) % 18
}

/// Some built-in in the table has id `key`.
pub open spec fn has_id(table: Seq<Builtin>, key: Seq<char>) -> bool {
    exists|j: int| 0 <= j < table.len() && (#[trigger] table[j]).id@ == key
}

/// The table holds every default skin.
pub open spec fn has_default_skins(table: Seq<Builtin>) -> bool {
    forall|i: int| 0 <= i < 9 ==> #[trigger] has_id(table, default_skin_id(i))
}

/// The default skin Minecraft gives a player who has no custom skin:
/// `floorMod(uuid.hashCode(), 18)` over 9 slim skins followed by the same 9 wide ones.
/// Returns the skin and whether it is the slim model.
pub fn default_skin<'a>(table: &'a [Builtin], uuid: u128) -> (res: (&'a Builtin, bool))
    requires
        has_default_skins(table@),
    ensures
        exists|i: int| is_first_with_id(table@, default_skin_id(default_skin_slot(uuid) % 9), i) && *res.0 == table@[i],
        res.1 == (default_skin_slot(uuid) < 9),
{
    let hilo: u64 = ((uuid >> 64u128) as u64) ^ (uuid as u64);
    let hash: i32 = ((hilo >> 32u64) as i32) ^ (hilo as i32);
    // floorMod(hash, 18): shift by a multiple of 18 to make the dividend non-negative.
    let shifted: u64 = (hash as i64 + 2147483664i64) as u64;
    let idx: usize = (shifted % 18) as usize;
    proof {
        assert(hash == java_uuid_hash(uuid));
        let h = hash as int;
        vstd::arithmetic::div_mod::lemma_fundamental_div_mod(h, 18);
        vstd::arithmetic::div_mod::lemma_fundamental_div_mod_converse(
            shifted as int,
            18,
            h / 18 + 119304648,
            h % 18,
        );
    }
    let id = default_skin_name(idx % 9);
    let found = find(table, id);
    proof {
        assert(lookup_key(id@) =~= id@) by {
            reveal_strlit("alex");
            reveal_strlit("ari");
            reveal_strlit("efe");
            reveal_strlit("kai");
            reveal_strlit("makena");
            reveal_strlit("noor");
            reveal_strlit("steve");
            reveal_strlit("sunny");
            reveal_strlit("zuri");
        }
        assert(has_id(table@, default_skin_id((idx % 9) as int)));
    }
    (found.unwrap(), idx < 9)
}

/// Whether the table holds every default skin, as `default_skin` needs.
pub fn holds_default_skins(table: &[Builtin]) -> (ok: bool)
    ensures
        ok == has_default_skins(table@),
{
    let mut i: usize = 0;
    while i < 9
        invariant
            i <= 9,
            forall|k: int| 0 <= k < i ==> #[trigger] has_id(table@, default_skin_id(k)),
        decreases 9 - i,
    {
        let id = default_skin_name(i);
        let mut j: usize = 0;
        let mut seen = false;
        while j < table.len()
            invariant
                j <= table@.len(),
                id@ == default_skin_id(i as int),
                !seen ==> forall|k: int| 0 <= k < j ==> (#[trigger] table@[k]).id@ != id@,
                seen ==> exists|k: int| 0 <= k < table@.len() && (#[trigger] table@[k]).id@ == id@,
            decreases table@.len() - j,
        {
            if crate::text::same_text(table[j].id, id) {
                seen = true;
            }
            j = j + 1;
        }
        if !seen {
            proof {
                assert(!has_id(table@, default_skin_id(i as int)));
            }
            return false;
        }
        i = i + 1;
    }
    true
}

/// Lookups ignore ASCII case and read `-` as `_`: folding an id first changes nothing.
pub proof fn law_lookup_lenient(id: Seq<char>)
    ensures
        lookup_key(ascii_lower(id)) == lookup_key(id),
        lookup_key(lookup_key(id)) == lookup_key(id),
{
    assert(lookup_key(ascii_lower(id)) =~= lookup_key(id));
    assert(lookup_key(lookup_key(id)) =~= lookup_key(id));
}

/// The hash is Java's `UUID.hashCode()`: the exclusive or of the UUID's four 32-bit
/// words, read as a signed number.
pub proof fn law_java_hash_words(uuid: u128)
    ensures
        java_uuid_hash(uuid) as u32 == (uuid as u32) ^ ((uuid >> 32u128) as u32) ^ ((uuid >> 64u128) as u32) ^ ((uuid >> 96u128) as u32),
{
    let hilo: u64 = ((uuid >> 64u128) as u64) ^ (uuid as u64);
    let h: i32 = java_uuid_hash(uuid);
    assert(h == ((hilo >> 32u64) as i32) ^ (hilo as i32));
    assert((((hilo >> 32u64) as i32) ^ (hilo as i32)) as u32 == (uuid as u32) ^ ((uuid >> 32u128) as u32) ^ ((uuid >> 64u128) as u32) ^ ((uuid >> 96u128) as u32)) by (bit_vector)
        requires hilo == ((uuid >> 64u128) as u64) ^ (uuid as u64);
}

/// Every player gets one of the 18 default skin slots.
pub proof fn law_default_slot_range(uuid: u128)
    ensures
        0 <= default_skin_slot(uuid) < 18,
{
}

} // verus!
