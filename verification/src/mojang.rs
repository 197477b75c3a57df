//! Player names and UUIDs, the Mojang API's documents, and the cache keys for them.

use vstd::prelude::*;
use vstd::string::*;
use crate::text::{digit_char, hex_fixed, hex_char, push_hex, push_decimal, dec, ascii_lower, to_ascii_lower, has_run, contains_text};
use vstd::arithmetic::div_mod::{lemma_fundamental_div_mod, lemma_fundamental_div_mod_converse};

verus! {

/// A failed Mojang API request.
#[derive(Debug)]
pub enum Error {
    /// The player or resource does not exist.
    NotFound(String),
    /// Anything else: network failures, rate limits, malformed responses.
    Other(String),
}

impl Error {
    /// The text of the error.
    pub open spec fn text(&self) -> Seq<char> {
        match self {
            Error::NotFound(m) => m@,
            Error::Other(m) => m@,
        }
    }

    /// The text of the error, as shown to the user.
    pub fn message(&self) -> (s: String)
        ensures
            s@ == self.text(),
    {
        match self {
            Error::NotFound(m) => m.clone(),
            Error::Other(m) => m.clone(),
        }
    }
}

/// The value of a hex digit, either case.
pub open spec fn hex_value(c: char) -> Option<nat> {
    if '0' <= c <= '9' {
        Some((c as nat - 48) as nat)
    } else if 'a' <= c <= 'f' {
        Some((c as nat - 87) as nat)
    } else if 'A' <= c <= 'F' {
        Some((c as nat - 55) as nat)
    } else {
        None
    }
}

/// Every character is a hex digit.
pub open spec fn all_hex(s: Seq<char>) -> bool {
    forall|i: int| 0 <= i < s.len() ==> (#[trigger] hex_value(s[i])) is Some
}

/// The number that a run of hex digits spells, most significant first.
pub open spec fn hex_number(s: Seq<char>) -> nat
    decreases s.len(),
{
    if s.len() == 0 {
        0
    } else {
        hex_number(s.drop_last()) * 16 + hex_value(s.last())->0
    }
}

/// Positions of the hyphens in the 8-4-4-4-12 form of a UUID.
pub open spec fn is_hyphen_position(i: int) -> bool {
    i == 8 || i == 13 || i == 18 || i == 23
}

/// The 32 hex digits of a UUID written plainly or in the 8-4-4-4-12 hyphenated form,
/// or `None` for any other text.
pub open spec fn uuid_digits(s: Seq<char>) -> Option<Seq<char>> {
    if s.len() == 32 && all_hex(s) {
        Some(s)
    } else if s.len() == 36 && (forall|i: int| 0 <= i < 36 ==> (#[trigger] is_hyphen_position(i) <==> s[i] == '-'))
        && (forall|i: int| 0 <= i < 36 && !is_hyphen_position(i) ==> (#[trigger] hex_value(s[i])) is Some)
    {
        Some(s.subrange(0, 8) + s.subrange(9, 13) + s.subrange(14, 18) + s.subrange(19, 23) + s.subrange(24, 36))
    } else {
        None
    }
}

/// The UUID that `s` spells, if it spells one.
pub open spec fn uuid_of(s: Seq<char>) -> Option<u128> {
    match uuid_digits(s) {
        Some(d) => Some(hex_number(d) as u128),
        None => None,
    }
}

/// The 8-4-4-4-12 hyphenated lowercase form of a UUID.
pub open spec fn uuid_text(u: u128) -> Seq<char> {
    let h = hex_fixed(u as nat, 32);
    h.subrange(0, 8) + seq!['-'] + h.subrange(8, 12) + seq!['-'] + h.subrange(12, 16) + seq!['-']
        + h.subrange(16, 20) + seq!['-'] + h.subrange(20, 32)
}

fn hex_digit_value(c: char) -> (v: Option<u8>)
    ensures
        match hex_value(c) {
            Some(d) => v == Some(d as u8),
            None => v is None,
        },
{
    if '0' <= c && c <= '9' {
        Some((c as u32 - 48) as u8)
    } else if 'a' <= c && c <= 'f' {
        Some((c as u32 - 87) as u8)
    } else if 'A' <= c && c <= 'F' {
        Some((c as u32 - 55) as u8)
    } else {
        None
    }
}

/// Sixteen to the power `n`.
pub open spec fn pow16(n: nat) -> nat
    decreases n,
{
    if n == 0 {
        1
    } else {
        16 * pow16((n - 1) as nat)
    }
}

proof fn lemma_pow16_increases(a: nat, b: nat)
    requires
        a <= b,
    ensures
        pow16(a) <= pow16(b),
    decreases b,
{
    if a < b {
        lemma_pow16_increases(a, (b - 1) as nat);
    }
}

proof fn lemma_pow16_32()
    ensures
        pow16(32) == 0x1_0000_0000_0000_0000_0000_0000_0000_0000,
{
    reveal_with_fuel(pow16, 33);
}

proof fn lemma_hex_number_bound(s: Seq<char>)
    requires
        all_hex(s),
    ensures
        hex_number(s) < pow16(s.len()),
    decreases s.len(),
{
    if s.len() > 0 {
        let t = s.drop_last();
        assert(all_hex(t)) by {
            assert forall|i: int| 0 <= i < t.len() implies (#[trigger] hex_value(t[i])) is Some by {
                assert(t[i] == s[i]);
            }
        }
        lemma_hex_number_bound(t);
        let d = hex_value(s.last())->0;
        assert(hex_value(s[s.len() - 1]) is Some);
        assert(d < 16);
        let p = pow16(t.len());
        assert(hex_number(t) * 16 + d < p * 16) by (nonlinear_arith)
            requires hex_number(t) < p, d < 16;
    }
}

/// The value of a run of hex digits that fits in 32 digits.
fn hex_run_value(digits: &Vec<char>) -> (v: u128)
    requires
        digits@.len() <= 32,
        all_hex(digits@),
    ensures
        v == hex_number(digits@),
{
    let mut v: u128 = 0;
    let mut i: usize = 0;
    while i < digits.len()
        invariant
            i <= digits@.len(),
            digits@.len() <= 32,
            all_hex(digits@),
            v == hex_number(digits@.subrange(0, i as int)),
        decreases digits@.len() - i,
    {
        let c = digits[i];
        assert(hex_value(digits@[i as int]) is Some);
        let d = hex_digit_value(c).unwrap();
        let ghost prefix = digits@.subrange(0, i + 1);
        proof {
            assert(prefix.drop_last() =~= digits@.subrange(0, i as int));
            assert(all_hex(prefix));
            lemma_hex_number_bound(prefix);
            lemma_pow16_increases(prefix.len(), 32);
            lemma_pow16_32();
        }
        v = v * 16 + d as u128;
        i = i + 1;
    }
    proof {
        assert(digits@.subrange(0, digits@.len() as int) =~= digits@);
    }
    v
}

/// Appends the characters of `s` at positions `from..to` to `digits` while they are
/// hex digits; says whether all of them were.
fn push_hex_run(digits: &mut Vec<char>, s: &str, from: usize, to: usize) -> (ok: bool)
    requires
        from <= to <= s@.len(),
    ensures
        ok == (forall|j: int| from <= j < to ==> (#[trigger] hex_value(s@[j])) is Some),
        ok ==> final(digits)@ == old(digits)@ + s@.subrange(from as int, to as int),
{
    let mut i: usize = from;
    while i < to
        invariant
            from <= i <= to <= s@.len(),
            forall|j: int| from <= j < i ==> (#[trigger] hex_value(s@[j])) is Some,
            digits@ == old(digits)@ + s@.subrange(from as int, i as int),
        decreases to - i,
    {
        let c = s.get_char(i);
        match hex_digit_value(c) {
            Some(_) => {
                digits.push(c);
            },
            None => {
                return false;
            },
        }
        i = i + 1;
        proof {
            assert(digits@ =~= old(digits)@ + s@.subrange(from as int, i as int));
        }
    }
    true
}

/// Accepts 32 hex digits, with or without the usual 8-4-4-4-12 hyphens.
pub fn parse_uuid(s: &str) -> (u: Option<u128>)
    ensures
        u == uuid_of(s@),
{
    let n = s.unicode_len();
    let mut digits: Vec<char> = Vec::new();
    if n == 32 {
        if !push_hex_run(&mut digits, s, 0, 32) {
            return None;
        }
        proof {
            assert(digits@ =~= s@);
        }
        return Some(hex_run_value(&digits));
    }
    if n != 36 {
        return None;
    }
    let dashes = s.get_char(8) == '-' && s.get_char(13) == '-' && s.get_char(18) == '-' && s.get_char(23) == '-';
    if !dashes {
        proof {
            assert(is_hyphen_position(8) && is_hyphen_position(13) && is_hyphen_position(18) && is_hyphen_position(23));
        }
        return None;
    }
    let ok = push_hex_run(&mut digits, s, 0, 8) && push_hex_run(&mut digits, s, 9, 13)
        && push_hex_run(&mut digits, s, 14, 18) && push_hex_run(&mut digits, s, 19, 23)
        && push_hex_run(&mut digits, s, 24, 36);
    if !ok {
        proof {
            assert(!is_hyphen_position(0));
            assert(uuid_digits(s@) is None) by {
                if uuid_digits(s@) is Some {
                    assert(forall|i: int| 0 <= i < 36 && !is_hyphen_position(i) ==> (#[trigger] hex_value(s@[i])) is Some);
                    assert(forall|j: int| 0 <= j < 8 ==> !is_hyphen_position(j));
                    assert(forall|j: int| 9 <= j < 13 ==> !is_hyphen_position(j));
                    assert(forall|j: int| 14 <= j < 18 ==> !is_hyphen_position(j));
                    assert(forall|j: int| 19 <= j < 23 ==> !is_hyphen_position(j));
                    assert(forall|j: int| 24 <= j < 36 ==> !is_hyphen_position(j));
                }
            }
        }
        return None;
    }
    proof {
        let d = s@.subrange(0, 8) + s@.subrange(9, 13) + s@.subrange(14, 18) + s@.subrange(19, 23) + s@.subrange(24, 36);
        assert(digits@ =~= d);
        assert forall|i: int| 0 <= i < 36 implies (#[trigger] is_hyphen_position(i) <==> s@[i] == '-') by {
            if !is_hyphen_position(i) {
                assert(hex_value(s@[i]) is Some);
            }
        }
        assert forall|i: int| 0 <= i < 36 && !is_hyphen_position(i) implies (#[trigger] hex_value(s@[i])) is Some by {
        }
        assert(all_hex(digits@)) by {
            assert forall|k: int| 0 <= k < digits@.len() implies (#[trigger] hex_value(digits@[k])) is Some by {
                if k < 8 {
                    assert(digits@[k] == s@[k]);
                } else if k < 12 {
                    assert(digits@[k] == s@[k + 1]);
                } else if k < 16 {
                    assert(digits@[k] == s@[k + 2]);
                } else if k < 20 {
                    assert(digits@[k] == s@[k + 3]);
                } else {
                    assert(digits@[k] == s@[k + 4]);
                }
            }
        }
    }
    Some(hex_run_value(&digits))
}

/// Appends `digits[from..to]` to `out`.
fn push_run(out: &mut String, digits: &Vec<char>, from: usize, to: usize)
    requires
        from <= to <= digits@.len(),
    ensures
        final(out)@ == old(out)@ + digits@.subrange(from as int, to as int),
{
    let mut i: usize = from;
    while i < to
        invariant
            from <= i <= to <= digits@.len(),
            out@ == old(out)@ + digits@.subrange(from as int, i as int),
        decreases to - i,
    {
        out.push(digits[i]);
        i = i + 1;
        proof {
            assert(out@ =~= old(out)@ + digits@.subrange(from as int, i as int));
        }
    }
}

/// The UUID in its 8-4-4-4-12 hyphenated lowercase form.
pub fn format_uuid(u: u128) -> (s: String)
    ensures
        s@ == uuid_text(u),
{
    let mut h = String::new();
    push_hex(&mut h, u, 32);
    let mut digits: Vec<char> = Vec::new();
    let mut i: usize = 0;
    proof {
        crate::text::lemma_hex_fixed_len(u as nat, 32);
    }
    while i < 32
        invariant
            i <= 32,
            h@ == hex_fixed(u as nat, 32),
            h@.len() == 32,
            digits@ == h@.subrange(0, i as int),
        decreases 32 - i,
    {
        digits.push(h.as_str().get_char(i));
        i = i + 1;
        proof {
            assert(digits@ =~= h@.subrange(0, i as int));
        }
    }
    let mut s = String::new();
    push_run(&mut s, &digits, 0, 8);
    s.push('-');
    push_run(&mut s, &digits, 8, 12);
    s.push('-');
    push_run(&mut s, &digits, 12, 16);
    s.push('-');
    push_run(&mut s, &digits, 16, 20);
    s.push('-');
    push_run(&mut s, &digits, 20, 32);
    proof {
        assert(digits@ =~= h@);
        assert(s@ =~= uuid_text(u));
    }
    s
}

/// A character allowed in a player name.
pub open spec fn name_char(c: char) -> bool {
    ('a' <= c <= 'z') || ('A' <= c <= 'Z') || ('0' <= c <= '9') || c == '_'
}

/// A well-formed player name: 1 to 16 ASCII letters, digits and underscores.
pub open spec fn valid_name(s: Seq<char>) -> bool {
    1 <= s.len() <= 16 && forall|i: int| 0 <= i < s.len() ==> #[trigger] name_char(s[i])
}

proof fn lemma_dec_digits(n: nat)
    ensures
        dec(n).len() >= 1,
        forall|i: int| 0 <= i < dec(n).len() ==> '0' <= #[trigger] dec(n)[i] <= '9',
    decreases n,
{
    if n >= 10 {
        lemma_dec_digits(n / 10);
        let d = dec(n / 10).push(digit_char(n % 10));
        assert forall|i: int| 0 <= i < d.len() implies '0' <= #[trigger] d[i] <= '9' by {
            if i < d.len() - 1 {
                assert(d[i] == dec(n / 10)[i]);
            }
        }
    }
}

/// Player names take decimal digits and ignore case: a number written in decimal,
/// appended to a valid name (or standing alone) while the whole has at most 16
/// characters, makes a valid name; and folding a name to lower case keeps it valid,
/// or invalid.
pub proof fn law_names_take_digits(s: Seq<char>, n: nat)
    ensures
        (s.len() == 0 || valid_name(s)) && s.len() + dec(n).len() <= 16 ==> valid_name(s + dec(n)),
        valid_name(ascii_lower(s)) == valid_name(s),
{
    lemma_dec_digits(n);
    let t = s + dec(n);
    if (s.len() == 0 || valid_name(s)) && s.len() + dec(n).len() <= 16 {
        assert forall|i: int| 0 <= i < t.len() implies #[trigger] name_char(t[i]) by {
            if i < s.len() {
                assert(t[i] == s[i]);
            } else {
                assert(t[i] == dec(n)[i - s.len()]);
            }
        }
    }
    let l = ascii_lower(s);
    if valid_name(s) {
        assert forall|i: int| 0 <= i < l.len() implies #[trigger] name_char(l[i]) by {
            assert(name_char(s[i]));
        }
    }
    if valid_name(l) {
        assert forall|i: int| 0 <= i < s.len() implies #[trigger] name_char(s[i]) by {
            assert(name_char(l[i]));
        }
    }
}

/// Whether `s` can be a player name.
pub fn is_valid_name(s: &str) -> (ok: bool)
    ensures
        ok == valid_name(s@),
{
    let n = s.unicode_len();
    if n < 1 || n > 16 {
        return false;
    }
    let mut i: usize = 0;
    while i < n
        invariant
            n == s@.len(),
            i <= n,
            forall|j: int| 0 <= j < i ==> #[trigger] name_char(s@[j]),
        decreases n - i,
    {
        let c = s.get_char(i);
        let ok = ('a' <= c && c <= 'z') || ('A' <= c && c <= 'Z') || ('0' <= c && c <= '9') || c == '_';
        if !ok {
            proof {
                assert(!name_char(s@[i as int]));
            }
            return false;
        }
        i = i + 1;
    }
    true
}

/// The 64-bit FNV-1a hash of some bytes.
pub open spec fn fnv_hash(bytes: Seq<u8>) -> u64
    decreases bytes.len(),
{
    if bytes.len() == 0 {
        0xcbf29ce484222325
    } else {
        (fnv_hash(bytes.drop_last()) ^ (bytes.last() as u64)).wrapping_mul(0x100000001b3)
    }
}

/// The 64-bit FNV-1a hash of some bytes.
pub fn fnv1a(bytes: &[u8]) -> (h: u64)
    ensures
        h == fnv_hash(bytes@),
{
    let mut h: u64 = 0xcbf29ce484222325;
    let mut i: usize = 0;
    while i < bytes.len()
        invariant
            i <= bytes@.len(),
            h == fnv_hash(bytes@.subrange(0, i as int)),
        decreases bytes@.len() - i,
    {
        proof {
            assert(bytes@.subrange(0, i + 1).drop_last() =~= bytes@.subrange(0, i as int));
        }
        h = (h ^ bytes[i] as u64).wrapping_mul(0x100000001b3);
        i = i + 1;
    }
    proof {
        assert(bytes@.subrange(0, bytes@.len() as int) =~= bytes@);
    }
    h
}

/// The error for a response that lacks an expected field.
pub open spec fn bad_response_text(field: Seq<char>) -> Seq<char> {
    "unexpected Mojang API response (missing '"@ + field + "')"@
}

/// The error for a response that lacks an expected field.
pub fn bad_response(field: &str) -> (e: Error)
    ensures
        e is Other,
        e.text() == bad_response_text(field@),
{
    let mut m = String::from_str("unexpected Mojang API response (missing '");
    m.append(field);
    m.append("')");
    Error::Other(m)
}

proof fn lemma_hex_char_value(d: nat)
    requires
        d < 16,
    ensures
        hex_value(hex_char(d)) == Some(d),
        hex_char(d) != '-',
{
}

proof fn lemma_hex_fixed_all_hex(n: nat, w: nat)
    ensures
        forall|i: int| 0 <= i < w ==> (#[trigger] hex_value(hex_fixed(n, w)[i])) is Some,
    decreases w,
{
    crate::text::lemma_hex_fixed_len(n, w);
    if w > 0 {
        lemma_hex_fixed_all_hex(n / 16, (w - 1) as nat);
        lemma_hex_char_value(n % 16);
        assert forall|i: int| 0 <= i < w implies (#[trigger] hex_value(hex_fixed(n, w)[i])) is Some by {
            if i < w - 1 {
                assert(hex_fixed(n, w)[i] == hex_fixed(n / 16, (w - 1) as nat)[i]);
            }
        }
    }
}

proof fn lemma_hex_number_fixed(n: nat, w: nat)
    ensures
        hex_number(hex_fixed(n, w)) == n % pow16(w),
    decreases w,
{
    if w == 0 {
        assert(n % 1 == 0);
    } else {
        let t = hex_fixed(n / 16, (w - 1) as nat);
        lemma_hex_number_fixed(n / 16, (w - 1) as nat);
        assert(hex_fixed(n, w).drop_last() =~= t);
        lemma_hex_char_value(n % 16);
        let m = pow16((w - 1) as nat);
        assert(m > 0) by {
            lemma_pow16_increases(0, (w - 1) as nat);
        }
        let q = n / 16;
        let r = n % 16;
        lemma_fundamental_div_mod(n as int, 16);
        lemma_fundamental_div_mod(q as int, m as int);
        let a = q / m;
        let b = q % m;
        assert(n == (a * (16 * m)) + (16 * b + r)) by (nonlinear_arith)
            requires n == 16 * q + r, q == m * a + b;
        assert(0 <= 16 * b + r < 16 * m) by (nonlinear_arith)
            requires 0 <= b < m, 0 <= r < 16;
        lemma_fundamental_div_mod_converse(n as int, (16 * m) as int, a as int, (16 * b + r) as int);
    }
}

/// Reading back the hyphenated form of a UUID gives the UUID.
pub proof fn law_uuid_roundtrip(u: u128)
    ensures
        uuid_of(uuid_text(u)) == Some(u),
{
    let h = hex_fixed(u as nat, 32);
    crate::text::lemma_hex_fixed_len(u as nat, 32);
    lemma_hex_fixed_all_hex(u as nat, 32);
    let t = uuid_text(u);
    assert(t.len() == 36);
    assert forall|i: int| 0 <= i < 36 implies (#[trigger] is_hyphen_position(i) <==> t[i] == '-') by {
        if !is_hyphen_position(i) {
            let k = if i < 8 { i } else if i < 13 { i - 1 } else if i < 18 { i - 2 } else if i < 23 { i - 3 } else { i - 4 };
            assert(t[i] == h[k]);
            assert(hex_value(h[k]) is Some);
        }
    }
    assert forall|i: int| 0 <= i < 36 && !is_hyphen_position(i) implies (#[trigger] hex_value(t[i])) is Some by {
        let k = if i < 8 { i } else if i < 13 { i - 1 } else if i < 18 { i - 2 } else if i < 23 { i - 3 } else { i - 4 };
        assert(t[i] == h[k]);
        assert(hex_value(h[k]) is Some);
    }
    assert(!(t.len() == 32));
    let d = t.subrange(0, 8) + t.subrange(9, 13) + t.subrange(14, 18) + t.subrange(19, 23) + t.subrange(24, 36);
    assert(d =~= h);
    assert(uuid_digits(t) == Some(h));
    lemma_hex_number_fixed(u as nat, 32);
    lemma_pow16_32();
}

/// A UUID reads the same with and without its hyphens.
pub proof fn law_uuid_hyphens_optional(digits: Seq<char>)
    requires
        digits.len() == 32,
        all_hex(digits),
    ensures
        uuid_of(digits.subrange(0, 8) + seq!['-'] + digits.subrange(8, 12) + seq!['-'] + digits.subrange(12, 16)
            + seq!['-'] + digits.subrange(16, 20) + seq!['-'] + digits.subrange(20, 32)) == uuid_of(digits),
{
    let t = digits.subrange(0, 8) + seq!['-'] + digits.subrange(8, 12) + seq!['-'] + digits.subrange(12, 16)
        + seq!['-'] + digits.subrange(16, 20) + seq!['-'] + digits.subrange(20, 32);
    assert(t.len() == 36);
    assert forall|i: int| 0 <= i < 36 implies (#[trigger] is_hyphen_position(i) <==> t[i] == '-') by {
        if !is_hyphen_position(i) {
            let k = if i < 8 { i } else if i < 13 { i - 1 } else if i < 18 { i - 2 } else if i < 23 { i - 3 } else { i - 4 };
            assert(t[i] == digits[k]);
            assert(hex_value(digits[k]) is Some);
        }
    }
    assert forall|i: int| 0 <= i < 36 && !is_hyphen_position(i) implies (#[trigger] hex_value(t[i])) is Some by {
        let k = if i < 8 { i } else if i < 13 { i - 1 } else if i < 18 { i - 2 } else if i < 23 { i - 3 } else { i - 4 };
        assert(t[i] == digits[k]);
        assert(hex_value(digits[k]) is Some);
    }
    let d = t.subrange(0, 8) + t.subrange(9, 13) + t.subrange(14, 18) + t.subrange(19, 23) + t.subrange(24, 36);
    assert(d =~= digits);
}

/// What a Mojang player is known by.
pub struct Profile {
    pub uuid: u128,
    pub name: String,
    /// None when the player has no custom skin.
    pub skin_url: Option<String>,
    pub slim: bool,
}

/// The text of an optional string.
pub open spec fn text_of(s: Option<String>) -> Option<Seq<char>> {
    match s {
        Some(s) => Some(s@),
        None => None,
    }
}

/// serde_json's description of why `body` is not a JSON document, or `None` when it is.
pub uninterp spec fn json_error(body: Seq<u8>) -> Option<Seq<char>>;

/// The string that the JSON pointer `pointer` reaches in the JSON document `body`, or
/// `None` when `body` is not JSON, the pointer reaches nothing, or not a string.
pub uninterp spec fn json_str(body: Seq<u8>, pointer: Seq<char>) -> Option<Seq<char>>;

/// The length of the array that the JSON pointer `pointer` reaches in the JSON document
/// `body`, or `None` when `body` is not JSON or the pointer reaches nothing, or not an
/// array.
pub uninterp spec fn json_array_len(body: Seq<u8>, pointer: Seq<char>) -> Option<usize>;

/// The bytes that base64 (standard alphabet, padded) text decodes to, or `None` when
/// it is not valid base64.
pub uninterp spec fn base64_decoded(text: Seq<char>) -> Option<Seq<u8>>;

/// Parses `body` with `serde_json::from_slice` into a `serde_json::Value` and gives the
/// error's `Display` text when that fails, `None` when it succeeds.
#[verifier::external_body]
fn json_syntax_error(body: &[u8]) -> (res: Option<String>)
    ensures
        text_of(res) == json_error(body@),
{
    serde_json::from_slice::<serde_json::Value>(body).err().map(|e| e.to_string())
}

/// Parses `body` with `serde_json::from_slice` and reads the string at `pointer` with
/// `Value::pointer` and `Value::as_str`.
#[verifier::external_body]
fn json_str_at(body: &[u8], pointer: &str) -> (res: Option<String>)
    ensures
        text_of(res) == json_str(body@, pointer@),
{
    serde_json::from_slice::<serde_json::Value>(body).ok()?.pointer(pointer)?.as_str().map(str::to_string)
}

/// Parses `body` with `serde_json::from_slice` and reads the length of the array at
/// `pointer` with `Value::pointer` and `Value::as_array`.
#[verifier::external_body]
fn json_len_at(body: &[u8], pointer: &str) -> (res: Option<usize>)
    ensures
        res == json_array_len(body@, pointer@),
{
    serde_json::from_slice::<serde_json::Value>(body).ok()?.pointer(pointer)?.as_array().map(Vec::len)
}

/// Decodes base64 text with `base64::engine::general_purpose::STANDARD.decode`.
#[verifier::external_body]
fn decode_base64(text: &str) -> (res: Option<Vec<u8>>)
    ensures
        res is Some <==> base64_decoded(text@) is Some,
        res matches Some(b) ==> base64_decoded(text@) == Some(b@),
{
    base64::Engine::decode(&base64::engine::general_purpose::STANDARD, text).ok()
}

/// The error for a response that is not JSON; `detail` is the parser's description.
pub open spec fn invalid_json_text(detail: Seq<char>) -> Seq<char> {
    "invalid JSON from Mojang API: "@ + detail
}

/// The error for a response that is not JSON.
fn invalid_json(detail: String) -> (e: Error)
    ensures
        e is Other,
        e.text() == invalid_json_text(detail@),
{
    let mut m = String::from_str("invalid JSON from Mojang API: ");
    m.append(detail.as_str());
    Error::Other(m)
}

/// The JSON pointer to field `field` of entry `i` of the `properties` array.
pub open spec fn property_pointer(i: nat, field: Seq<char>) -> Seq<char> {
    "/properties/"@ + dec(i) + "/"@ + field
}

fn property_pointer_text(i: usize, field: &str) -> (p: String)
    ensures
        p@ == property_pointer(i as nat, field@),
{
    let mut p = String::from_str("/properties/");
    push_decimal(&mut p, i as u64);
    p.append("/");
    p.append(field);
    p
}

/// The `value` of the first of the entries `i..n` of `properties` whose `name` is
/// `textures`.
pub open spec fn textures_from(body: Seq<u8>, i: int, n: int) -> Option<Seq<char>>
    decreases n - i,
{
    if i < 0 || i >= n {
        None
    } else if json_str(body, property_pointer(i as nat, "name"@)) == Some("textures"@) {
        json_str(body, property_pointer(i as nat, "value"@))
    } else {
        textures_from(body, i + 1, n)
    }
}

/// The `value` of the first entry of `properties` whose `name` is `textures`, if
/// `properties` is an array and has such an entry.
pub open spec fn textures_value(body: Seq<u8>) -> Option<Seq<char>> {
    match json_array_len(body, "/properties"@) {
        Some(n) => textures_from(body, 0, n as int),
        None => None,
    }
}

/// Where `parse_profile` stops, and why.
pub enum ProfileFailure {
    /// The body is not JSON.
    BodyNotJson,
    /// A field is missing or malformed; the text names it.
    Missing(Seq<char>),
    /// The decoded textures property is not JSON.
    TexturesNotJson,
}

/// The UUID that the `id` field of a response holds, if it holds one.
pub open spec fn id_field(body: Seq<u8>) -> Option<u128> {
    match json_str(body, "/id"@) {
        Some(id) => uuid_of(id),
        None => None,
    }
}

/// What a profile response says: the UUID, name, skin URL and whether the skin is slim,
/// or why it says nothing usable.
pub open spec fn profile_outcome(body: Seq<u8>) -> Result<(u128, Seq<char>, Option<Seq<char>>, bool), ProfileFailure> {
    if json_error(body) is Some {
        Err(ProfileFailure::BodyNotJson)
    } else {
        match (id_field(body), json_str(body, "/name"@)) {
            (None, _) => Err(ProfileFailure::Missing("id"@)),
            (Some(_), None) => Err(ProfileFailure::Missing("name"@)),
            (Some(u), Some(name)) => match textures_value(body) {
                None => Ok((u, name, None, false)),
                Some(encoded) => match base64_decoded(encoded) {
                    None => Err(ProfileFailure::Missing("textures"@)),
                    Some(t) => if json_error(t) is Some {
                        Err(ProfileFailure::TexturesNotJson)
                    } else {
                        Ok((
                            u,
                            name,
                            json_str(t, "/textures/SKIN/url"@),
                            json_str(t, "/textures/SKIN/metadata/model"@) == Some("slim"@),
                        ))
                    },
                },
            },
        }
    }
}

/// The `value` of the first `textures` property, if any.
fn find_textures(body: &[u8]) -> (v: Option<String>)
    ensures
        text_of(v) == textures_value(body@),
{
    let n: usize = match json_len_at(body, "/properties") {
        Some(n) => n,
        None => {
            return None;
        },
    };
    let mut i: usize = 0;
    while i < n
        invariant
            i <= n,
            json_array_len(body@, "/properties"@) == Some(n),
            textures_value(body@) == textures_from(body@, i as int, n as int),
        decreases n - i,
    {
        let name_ptr = property_pointer_text(i, "name");
        if let Some(name) = json_str_at(body, name_ptr.as_str()) {
            if crate::text::same_text(name.as_str(), "textures") {
                let value_ptr = property_pointer_text(i, "value");
                return json_str_at(body, value_ptr.as_str());
            }
        }
        i = i + 1;
    }
    None
}

/// Reads the profile (UUID, name, skin URL and model) from a session server response.
pub fn parse_profile(body: &[u8]) -> (res: Result<Profile, Error>)
    ensures
        res matches Ok(p) ==> profile_outcome(body@) == Ok::<(u128, Seq<char>, Option<Seq<char>>, bool), ProfileFailure>((p.uuid, p.name@, text_of(p.skin_url), p.slim)),
        res matches Err(e) ==> e is Other && match profile_outcome(body@) {
            Ok(_) => false,
            Err(ProfileFailure::Missing(field)) => e.text() == bad_response_text(field),
            Err(ProfileFailure::BodyNotJson) => e.text() == invalid_json_text(json_error(body@)->0),
            Err(ProfileFailure::TexturesNotJson) => e.text() == invalid_json_text(
                json_error(base64_decoded(textures_value(body@)->0)->0)->0,
            ),
        },
{
    if let Some(detail) = json_syntax_error(body) {
        return Err(invalid_json(detail));
    }
    let uuid = match json_str_at(body, "/id") {
        Some(id) => parse_uuid(id.as_str()),
        None => None,
    };
    let uuid = match uuid {
        Some(u) => u,
        None => {
            return Err(bad_response("id"));
        },
    };
    let name = match json_str_at(body, "/name") {
        Some(n) => n,
        None => {
            return Err(bad_response("name"));
        },
    };
    let textures = find_textures(body);
    let mut skin_url: Option<String> = None;
    let mut slim = false;
    if let Some(encoded) = textures {
        let decoded = match decode_base64(encoded.as_str()) {
            Some(d) => d,
            None => {
                return Err(bad_response("textures"));
            },
        };
        if let Some(detail) = json_syntax_error(decoded.as_slice()) {
            return Err(invalid_json(detail));
        }
        slim = match json_str_at(decoded.as_slice(), "/textures/SKIN/metadata/model") {
            Some(m) => crate::text::same_text(m.as_str(), "slim"),
            None => false,
        };
        skin_url = json_str_at(decoded.as_slice(), "/textures/SKIN/url");
    }
    Ok(Profile { uuid, name, skin_url, slim })
}

/// What a name lookup response says: the UUID and the name with its correct
/// capitalisation, or the field that is missing; `None` when it is not JSON.
pub open spec fn name_lookup_outcome(body: Seq<u8>) -> Option<Result<(u128, Seq<char>), Seq<char>>> {
    if json_error(body) is Some {
        None
    } else {
        Some(match (id_field(body), json_str(body, "/name"@)) {
            (None, _) => Err("id"@),
            (Some(_), None) => Err("name"@),
            (Some(u), Some(name)) => Ok((u, name)),
        })
    }
}

/// Reads (uuid, name with correct capitalisation) from a name lookup response.
pub fn parse_name_lookup(body: &[u8]) -> (res: Result<(u128, String), Error>)
    ensures
        res matches Ok(r) ==> name_lookup_outcome(body@) == Some(Ok::<(u128, Seq<char>), Seq<char>>((r.0, r.1@))),
        res matches Err(e) ==> e is Other && match name_lookup_outcome(body@) {
            None => e.text() == invalid_json_text(json_error(body@)->0),
            Some(Ok(_)) => false,
            Some(Err(field)) => e.text() == bad_response_text(field),
        },
{
    if let Some(detail) = json_syntax_error(body) {
        return Err(invalid_json(detail));
    }
    let uuid = match json_str_at(body, "/id") {
        Some(id) => parse_uuid(id.as_str()),
        None => None,
    };
    let uuid = match uuid {
        Some(u) => u,
        None => {
            return Err(bad_response("id"));
        },
    };
    match json_str_at(body, "/name") {
        Some(n) => Ok((uuid, n)),
        None => Err(bad_response("name")),
    }
}

/// What to do with the answer to a GET request, by HTTP status.
pub open spec fn status_outcome(status: u16, url: Seq<char>) -> Result<bool, Seq<char>> {
    if status == 200 {
        Ok(true)
    } else if status == 204 || status == 404 {
        Ok(false)
    } else if status == 429 {
        Err("rate limited by the Mojang API (HTTP 429); try again in a minute"@)
    } else {
        Err("unexpected HTTP "@ + dec(status as nat) + " from "@ + url)
    }
}

/// Decides what an HTTP status means for a GET of `url`: `Ok(true)` when the body is
/// the resource, `Ok(false)` when there is no such resource (204, 404), an error for
/// rate limiting and any other status.
pub fn classify_status(status: u16, url: &str) -> (res: Result<bool, Error>)
    ensures
        match status_outcome(status, url@) {
            Ok(b) => res == Ok::<bool, Error>(b),
            Err(m) => res matches Err(e) && e is Other && e.text() == m,
        },
{
    match status {
        200 => Ok(true),
        204 | 404 => Ok(false),
        429 => Err(Error::Other(String::from_str("rate limited by the Mojang API (HTTP 429); try again in a minute"))),
        s => {
            let mut m = String::from_str("unexpected HTTP ");
            push_decimal(&mut m, s as u64);
            m.append(" from ");
            m.append(url);
            Err(Error::Other(m))
        },
    }
}

/// A cached copy of `age` nanoseconds is fresh when there is no time to live, or it is
/// younger than that.
pub open spec fn is_fresh(age: u128, ttl: Option<u128>) -> bool {
    match ttl {
        None => true,
        Some(t) => age < t,
    }
}

/// Whether a cached copy of the given age (nanoseconds) may be served without a fetch.
pub fn cache_fresh(age: u128, ttl: Option<u128>) -> (fresh: bool)
    ensures
        fresh == is_fresh(age, ttl),
{
    match ttl {
        None => true,
        Some(t) => age < t,
    }
}

/// What to do once a fetch behind the cache has answered.
pub enum Settled {
    /// Store the fetched bytes in the cache and answer with them.
    Store(Vec<u8>),
    /// The resource is gone: remove the cached copy and answer that there is none.
    Remove,
    /// The fetch failed, but a stale cached copy exists: warn with the error and answer
    /// with the copy.
    UseStale(Vec<u8>, Error),
    /// The fetch failed and nothing is cached: fail with the error.
    Fail(Error),
}

/// Settles a fetch made because the cached copy (`stale`, if any) was missing or old.
/// A fetch that fails for a network reason falls back to the stale copy.
pub fn settle_fetch(fetched: Result<Option<Vec<u8>>, Error>, stale: Option<Vec<u8>>) -> (s: Settled)
    ensures
        match fetched {
            Ok(Some(b)) => s matches Settled::Store(x) && x@ == b@,
            Ok(None) => s is Remove,
            Err(e) => match stale {
                Some(old) => s matches Settled::UseStale(x, e2) && x@ == old@ && e2 == e,
                None => s matches Settled::Fail(e2) && e2 == e,
            },
        },
{
    match fetched {
        Ok(Some(bytes)) => Settled::Store(bytes),
        Ok(None) => Settled::Remove,
        Err(e) => match stale {
            Some(bytes) => Settled::UseStale(bytes, e),
            None => Settled::Fail(e),
        },
    }
}

/// Cache key of a name lookup.
pub open spec fn name_key_text(name: Seq<char>) -> Seq<char> {
    "name/"@ + ascii_lower(name) + ".json"@
}

/// Cache key of a name lookup: the name folded to lower case.
pub fn name_key(name: &str) -> (k: String)
    ensures
        k@ == name_key_text(name@),
{
    let mut k = String::from_str("name/");
    let lower = to_ascii_lower(name);
    k.append(lower.as_str());
    k.append(".json");
    k
}

/// The Mojang API URL that resolves a player name.
pub open spec fn name_url_text(name: Seq<char>) -> Seq<char> {
    "https://api.mojang.com/users/profiles/minecraft/"@ + name
}

/// The Minecraft services URL that resolves a player name when the first one fails.
pub open spec fn name_fallback_url_text(name: Seq<char>) -> Seq<char> {
    "https://api.minecraftservices.com/minecraft/profile/lookup/name/"@ + name
}

/// The URLs that resolve a player name: the Mojang API first, then the fallback.
pub fn name_urls(name: &str) -> (urls: (String, String))
    ensures
        urls.0@ == name_url_text(name@),
        urls.1@ == name_fallback_url_text(name@),
{
    let mut primary = String::from_str("https://api.mojang.com/users/profiles/minecraft/");
    primary.append(name);
    let mut fallback = String::from_str("https://api.minecraftservices.com/minecraft/profile/lookup/name/");
    fallback.append(name);
    (primary, fallback)
}

/// The error for a name that no player has.
pub open spec fn player_not_found_text(name: Seq<char>) -> Seq<char> {
    "player '"@ + name + "' not found"@
}

/// The error for a name that no player has.
pub fn player_not_found(name: &str) -> (e: Error)
    ensures
        e is NotFound,
        e.text() == player_not_found_text(name@),
{
    let mut m = String::from_str("player '");
    m.append(name);
    m.append("' not found");
    Error::NotFound(m)
}

/// Cache key of a profile: the UUID as 32 hex digits.
pub open spec fn profile_key_text(uuid: u128) -> Seq<char> {
    "profile/"@ + hex_fixed(uuid as nat, 32) + ".json"@
}

/// Cache key of a profile.
pub fn profile_key(uuid: u128) -> (k: String)
    ensures
        k@ == profile_key_text(uuid),
{
    let mut k = String::from_str("profile/");
    push_hex(&mut k, uuid, 32);
    k.append(".json");
    k
}

/// The session server URL of a profile.
pub open spec fn profile_url_text(uuid: u128) -> Seq<char> {
    "https://sessionserver.mojang.com/session/minecraft/profile/"@ + hex_fixed(uuid as nat, 32)
}

/// The session server URL of a profile.
pub fn profile_url(uuid: u128) -> (u: String)
    ensures
        u@ == profile_url_text(uuid),
{
    let mut u = String::from_str("https://sessionserver.mojang.com/session/minecraft/profile/");
    push_hex(&mut u, uuid, 32);
    u
}

/// The error for a UUID that no player has.
pub open spec fn no_player_text(uuid: u128) -> Seq<char> {
    "no player with UUID "@ + uuid_text(uuid)
}

/// The error for a UUID that no player has.
pub fn no_player(uuid: u128) -> (e: Error)
    ensures
        e is NotFound,
        e.text() == no_player_text(uuid),
{
    let mut m = String::from_str("no player with UUID ");
    let u = format_uuid(uuid);
    m.append(u.as_str());
    Error::NotFound(m)
}

/// The last `/`-separated segment of a URL (all of it when it has no `/`).
pub open spec fn last_segment(url: Seq<char>) -> Seq<char>
    decreases url.len(),
{
    if url.len() == 0 {
        url
    } else if url.last() == '/' {
        Seq::empty()
    } else {
        last_segment(url.drop_last()).push(url.last())
    }
}

/// An ASCII letter or digit.
pub open spec fn alnum(c: char) -> bool {
    ('a' <= c <= 'z') || ('A' <= c <= 'Z') || ('0' <= c <= '9')
}

/// Cache key of a skin texture. Texture URLs end in a content hash, so that names the
/// file; a URL that does not end in letters and digits is keyed by its FNV-1a hash.
pub open spec fn skin_key_text(url: &str) -> Seq<char> {
    let hash = last_segment(url@);
    if hash.len() > 0 && forall|i: int| 0 <= i < hash.len() ==> #[trigger] alnum(hash[i]) {
        "skin/"@ + hash + ".png"@
    } else {
        "skin/"@ + hex_fixed(fnv_hash(url.spec_bytes()) as nat, 16) + ".png"@
    }
}

/// Cache key of a skin texture.
pub fn skin_key(url: &str) -> (k: String)
    ensures
        k@ == skin_key_text(url),
{
    let n = url.unicode_len();
    let mut start: usize = n;
    proof {
        assert(url@.subrange(0, n as int) =~= url@);
        assert(last_segment(url@) + url@.subrange(n as int, n as int) =~= last_segment(url@));
    }
    while start > 0 && url.get_char(start - 1) != '/'
        invariant
            n == url@.len(),
            start <= n,
            forall|j: int| start <= j < n ==> url@[j] != '/',
            last_segment(url@) == last_segment(url@.subrange(0, start as int)) + url@.subrange(start as int, n as int),
        decreases start,
    {
        proof {
            let pre = url@.subrange(0, start as int);
            assert(pre.drop_last() =~= url@.subrange(0, start - 1));
            assert(url@.subrange(start - 1, n as int) =~= seq![pre.last()] + url@.subrange(start as int, n as int));
            assert(last_segment(pre) == last_segment(pre.drop_last()).push(pre.last()));
            assert(last_segment(pre.drop_last()).push(pre.last()) + url@.subrange(start as int, n as int)
                =~= last_segment(url@.subrange(0, start - 1)) + url@.subrange(start - 1, n as int));
        }
        start = start - 1;
    }
    proof {
        if start > 0 {
            let pre = url@.subrange(0, start as int);
            assert(pre.last() == '/');
        }
        assert(last_segment(url@.subrange(0, start as int)) =~= Seq::<char>::empty());
        assert(last_segment(url@) =~= url@.subrange(start as int, n as int));
    }
    let mut all_alnum = start < n;
    let mut i: usize = start;
    while i < n
        invariant
            n == url@.len(),
            start <= i <= n,
            all_alnum == (start < n && forall|j: int| start <= j < i ==> #[trigger] alnum(url@[j])),
        decreases n - i,
    {
        let c = url.get_char(i);
        if !(('a' <= c && c <= 'z') || ('A' <= c && c <= 'Z') || ('0' <= c && c <= '9')) {
            proof {
                assert(!alnum(url@[i as int]));
            }
            all_alnum = false;
        } else {
            proof {
                assert(alnum(url@[i as int]));
            }
        }
        i = i + 1;
    }
    let mut k = String::from_str("skin/");
    if all_alnum {
        let hash = url.substring_char(start, n);
        k.append(hash);
        proof {
            let h = last_segment(url@);
            assert forall|j: int| 0 <= j < h.len() implies #[trigger] alnum(h[j]) by {
                assert(h[j] == url@[start + j]);
            }
        }
    } else {
        let bytes = url.as_bytes();
        push_hex(&mut k, fnv1a(bytes) as u128, 16);
        proof {
            let h = last_segment(url@);
            if h.len() > 0 {
                assert(!(forall|j: int| start <= j < n ==> #[trigger] alnum(url@[j])));
                let j = choose|j: int| start <= j < n && !alnum(url@[j]);
                assert(h[j - start] == url@[j]);
            }
        }
    }
    k.append(".png");
    proof {
        assert(k@ =~= skin_key_text(url));
    }
    k
}

/// `url` with its first `http://` turned into `https://`.
pub open spec fn https_text(url: Seq<char>) -> Seq<char>
    decreases url.len(),
{
    if url.len() < 7 {
        url
    } else if url.subrange(0, 7) == "http://"@ {
        "https://"@ + url.subrange(7, url.len() as int)
    } else {
        seq![url[0]] + https_text(url.drop_first())
    }
}

/// `url` with its first `http://` turned into `https://`.
pub fn https_url(url: &str) -> (u: String)
    ensures
        u@ == https_text(url@),
{
    proof {
        reveal_strlit("http://");
    }
    let n = url.unicode_len();
    let mut i: usize = 0;
    proof {
        assert(url@.subrange(0, n as int) =~= url@);
        assert(url@.subrange(0, 0) + https_text(url@) =~= https_text(url@));
    }
    while n >= 7 && i <= n - 7
        invariant
            n == url@.len(),
            "http://"@.len() == 7,
            i <= n,
            https_text(url@) == url@.subrange(0, i as int) + https_text(url@.subrange(i as int, n as int)),
        decreases n - i,
    {
        let rest = Ghost(url@.subrange(i as int, n as int));
        if crate::text::run_at(url, "http://", i) {
            proof {
                assert(rest@.subrange(0, 7) =~= url@.subrange(i as int, i + 7));
                assert(https_text(rest@) == "https://"@ + rest@.subrange(7, rest@.len() as int));
            }
            let mut u = String::from_str(url.substring_char(0, i));
            u.append("https://");
            u.append(url.substring_char(i + 7, n));
            proof {
                assert(rest@.subrange(7, rest@.len() as int) =~= url@.subrange(i + 7, n as int));
                assert(u@ =~= https_text(url@));
            }
            return u;
        }
        proof {
            assert(rest@.subrange(0, 7) =~= url@.subrange(i as int, i + 7));
            assert(rest@.drop_first() =~= url@.subrange(i + 1, n as int));
            assert(url@.subrange(0, i + 1) =~= url@.subrange(0, i as int) + seq![rest@[0]]);
        }
        i = i + 1;
    }
    proof {
        assert(url@.subrange(i as int, n as int).len() < 7);
        assert(https_text(url@.subrange(i as int, n as int)) == url@.subrange(i as int, n as int));
        assert(url@.subrange(0, i as int) + url@.subrange(i as int, n as int) =~= url@);
    }
    String::from_str(url)
}

/// The error for a skin URL that serves no texture.
pub open spec fn skin_not_found_text(url: Seq<char>) -> Seq<char> {
    "skin texture not found: "@ + url
}

/// The error for a skin URL that serves no texture.
pub fn skin_not_found(url: &str) -> (e: Error)
    ensures
        e is Other,
        e.text() == skin_not_found_text(url@),
{
    let mut m = String::from_str("skin texture not found: ");
    m.append(url);
    Error::Other(m)
}

} // verus!
