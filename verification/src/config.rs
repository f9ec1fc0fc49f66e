//! Configuration values that the library owns: the capture settings, the
//! integer defaults, profile names and the hex notation of colors.

use vstd::prelude::*;
use vstd::utf8::encode_utf8;
use crate::text::{chars_of, hex2, push_hex2};

verus! {

pub fn default_true() -> (r: bool)
    ensures
        r,
{
    true
}

pub fn default_geometry_poll_ms() -> (r: u64)
    ensures
        r == 250,
{
    250
}

pub fn default_min_window_size() -> (r: [u32; 2])
    ensures
        r@ == seq![480u32, 320u32],
{
    let r = [480, 320];
    assert(r@ =~= seq![480u32, 320u32]);
    r
}

pub fn default_scale_down() -> (r: u32)
    ensures
        r == 2,
{
    2
}

pub fn default_radius() -> (r: u32)
    ensures
        r == 130,
{
    130
}

pub fn default_inner() -> (r: u32)
    ensures
        r == 14,
{
    14
}

pub fn default_top_segments() -> (r: u32)
    ensures
        r == 18,
{
    18
}

pub fn default_bottom_segments() -> (r: u32)
    ensures
        r == 10,
{
    10
}

pub fn default_left_segments() -> (r: u32)
    ensures
        r == 12,
{
    12
}

pub fn default_right_segments() -> (r: u32)
    ensures
        r == 12,
{
    12
}

pub fn default_edge_band() -> (r: u32)
    ensures
        r == 28,
{
    28
}

pub fn default_border_skip() -> (r: u32)
    ensures
        r == 4,
{
    4
}

pub fn default_sample_stride() -> (r: u32)
    ensures
        r == 2,
{
    2
}

pub fn default_max_failures() -> (r: u32)
    ensures
        r == 5,
{
    5
}

/// How the window edges are captured.
#[derive(Clone, Copy, Debug, PartialEq, Eq, Structural)]
pub struct CaptureConfig {
    /// Thickness of the band sampled just inside the window edges (logical px).
    pub edge_band_px: u32,
    /// Skip this many logical px inside the window border before sampling
    /// (avoids sampling the border/decorations themselves).
    pub border_skip_px: u32,
    /// Sampling stride inside the band (higher = cheaper, sparser).
    pub sample_stride: u32,
    /// Back off from capturing after this many failed attempts in a row.
    pub max_failures: u32,
}

impl Default for CaptureConfig {
    fn default() -> (r: CaptureConfig)
        ensures
            r == (CaptureConfig { edge_band_px: 28, border_skip_px: 4, sample_stride: 2, max_failures: 5 }),
    {
        CaptureConfig {
            edge_band_px: default_edge_band(),
            border_skip_px: default_border_skip(),
            sample_stride: default_sample_stride(),
            max_failures: default_max_failures(),
        }
    }
}

/// The named smoothing profiles.
#[derive(Clone, Copy, Debug, PartialEq, Eq, Structural)]
pub enum ProfileKind {
    Low,
    Normal,
    VerySmooth,
}

pub open spec fn ascii_lower(c: char) -> char {
    if 'A' <= c <= 'Z' {
        ((c as int) + 32) as char
    } else {
        c
    }
}

/// `to_ascii_lowercase` of a character sequence.
pub open spec fn ascii_lowercase(s: Seq<char>) -> Seq<char> {
    s.map_values(|c: char| ascii_lower(c))
}

/// The profile a name selects, ignoring ASCII case: "low", "normal", and
/// "very-smooth" (also spelled "very_smooth" or "smooth").
pub open spec fn spec_profile_kind(name: Seq<char>) -> Option<ProfileKind> {
    let key = ascii_lowercase(name);
    if key == "low"@ {
        Some(ProfileKind::Low)
    } else if key == "normal"@ {
        Some(ProfileKind::Normal)
    } else if key == "very-smooth"@ || key == "very_smooth"@ || key == "smooth"@ {
        Some(ProfileKind::VerySmooth)
    } else {
        None
    }
}

fn lower_char(c: char) -> (r: char)
    ensures
        r == ascii_lower(c),
{
    if 'A' <= c && c <= 'Z' {
        ((c as u32) + 32) as u8 as char
    } else {
        c
    }
}

/// Whether `name`, lower-cased, reads `key` (which is lower case).
fn lower_eq(name: &Vec<char>, key: &str) -> (r: bool)
    ensures
        r == (ascii_lowercase(name@) == key@),
{
    let k = chars_of(key);
    if name.len() != k.len() {
        return false;
    }
    let mut i: usize = 0;
    while i < name.len()
        invariant
            name@.len() == k@.len(),
            k@ == key@,
            i <= name@.len(),
            forall|j: int| 0 <= j < i ==> ascii_lower(name@[j]) == k@[j],
        decreases name@.len() - i,
    {
        if lower_char(name[i]) != k[i] {
            assert(ascii_lowercase(name@)[i as int] != key@[i as int]);
            return false;
        }
        i = i + 1;
    }
    assert(ascii_lowercase(name@) =~= key@);
    true
}

/// Resolve a profile name given on the command line.
pub fn profile_kind(name: &str) -> (r: Option<ProfileKind>)
    ensures
        r == spec_profile_kind(name@),
{
    let n = chars_of(name);
    if lower_eq(&n, "low") {
        Some(ProfileKind::Low)
    } else if lower_eq(&n, "normal") {
        Some(ProfileKind::Normal)
    } else if lower_eq(&n, "very-smooth") || lower_eq(&n, "very_smooth") || lower_eq(&n, "smooth") {
        Some(ProfileKind::VerySmooth)
    } else {
        None
    }
}


/// Why a color string was refused.
#[derive(Clone, Copy, Debug, PartialEq, Eq, Structural)]
pub enum ColorError {
    /// Not six bytes once the leading '#' characters are dropped.
    Length,
    /// Not a hexadecimal number.
    Digit,
}

/// Value of a hexadecimal digit (either case).
pub open spec fn hex_val(c: char) -> Option<nat> {
    if '0' <= c <= '9' {
        Some((c as int - '0' as int) as nat)
    } else if 'a' <= c <= 'f' {
        Some((c as int - 'a' as int + 10) as nat)
    } else if 'A' <= c <= 'F' {
        Some((c as int - 'A' as int + 10) as nat)
    } else {
        None
    }
}

/// Value of a string of hexadecimal digits (`None` if one is not a digit).
pub open spec fn hex_number(t: Seq<char>) -> Option<nat>
    decreases t.len(),
{
    if t.len() == 0 {
        Some(0)
    } else {
        match (hex_number(t.drop_last()), hex_val(t.last())) {
            (Some(a), Some(d)) => Some(a * 16 + d),
            _ => None,
        }
    }
}

/// The value of a non-empty string of hexadecimal digits (every character a
/// digit, no sign).
pub open spec fn radix16(t: Seq<char>) -> Option<nat> {
    if t.len() == 0 {
        None
    } else {
        hex_number(t)
    }
}

/// Number of leading '#' characters.
pub open spec fn hash_prefix(s: Seq<char>) -> nat
    decreases s.len(),
{
    if s.len() > 0 && s[0] == '#' {
        1 + hash_prefix(s.drop_first())
    } else {
        0
    }
}

/// Bytes of the 24-bit color number `v`: red, green, blue.
pub open spec fn rgb_bytes(v: nat) -> Seq<u8> {
    seq![(v / 65536) as u8, ((v / 256) % 256) as u8, (v % 256) as u8]
}

/// A color written as hex digits like "112233" or "#112233": the leading '#'
/// characters are dropped, what is left must be six bytes long and read as a
/// hexadecimal number (`nbytes` is the UTF-8 length of the text).
pub open spec fn spec_parse_color(s: Seq<char>, nbytes: int) -> Result<Seq<u8>, ColorError> {
    let k = hash_prefix(s);
    if nbytes != k + 6 {
        Err(ColorError::Length)
    } else {
        match radix16(s.skip(k as int)) {
            Some(v) => Ok(rgb_bytes(v)),
            None => Err(ColorError::Digit),
        }
    }
}

proof fn lemma_encode_len(s: Seq<char>)
    ensures
        encode_utf8(s).len() >= s.len(),
    decreases s.len(),
{
    if s.len() > 0 {
        lemma_encode_len(s.drop_first());
        let v = s[0] as u32;
        assert(vstd::utf8::encode_scalar(v).len() >= 1);
    }
}

proof fn lemma_hash_prefix(s: Seq<char>)
    ensures
        hash_prefix(s) <= s.len(),
        forall|i: int| 0 <= i < hash_prefix(s) ==> s[i] == '#',
        hash_prefix(s) < s.len() ==> s[hash_prefix(s) as int] != '#',
    decreases s.len(),
{
    if s.len() > 0 && s[0] == '#' {
        lemma_hash_prefix(s.drop_first());
        assert forall|i: int| 0 <= i < hash_prefix(s) implies s[i] == '#' by {
            if i > 0 {
                assert(s[i] == s.drop_first()[i - 1]);
            }
        }
    }
}

pub open spec fn pow16(n: nat) -> nat
    decreases n,
{
    if n == 0 {
        1
    } else {
        16 * pow16((n - 1) as nat)
    }
}

proof fn lemma_pow16_6()
    ensures
        pow16(5) == 1048576,
        pow16(6) == 16777216,
{
    reveal_with_fuel(pow16, 7);
}

proof fn lemma_pow16_mono(a: nat, b: nat)
    requires
        a <= b,
    ensures
        pow16(a) <= pow16(b),
    decreases b,
{
    if a < b {
        lemma_pow16_mono(a, (b - 1) as nat);
    }
}

/// A string with a non-digit at position `j` has no hexadecimal value.
proof fn lemma_no_digit(d: Seq<char>, j: int)
    requires
        0 <= j < d.len(),
        hex_val(d[j]) is None,
    ensures
        hex_number(d) is None,
    decreases d.len(),
{
    if j < d.len() - 1 {
        lemma_no_digit(d.drop_last(), j);
    }
}

fn hex_val_exec(c: char) -> (r: Option<u32>)
    ensures
        r matches Some(v) ==> hex_val(c) == Some(v as nat) && v < 16,
        r is None ==> hex_val(c) is None,
{
    if '0' <= c && c <= '9' {
        Some(c as u32 - '0' as u32)
    } else if 'a' <= c && c <= 'f' {
        Some(c as u32 - 'a' as u32 + 10)
    } else if 'A' <= c && c <= 'F' {
        Some(c as u32 - 'A' as u32 + 10)
    } else {
        None
    }
}

/// Read a color in hex notation (see `spec_parse_color`).
pub fn parse_color(hex: &str) -> (r: Result<[u8; 3], ColorError>)
    ensures
        match (r, spec_parse_color(hex@, encode_utf8(hex@).len() as int)) {
            (Ok(c), Ok(v)) => c@ == v,
            (Err(e), Err(f)) => e == f,
            _ => false,
        },
{
    let cs = chars_of(hex);
    let nbytes = hex.as_bytes().len();
    let mut k: usize = 0;
    while k < cs.len() && cs[k] == '#'
        invariant
            cs@ == hex@,
            k <= cs@.len(),
            forall|i: int| 0 <= i < k ==> cs@[i] == '#',
        decreases cs@.len() - k,
    {
        k = k + 1;
    }
    proof {
        lemma_hash_prefix(hex@);
        if (k as nat) < hash_prefix(hex@) {
            assert(hex@[k as int] == '#');
        }
        if hash_prefix(hex@) < k {
            assert(hex@[hash_prefix(hex@) as int] == '#');
        }
        assert(k == hash_prefix(hex@));
        lemma_encode_len(hex@);
    }
    assert(nbytes as int == encode_utf8(hex@).len());
    if nbytes - k != 6 {
        return Err(ColorError::Length);
    }
    let ghost t = hex@.skip(k as int);
    assert(t.len() <= 6);
    let mut i: usize = k;
    assert(t =~= hex@.subrange(i as int, hex@.len() as int));
    if i == cs.len() {
        return Err(ColorError::Digit);
    }
    let start = i;
    proof {
        lemma_pow16_6();
    }
    let mut v: u32 = 0;
    assert(hex@.subrange(start as int, start as int) =~= Seq::<char>::empty());
    while i < cs.len()
        invariant
            cs@ == hex@,
            start < cs@.len(),
            start <= i <= cs@.len(),
            cs@.len() - start <= 6,
            pow16(5) == 1048576,
            pow16(6) == 16777216,
            spec_parse_color(hex@, encode_utf8(hex@).len() as int) == match hex_number(
                hex@.subrange(start as int, hex@.len() as int),
            ) {
                Some(v) => Ok(rgb_bytes(v)),
                None => Err(ColorError::Digit),
            },
            hex_number(hex@.subrange(start as int, i as int)) == Some(v as nat),
            v < pow16((i - start) as nat),
        decreases cs@.len() - i,
    {
        let ghost pre = hex@.subrange(start as int, i as int);
        let ghost nxt = hex@.subrange(start as int, i + 1);
        assert(nxt.drop_last() =~= pre);
        proof {
            lemma_pow16_mono((i - start) as nat, 5);
        }
        match hex_val_exec(cs[i]) {
            Some(dv) => {
                v = v * 16 + dv;
            },
            None => {
                proof {
                    lemma_no_digit(hex@.subrange(start as int, hex@.len() as int), (i - start) as int);
                }
                return Err(ColorError::Digit);
            },
        }
        i = i + 1;
    }
    assert(hex@.subrange(start as int, i as int) =~= hex@.subrange(start as int, hex@.len() as int));
    proof {
        lemma_pow16_mono((cs@.len() - start) as nat, 6);
    }
    let out = [(v >> 16) as u8, (v >> 8) as u8, v as u8];
    proof {
        assert((v >> 16) == v / 65536) by (bit_vector);
        assert((v >> 8) as u8 == ((v / 256) % 256) as u8) by (bit_vector);
        assert(v as u8 == (v % 256) as u8) by (bit_vector);
    }
    assert(out@ =~= rgb_bytes(v as nat));
    Ok(out)
}

/// The hex notation of a color: six lower-case digits ("112233").
pub open spec fn spec_format_color(c: Seq<u8>) -> Seq<char> {
    hex2(c[0] as nat) + hex2(c[1] as nat) + hex2(c[2] as nat)
}

pub fn format_color(c: [u8; 3]) -> (r: String)
    ensures
        r@ == spec_format_color(c@),
{
    let mut s = String::new();
    push_hex2(&mut s, c[0] as u32);
    push_hex2(&mut s, c[1] as u32);
    push_hex2(&mut s, c[2] as u32);
    s
}


proof fn lemma_digit_value(d: nat)
    requires
        d < 16,
    ensures
        hex_val(crate::text::digit_char(d as int)) == Some(d),
        crate::text::digit_char(d as int) != '#',
        '\0' <= crate::text::digit_char(d as int) <= '\u{7f}',
{
    if d == 0 {} else if d == 1 {} else if d == 2 {} else if d == 3 {} else if d == 4 {}
    else if d == 5 {} else if d == 6 {} else if d == 7 {} else if d == 8 {} else if d == 9 {}
    else if d == 10 {} else if d == 11 {} else if d == 12 {} else if d == 13 {} else if d == 14 {}
    else {}
}

proof fn lemma_hex2_byte(n: nat)
    requires
        n < 256,
    ensures
        hex2(n) == seq![crate::text::digit_char((n / 16) as int), crate::text::digit_char((n % 16) as int)],
{
    if n >= 16 {
        assert(crate::text::radix_digits(n / 16, 16) == seq![crate::text::digit_char((n / 16) as int)]);
        assert(hex2(n) =~= seq![crate::text::digit_char((n / 16) as int), crate::text::digit_char((n % 16) as int)]);
    } else {
        assert(hex2(n) =~= seq![crate::text::digit_char((n / 16) as int), crate::text::digit_char((n % 16) as int)]);
    }
}

pub open spec fn horner16(ds: Seq<nat>) -> nat
    decreases ds.len(),
{
    if ds.len() == 0 {
        0
    } else {
        horner16(ds.drop_last()) * 16 + ds.last()
    }
}

proof fn lemma_hex_number_digits(f: Seq<char>, ds: Seq<nat>)
    requires
        f.len() == ds.len(),
        forall|i: int| 0 <= i < f.len() ==> hex_val(#[trigger] f[i]) == Some(ds[i]),
    ensures
        hex_number(f) == Some(horner16(ds)),
    decreases f.len(),
{
    if f.len() > 0 {
        let f1 = f.drop_last();
        let d1 = ds.drop_last();
        assert forall|i: int| 0 <= i < f1.len() implies hex_val(#[trigger] f1[i]) == Some(d1[i]) by {
            assert(f1[i] == f[i]);
        }
        lemma_hex_number_digits(f1, d1);
        assert(hex_val(f.last()) == Some(ds.last()));
    }
}

proof fn lemma_horner6(a: nat, b: nat, c: nat, d: nat, e: nat, g: nat)
    ensures
        horner16(seq![a, b, c, d, e, g]) == a * 1048576 + b * 65536 + c * 4096 + d * 256 + e * 16 + g,
{
    let s = seq![a, b, c, d, e, g];
    assert(s.drop_last() =~= seq![a, b, c, d, e]);
    assert(seq![a, b, c, d, e].drop_last() =~= seq![a, b, c, d]);
    assert(seq![a, b, c, d].drop_last() =~= seq![a, b, c]);
    assert(seq![a, b, c].drop_last() =~= seq![a, b]);
    assert(seq![a, b].drop_last() =~= seq![a]);
    assert(seq![a].drop_last() =~= Seq::<nat>::empty());
    assert(horner16(Seq::<nat>::empty()) == 0);
    assert(horner16(seq![a]) == a);
    assert(horner16(seq![a, b]) == a * 16 + b);
    assert(horner16(seq![a, b, c]) == (a * 16 + b) * 16 + c);
    assert(horner16(seq![a, b, c, d]) == ((a * 16 + b) * 16 + c) * 16 + d);
    assert(horner16(seq![a, b, c, d, e]) == (((a * 16 + b) * 16 + c) * 16 + d) * 16 + e);
}

proof fn lemma_split_byte(x: u8)
    ensures
        (x / 16) as nat * 16 + (x % 16) as nat == x as nat,
        (x / 16) < 16,
        (x % 16) < 16,
{
}

proof fn lemma_color_digits(c: Seq<u8>)
    requires
        c.len() == 3,
    ensures
        ({
            let f = spec_format_color(c);
            let ds = seq![
                (c[0] / 16) as nat,
                (c[0] % 16) as nat,
                (c[1] / 16) as nat,
                (c[1] % 16) as nat,
                (c[2] / 16) as nat,
                (c[2] % 16) as nat,
            ];
            &&& f.len() == 6
            &&& forall|i: int| 0 <= i < 6 ==> hex_val(#[trigger] f[i]) == Some(ds[i]) && f[i] != '#'
                && '\0' <= f[i] <= '\u{7f}'
        }),
{
    let f = spec_format_color(c);
    lemma_hex2_byte(c[0] as nat);
    lemma_hex2_byte(c[1] as nat);
    lemma_hex2_byte(c[2] as nat);
    let ds = seq![
        (c[0] / 16) as nat,
        (c[0] % 16) as nat,
        (c[1] / 16) as nat,
        (c[1] % 16) as nat,
        (c[2] / 16) as nat,
        (c[2] % 16) as nat,
    ];
    lemma_split_byte(c[0]);
    lemma_split_byte(c[1]);
    lemma_split_byte(c[2]);
    assert(f =~= Seq::new(6, |i: int| crate::text::digit_char(ds[i] as int)));
    assert forall|i: int| 0 <= i < 6 implies hex_val(#[trigger] f[i]) == Some(ds[i]) && f[i] != '#'
        && '\0' <= f[i] <= '\u{7f}' by {
        lemma_digit_value(ds[i]);
    }
}

proof fn lemma_rgb_bytes(c: Seq<u8>)
    requires
        c.len() == 3,
    ensures
        rgb_bytes((c[0] as nat) * 65536 + (c[1] as nat) * 256 + c[2] as nat) == c,
{
    let (x, y, z) = (c[0] as nat, c[1] as nat, c[2] as nat);
    let v = x * 65536 + y * 256 + z;
    assert(v / 65536 == x && (v / 256) % 256 == y && v % 256 == z) by (nonlinear_arith)
        requires
            v == x * 65536 + y * 256 + z,
            x < 256,
            y < 256,
            z < 256,
    ;
    assert(rgb_bytes(v) =~= c);
}

/// Writing a color in hex notation and reading it back gives the color.
pub proof fn law_color_roundtrip(c: Seq<u8>)
    requires
        c.len() == 3,
    ensures
        spec_parse_color(spec_format_color(c), encode_utf8(spec_format_color(c)).len() as int) == Ok::<
            Seq<u8>,
            ColorError,
        >(c),
{
    let f = spec_format_color(c);
    let ds = seq![
        (c[0] / 16) as nat,
        (c[0] % 16) as nat,
        (c[1] / 16) as nat,
        (c[1] % 16) as nat,
        (c[2] / 16) as nat,
        (c[2] % 16) as nat,
    ];
    lemma_color_digits(c);
    assert(vstd::utf8::is_ascii_chars(f));
    vstd::utf8::is_ascii_chars_encode_utf8(f);
    assert(hash_prefix(f) == 0);
    assert(f.skip(0) =~= f);
    lemma_hex_number_digits(f, ds);
    lemma_horner6(ds[0], ds[1], ds[2], ds[3], ds[4], ds[5]);
    let v = horner16(ds);
    assert(radix16(f) == Some(v));
    lemma_split_byte(c[0]);
    lemma_split_byte(c[1]);
    lemma_split_byte(c[2]);
    let (a0, a1, b0, b1, c0, c1) = (ds[0], ds[1], ds[2], ds[3], ds[4], ds[5]);
    assert(v == (c[0] as nat) * 65536 + (c[1] as nat) * 256 + c[2] as nat) by (nonlinear_arith)
        requires
            v == a0 * 1048576 + a1 * 65536 + b0 * 4096 + b1 * 256 + c0 * 16 + c1,
            a0 * 16 + a1 == c[0] as nat,
            b0 * 16 + b1 == c[1] as nat,
            c0 * 16 + c1 == c[2] as nat,
    ;
    lemma_rgb_bytes(c);
}


/// Profile names are case-insensitive: a name selects the same profile as
/// its lower-case spelling.
pub proof fn law_profile_case_insensitive(name: Seq<char>)
    ensures
        spec_profile_kind(name) == spec_profile_kind(ascii_lowercase(name)),
{
    assert(ascii_lowercase(ascii_lowercase(name)) =~= ascii_lowercase(name));
}

} // verus!
