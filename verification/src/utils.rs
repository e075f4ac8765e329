//! Display helpers: human-readable sizes, shortened paths, media-file kinds and
//! file-name-safe keys for paths.

use vstd::prelude::*;
use vstd::arithmetic::div_mod::lemma_div_denominator;
use vstd::utf8::{encode_utf8, decode_utf8, is_char_boundary};
use std::hash::{Hash, Hasher};
use crate::text::{
    decimal, hexadecimal, digit_char, digit_to_char, format_decimal, format_hex, push_char,
    push_str, bytes_of, byte_slice_str, lowercase, to_lowercase, str_eq, is_ascii_text, ascii_lower,
};

verus! {

/// The power of two by which `n` is divided so that the quotient fits in the 53-bit
/// significand of a double.
pub open spec fn f64_unit(n: nat) -> nat
    decreases n,
{
    if n < 0x20_0000_0000_0000 {
        1
    } else {
        2 * f64_unit(n / 2)
    }
}

/// `q + r / d` rounded to the nearest integer, ties to the even one (`0 <= r < d`).
pub open spec fn round_half_even(q: nat, r: nat, d: nat) -> nat {
    if 2 * r > d || (2 * r == d && q % 2 == 1) {
        q + 1
    } else {
        q
    }
}

/// The value that `n as f64` holds: `n` rounded to 53 significant bits, ties to even.
pub open spec fn as_f64_value(n: nat) -> nat {
    let u = f64_unit(n);
    round_half_even(n / u, n % u, u) * u
}

/// `x / d` in hundredths, rounded to the nearest with ties to even, as `{:.2}` prints
/// the exact quotient of two doubles.
pub open spec fn hundredths(x: nat, d: nat) -> nat {
    round_half_even((x * 100) / d, (x * 100) % d, d)
}

/// A number of hundredths written with two decimals, such as `12.05`.
pub open spec fn fixed_two(h: nat) -> Seq<char> {
    let k = h % 100;
    decimal(h / 100) + seq!['.', digit_char(k / 10), digit_char(k % 10)]
}

/// The text of a size in bytes: whole bytes below 1 KiB, otherwise two decimals of the
/// largest of KB, MB and GB (binary units) that the size reaches.
pub open spec fn size_text(bytes: u64) -> Seq<char> {
    if bytes >= 1073741824 {
        fixed_two(hundredths(as_f64_value(bytes as nat), 1073741824)) + seq![' ', 'G', 'B']
    } else if bytes >= 1048576 {
        fixed_two(hundredths(as_f64_value(bytes as nat), 1048576)) + seq![' ', 'M', 'B']
    } else if bytes >= 1024 {
        fixed_two(hundredths(as_f64_value(bytes as nat), 1024)) + seq![' ', 'K', 'B']
    } else {
        decimal(bytes as nat) + seq![' ', 'B']
    }
}

/// `n as f64`, as the integer it holds.
fn nearest_double(n: u64) -> (r: u128)
    ensures
        r == as_f64_value(n as nat),
        r <= 0x20_0000_0000_0000 * 4096,
{
    let mut t: u64 = n;
    let mut u: u64 = 1;
    while t >= 0x20_0000_0000_0000
        invariant
            0 < u <= 4096,
            t == n / u,
            f64_unit(n as nat) == u * f64_unit(t as nat),
        decreases t,
    {
        proof {
            lemma_div_denominator(n as int, u as int, 2);
            vstd::arithmetic::div_mod::lemma_fundamental_div_mod(n as int, u as int);
            assert(u < 2048) by (nonlinear_arith)
                requires
                    u > 0,
                    t >= 0x20_0000_0000_0000,
                    u * t + n % u == n,
                    n % u >= 0,
                    n < 0x1_0000_0000_0000_0000,
            ;
            let ft = f64_unit((t / 2) as nat);
            assert(u * (2 * ft) == (u * 2) * ft) by (nonlinear_arith);
        }
        t = t / 2;
        u = u * 2;
    }
    assert(f64_unit(t as nat) == 1);
    assert(f64_unit(n as nat) == u) by (nonlinear_arith)
        requires
            f64_unit(n as nat) == u * f64_unit(t as nat),
            f64_unit(t as nat) == 1,
    ;
    let rem = n % u;
    let up = 2 * rem > u || (2 * rem == u && t % 2 == 1);
    let m: u128 = if up { t as u128 + 1 } else { t as u128 };
    assert(m == round_half_even((n / u) as nat, (n % u) as nat, u as nat));
    assert(m * (u as u128) <= 0x20_0000_0000_0000 * 4096) by (nonlinear_arith)
        requires
            m <= 0x20_0000_0000_0000,
            u <= 4096,
    ;
    m * (u as u128)
}

/// `x / d` in hundredths as `{:.2}` rounds it.
fn to_hundredths(x: u128, d: u128) -> (h: u128)
    requires
        x <= 0x20_0000_0000_0000 * 4096,
        0 < d <= 0x1_0000_0000_0000_0000,
    ensures
        h == hundredths(x as nat, d as nat),
{
    let scaled = x * 100;
    let q = scaled / d;
    let r = scaled % d;
    if 2 * r > d || (2 * r == d && q % 2 == 1) {
        q + 1
    } else {
        q
    }
}

/// Appends the two-decimal text of `h` hundredths and a unit to a new string.
fn fixed_two_with_unit(h: u128, unit: char) -> (s: String)
    ensures
        s@ == fixed_two(h as nat) + seq![' ', unit, 'B'],
{
    let mut s = format_decimal(h / 100);
    let k = h % 100;
    push_char(&mut s, '.');
    push_char(&mut s, digit_to_char((k / 10) as u8));
    push_char(&mut s, digit_to_char((k % 10) as u8));
    push_char(&mut s, ' ');
    push_char(&mut s, unit);
    push_char(&mut s, 'B');
    s
}

/// Formats a size in bytes for display (`512 B`, `1.50 KB`, `1.00 GB`).
pub fn format_size(bytes: u64) -> (r: String)
    ensures
        r@ == size_text(bytes),
{
    if bytes >= 1073741824 {
        let x = nearest_double(bytes);
        let h = to_hundredths(x, 1073741824);
        fixed_two_with_unit(h, 'G')
    } else if bytes >= 1048576 {
        let x = nearest_double(bytes);
        let h = to_hundredths(x, 1048576);
        fixed_two_with_unit(h, 'M')
    } else if bytes >= 1024 {
        let x = nearest_double(bytes);
        let h = to_hundredths(x, 1024);
        fixed_two_with_unit(h, 'K')
    } else {
        let mut s = format_decimal(bytes as u128);
        push_char(&mut s, ' ');
        push_char(&mut s, 'B');
        s
    }
}

/// Where the kept tail of a path that is too long starts: room is left for `...`.
pub open spec fn tail_start(len: nat, max_len: nat) -> int {
    len - max_len + 3
}

/// `truncate_path` has an answer: the path fits, or its kept tail starts on a character
/// boundary inside it.
pub open spec fn truncation_defined(path: Seq<char>, max_len: nat) -> bool {
    let b = encode_utf8(path);
    b.len() <= max_len || (max_len >= 3 && is_char_boundary(b, tail_start(b.len(), max_len)))
}

/// A path shortened for display: unchanged when its UTF-8 length is at most `max_len`,
/// otherwise `...` and its last `max_len - 3` bytes.
pub open spec fn truncated_path(path: Seq<char>, max_len: nat) -> Seq<char> {
    let b = encode_utf8(path);
    if b.len() <= max_len {
        path
    } else {
        seq!['.', '.', '.'] + decode_utf8(b.subrange(tail_start(b.len(), max_len), b.len() as int))
    }
}

/// Shortens a path for display to at most `max_len` bytes, keeping its end.
pub fn truncate_path(path: &str, max_len: usize) -> (r: String)
    requires
        truncation_defined(path@, max_len as nat),
    ensures
        r@ == truncated_path(path@, max_len as nat),
{
    let n = bytes_of(path).len();
    if n <= max_len {
        path.to_string()
    } else {
        let start = n - max_len + 3;
        proof {
            vstd::utf8::encode_utf8_valid_utf8(path@);
            vstd::utf8::is_char_boundary_start_end_of_seq(encode_utf8(path@));
        }
        let tail = byte_slice_str(path, start, n);
        let mut r = String::new();
        push_char(&mut r, '.');
        push_char(&mut r, '.');
        push_char(&mut r, '.');
        push_str(&mut r, tail.as_str());
        assert(r@ =~= seq!['.', '.', '.'] + tail@);
        r
    }
}

proof fn lemma_encode_concat(a: Seq<char>, b: Seq<char>)
    ensures
        encode_utf8(a + b) == encode_utf8(a) + encode_utf8(b),
    decreases a.len(),
{
    if a.len() == 0 {
        assert(a + b =~= b);
        assert(encode_utf8(a) =~= Seq::<u8>::empty());
        assert(encode_utf8(a) + encode_utf8(b) =~= encode_utf8(b));
    } else {
        lemma_encode_concat(a.drop_first(), b);
        assert((a + b).drop_first() =~= a.drop_first() + b);
        assert((a + b)[0] == a[0]);
        let h = vstd::utf8::encode_scalar(a[0] as u32);
        assert(h + (encode_utf8(a.drop_first()) + encode_utf8(b)) =~= (h + encode_utf8(a.drop_first())) + encode_utf8(b));
    }
}

/// A shortened path takes at most `max_len` bytes of UTF-8 when it had to be shortened,
/// and is the path itself otherwise.
pub proof fn law_truncated_path_fits(path: Seq<char>, max_len: nat)
    requires
        truncation_defined(path, max_len),
    ensures
        encode_utf8(path).len() <= max_len ==> truncated_path(path, max_len) == path,
        encode_utf8(truncated_path(path, max_len)).len() <= max_len,
{
    let b = encode_utf8(path);
    if b.len() > max_len {
        let start = tail_start(b.len(), max_len);
        let sub = b.subrange(start, b.len() as int);
        vstd::utf8::encode_utf8_valid_utf8(path);
        vstd::utf8::valid_utf8_split(b, start);
        vstd::utf8::decode_utf8_encode_utf8(sub);
        let dots = seq!['.', '.', '.'];
        assert(vstd::utf8::is_ascii_chars(dots));
        vstd::utf8::is_ascii_chars_encode_utf8(dots);
        lemma_encode_concat(dots, decode_utf8(sub));
    }
}

/// The extension of a path as `Path::extension` finds it, as text: what follows the
/// last `.` of the final component, when that component has one after its first
/// character. std's rules (trailing separators, `..`) are named here, not restated.
pub uninterp spec fn extension_of(path: Seq<char>) -> Option<Seq<char>>;

/// The extension of a bare file name with one dot inside it: for a name of one
/// component (no `/` or `\\`) with exactly one `.`, neither first nor last, the text
/// after that dot; `None` for any other text.
pub open spec fn simple_extension(p: Seq<char>) -> Option<Seq<char>> {
    if exists|k: int| #![trigger p[k]] 0 < k < p.len() - 1 && p[k] == '.' && forall|i: int|
        0 <= i < p.len() && i != k ==> (#[trigger] p[i]) != '.' && p[i] != '/' && p[i] != '\\' {
        let k = choose|k: int| #![trigger p[k]] 0 < k < p.len() - 1 && p[k] == '.' && forall|i: int|
            0 <= i < p.len() && i != k ==> (#[trigger] p[i]) != '.' && p[i] != '/' && p[i] != '\\';
        Some(p.skip(k + 1))
    } else {
        None
    }
}

/// `Path::extension` of a path given as text, then `OsStr::to_str`: the result is
/// `extension_of` the path. A path built from a `&str` is valid Unicode, so the
/// conversion never fails. For a bare file name with one inner dot, the file name is
/// the whole text and, as std documents, the extension is the part after its final
/// `.` (see `simple_extension`).
#[verifier::external_body]
fn path_extension(path: &str) -> (r: Option<String>)
    ensures
        match r {
            Some(e) => extension_of(path@) == Some(e@),
            None => extension_of(path@) is None,
        },
        r is Some || simple_extension(path@) is None,
        r matches Some(x) ==> (simple_extension(path@) is Some ==> x@ == simple_extension(path@).unwrap()),
{
    std::path::Path::new(path).extension().and_then(|e| e.to_str()).map(|e| e.to_string())
}

/// The extension of a path, or the empty text when it has none.
pub open spec fn extension_or_empty(path: Seq<char>) -> Seq<char> {
    match extension_of(path) {
        Some(e) => e,
        None => Seq::empty(),
    }
}

/// The lowercased extension of a path (empty when there is none).
pub fn lowercase_extension(path: &str) -> (r: String)
    ensures
        r@ == lowercase(extension_or_empty(path@)),
        simple_extension(path@) is Some && is_ascii_text(simple_extension(path@).unwrap())
            ==> r@ == ascii_lower(simple_extension(path@).unwrap()),
{
    match path_extension(path) {
        Some(e) => to_lowercase(e.as_str()),
        None => {
            let e = String::new();
            to_lowercase(e.as_str())
        },
    }
}

/// Extensions of video files (lowercase).
pub open spec fn video_extension(e: Seq<char>) -> bool {
    ||| e == "mp4"@
    ||| e == "avi"@
    ||| e == "mkv"@
    ||| e == "mov"@
    ||| e == "wmv"@
    ||| e == "flv"@
    ||| e == "webm"@
    ||| e == "m4v"@
    ||| e == "mpg"@
    ||| e == "mpeg"@
    ||| e == "3gp"@
}

/// Extensions of audio files (lowercase).
pub open spec fn audio_extension(e: Seq<char>) -> bool {
    ||| e == "mp3"@
    ||| e == "wav"@
    ||| e == "flac"@
    ||| e == "aac"@
    ||| e == "ogg"@
    ||| e == "wma"@
    ||| e == "m4a"@
}

/// Whether `e` is one of the video extensions.
pub fn is_video_extension(e: &str) -> (r: bool)
    ensures
        r == video_extension(e@),
{
    str_eq(e, "mp4") || str_eq(e, "avi") || str_eq(e, "mkv") || str_eq(e, "mov") || str_eq(e, "wmv")
        || str_eq(e, "flv") || str_eq(e, "webm") || str_eq(e, "m4v") || str_eq(e, "mpg")
        || str_eq(e, "mpeg") || str_eq(e, "3gp")
}

/// Whether `e` is one of the audio extensions.
pub fn is_audio_extension(e: &str) -> (r: bool)
    ensures
        r == audio_extension(e@),
{
    str_eq(e, "mp3") || str_eq(e, "wav") || str_eq(e, "flac") || str_eq(e, "aac") || str_eq(e, "ogg")
        || str_eq(e, "wma") || str_eq(e, "m4a")
}

/// Whether the path names a video file, by its extension in any case.
pub fn is_video_file(path: &str) -> (r: bool)
    ensures
        r == video_extension(lowercase(extension_or_empty(path@))),
        simple_extension(path@) is Some && is_ascii_text(simple_extension(path@).unwrap())
            ==> r == video_extension(ascii_lower(simple_extension(path@).unwrap())),
{
    let e = lowercase_extension(path);
    is_video_extension(e.as_str())
}

/// Whether the path names an audio file, by its extension in any case.
pub fn is_audio_file(path: &str) -> (r: bool)
    ensures
        r == audio_extension(lowercase(extension_or_empty(path@))),
        simple_extension(path@) is Some && is_ascii_text(simple_extension(path@).unwrap())
            ==> r == audio_extension(ascii_lower(simple_extension(path@).unwrap())),
{
    let e = lowercase_extension(path);
    is_audio_extension(e.as_str())
}

/// The media players offered on this platform: the system default opener only.
pub fn detect_media_players() -> (r: Vec<(String, String)>)
    ensures
        r@.len() == 1,
        r@[0].0@ == "System Default"@,
        r@[0].1@ == "xdg-open"@,
{
    let mut r: Vec<(String, String)> = Vec::new();
    r.push(("System Default".to_string(), "xdg-open".to_string()));
    r
}

/// The text of each (name, path) pair.
pub open spec fn pair_views(v: Seq<(String, String)>) -> Seq<(Seq<char>, Seq<char>)> {
    v.map_values(|p: (String, String)| (p.0@, p.1@))
}

/// Whether some pair of `s` has the path `path`.
pub open spec fn has_path(s: Seq<(Seq<char>, Seq<char>)>, path: Seq<char>) -> bool {
    exists|i: int| 0 <= i < s.len() && (#[trigger] s[i]).1 == path
}

/// The pairs found, each path kept once, at its first finding.
pub open spec fn distinct_paths(found: Seq<(Seq<char>, Seq<char>)>) -> Seq<(Seq<char>, Seq<char>)>
    decreases found.len(),
{
    if found.len() == 0 {
        Seq::empty()
    } else {
        let prev = distinct_paths(found.drop_last());
        if has_path(prev, found.last().1) {
            prev
        } else {
            prev.push(found.last())
        }
    }
}

/// The player list offered from the players found: none when none was found, else
/// the system default (`default`) first, then each player found, one per path.
pub open spec fn player_list(found: Seq<(Seq<char>, Seq<char>)>) -> Seq<(Seq<char>, Seq<char>)> {
    if distinct_paths(found).len() == 0 {
        Seq::empty()
    } else {
        seq![("System Default"@, "default"@)] + distinct_paths(found)
    }
}

/// The player list offered from the (name, executable path) pairs a search of the
/// installation folders found, in the order found (see `player_list`).
pub fn players_from_found(found: Vec<(String, String)>) -> (r: Vec<(String, String)>)
    ensures
        pair_views(r@) == player_list(pair_views(found@)),
{
    let ghost fv = pair_views(found@);
    let mut kept: Vec<(String, String)> = Vec::new();
    let mut i: usize = 0;
    while i < found.len()
        invariant
            i <= found@.len(),
            fv == pair_views(found@),
            pair_views(kept@) == distinct_paths(fv.take(i as int)),
        decreases found@.len() - i,
    {
        assert(fv.take(i + 1).drop_last() =~= fv.take(i as int));
        assert(fv.take(i + 1).last() == fv[i as int]);
        let ghost kv = pair_views(kept@);
        let mut seen = false;
        let mut j: usize = 0;
        while j < kept.len()
            invariant
                j <= kept@.len(),
                kv == pair_views(kept@),
                i < found@.len(),
                seen == (exists|k: int| 0 <= k < j && (#[trigger] kv[k]).1 == found@[i as int].1@),
            decreases kept@.len() - j,
        {
            if str_eq(kept[j].1.as_str(), found[i].1.as_str()) {
                seen = true;
                assert(kv[j as int].1 == found@[i as int].1@);
            }
            j = j + 1;
        }
        assert(seen == has_path(kv, fv[i as int].1));
        if !seen {
            kept.push((found[i].0.clone(), found[i].1.clone()));
            assert(pair_views(kept@) =~= kv.push(fv[i as int]));
        }
        i = i + 1;
    }
    assert(fv.take(found@.len() as int) =~= fv);
    if kept.len() == 0 {
        let r: Vec<(String, String)> = Vec::new();
        assert(pair_views(r@) =~= Seq::<(Seq<char>, Seq<char>)>::empty());
        return r;
    }
    let mut r: Vec<(String, String)> = Vec::new();
    r.push(("System Default".to_string(), "default".to_string()));
    let ghost kv = pair_views(kept@);
    r.append(&mut kept);
    assert(pair_views(r@) =~= seq![("System Default"@, "default"@)] + kv);
    r
}

/// The folder picker of this platform: there is none, so no folder is ever picked.
pub fn pick_folder_native() -> (r: Option<String>)
    ensures
        r is None,
{
    None
}

/// The 64-bit hash that a `DefaultHasher` made by `new()` gives for a string hashed
/// with `str`'s `Hash`.
pub uninterp spec fn default_str_hash(s: Seq<char>) -> u64;

/// `str::hash` into a fresh `DefaultHasher`, then `Hasher::finish`: the result is
/// `default_str_hash` of the text. Every hasher made by `DefaultHasher::new()` starts
/// from the same state (it is not seeded per process), so the value depends on the
/// text alone.
#[verifier::external_body]
fn hash_with_default_hasher(s: &str) -> (r: u64)
    ensures
        r == default_str_hash(s@),
{
    let mut hasher = std::collections::hash_map::DefaultHasher::new();
    s.hash(&mut hasher);
    hasher.finish()
}

/// A name for a path that is safe in a file name: the lowercase hexadecimal of its hash.
pub fn path_to_safe_filename(path: &str) -> (r: String)
    ensures
        r@ == hexadecimal(default_str_hash(path@) as nat),
{
    let h = hash_with_default_hasher(path);
    format_hex(h as u128)
}

/// A lowercase hexadecimal digit.
pub open spec fn is_hex_digit(c: char) -> bool {
    ('0' <= c && c <= '9') || ('a' <= c && c <= 'f')
}

/// `16` to the power `k`.
pub open spec fn pow16(k: nat) -> nat
    decreases k,
{
    if k == 0 {
        1
    } else {
        16 * pow16((k - 1) as nat)
    }
}

proof fn lemma_hex_digits(n: nat, k: nat)
    requires
        k >= 1,
        n < pow16(k),
    ensures
        hexadecimal(n).len() <= k,
        forall|i: int| 0 <= i < hexadecimal(n).len() ==> is_hex_digit(#[trigger] hexadecimal(n)[i]),
    decreases n,
{
    if n >= 16 {
        assert(k >= 2) by {
            if k == 1 {
                assert(pow16(1) == 16 * pow16(0));
            }
        }
        let p = pow16((k - 1) as nat);
        assert(pow16(k) == 16 * p);
        assert(n / 16 < p) by (nonlinear_arith)
            requires
                n < 16 * p,
        ;
        lemma_hex_digits(n / 16, (k - 1) as nat);
        let d = n % 16;
        assert(d < 16);
        let h = hexadecimal(n);
        assert(h == hexadecimal(n / 16).push(digit_char(d)));
        assert forall|i: int| 0 <= i < h.len() implies is_hex_digit(#[trigger] h[i]) by {
            if i < h.len() - 1 {
                assert(h[i] == hexadecimal(n / 16)[i]);
            }
        }
    }
}

/// A safe file name holds only lowercase hexadecimal digits, at most 16 of them.
pub proof fn law_safe_filename_is_hex(h: u64)
    ensures
        1 <= hexadecimal(h as nat).len() <= 16,
        forall|i: int| 0 <= i < hexadecimal(h as nat).len() ==> is_hex_digit(#[trigger] hexadecimal(h as nat)[i]),
{
    reveal_with_fuel(pow16, 17);
    assert(pow16(16) == 0x1_0000_0000_0000_0000);
    lemma_hex_digits(h as nat, 16);
    if h >= 16 {
        assert(hexadecimal(h as nat).len() >= 1);
    }
}

} // verus!
