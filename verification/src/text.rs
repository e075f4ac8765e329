//! Character-level string helpers shared by the search, index and parsing code.

use vstd::prelude::*;
use vstd::utf8::{encode_utf8, decode_utf8, valid_utf8, is_char_boundary, is_continuation_byte};
use vstd::string::StringSliceAdditionalSpecFns;

verus! {

broadcast use vstd::string::group_string_axioms;

/// Unicode lowercase mapping of a whole string, as `str::to_lowercase` computes it.
pub uninterp spec fn lowercase(s: Seq<char>) -> Seq<char>;

/// Whether every character of `s` is ASCII.
pub open spec fn is_ascii_text(s: Seq<char>) -> bool {
    forall|i: int| 0 <= i < s.len() ==> (#[trigger] s[i]) as u32 <= 127
}

/// The ASCII lowercase of a character: `A`..=`Z` become `a`..=`z`, others stay.
pub open spec fn ascii_lower_char(c: char) -> char {
    if 'A' <= c && c <= 'Z' {
        ((c as u32) + 32) as char
    } else {
        c
    }
}

/// The ASCII uppercase of a character: `a`..=`z` become `A`..=`Z`, others stay.
pub open spec fn ascii_upper_char(c: char) -> char {
    if 'a' <= c && c <= 'z' {
        ((c as u32) - 32) as char
    } else {
        c
    }
}

/// `s` with each character in ASCII lowercase.
pub open spec fn ascii_lower(s: Seq<char>) -> Seq<char> {
    s.map_values(|c: char| ascii_lower_char(c))
}

/// `s` with each character in ASCII uppercase.
pub open spec fn ascii_upper(s: Seq<char>) -> Seq<char> {
    s.map_values(|c: char| ascii_upper_char(c))
}

/// `str::to_lowercase`: the result is the Unicode lowercase mapping of the input. Of
/// the mapping itself only its ASCII part is claimed: the Unicode lowercase of an ASCII
/// character is its ASCII lowercase, one character for one, so an all-ASCII text maps
/// to its ASCII lowercase.
#[verifier::external_body]
pub(crate) fn to_lowercase(s: &str) -> (r: String)
    ensures
        r@ == lowercase(s@),
        is_ascii_text(s@) ==> r@ == ascii_lower(s@),
{
    s.to_lowercase()
}

/// Lowering the ASCII case of a text in ASCII uppercase gives the same as lowering the
/// text itself, and keeps it ASCII.
pub proof fn lemma_ascii_case_round_trip(s: Seq<char>)
    requires
        is_ascii_text(s),
    ensures
        is_ascii_text(ascii_upper(s)),
        ascii_lower(ascii_upper(s)) == ascii_lower(s),
{
    assert forall|i: int| 0 <= i < s.len() implies ascii_lower_char(ascii_upper_char(s[i])) == ascii_lower_char(s[i])
        && (#[trigger] ascii_upper(s)[i]) as u32 <= 127 by {
        let c = s[i];
        if 'a' <= c && c <= 'z' {
            assert((((c as u32) - 32) as char) as u32 == (c as u32) - 32);
        } else if 'A' <= c && c <= 'Z' {
            assert((((c as u32) + 32) as char) as u32 == (c as u32) + 32);
        }
    }
    assert(ascii_lower(ascii_upper(s)) =~= ascii_lower(s));
}

/// Characters with the Unicode `White_Space` property, which `char::is_whitespace` tests.
pub open spec fn is_white_space(c: char) -> bool {
    ||| ('\u{9}' <= c && c <= '\u{d}')
    ||| c == ' '
    ||| c == '\u{85}'
    ||| c == '\u{a0}'
    ||| c == '\u{1680}'
    ||| ('\u{2000}' <= c && c <= '\u{200a}')
    ||| c == '\u{2028}'
    ||| c == '\u{2029}'
    ||| c == '\u{202f}'
    ||| c == '\u{205f}'
    ||| c == '\u{3000}'
}

/// Number of leading white-space characters of `s`.
pub open spec fn leading_ws(s: Seq<char>) -> nat
    decreases s.len(),
{
    if s.len() > 0 && is_white_space(s[0]) {
        1 + leading_ws(s.drop_first())
    } else {
        0
    }
}

/// Number of trailing white-space characters of `s`.
pub open spec fn trailing_ws(s: Seq<char>) -> nat
    decreases s.len(),
{
    if s.len() > 0 && is_white_space(s.last()) {
        1 + trailing_ws(s.drop_last())
    } else {
        0
    }
}

/// `s` without its leading white space.
pub open spec fn trim_start_spec(s: Seq<char>) -> Seq<char> {
    s.skip(leading_ws(s) as int)
}

/// `s` without leading and trailing white space.
pub open spec fn trim_spec(s: Seq<char>) -> Seq<char> {
    let t = trim_start_spec(s);
    t.take(t.len() - trailing_ws(t))
}

/// `s` without leading and trailing white space (what `str::trim` gives).
pub(crate) fn str_trim(s: &str) -> (r: &str)
    ensures
        r@ == trim_spec(s@),
{
    let v = chars_of(s);
    let a = skip_white_space(&v, 0);
    assert(v@.subrange(0, v@.len() as int) =~= s@);
    let ghost t = trim_start_spec(s@);
    assert(t =~= v@.subrange(a as int, v@.len() as int));
    let mut b = v.len();
    while b > a && is_white_space_char(v[b - 1])
        invariant
            a <= b <= v@.len(),
            v@ == s@,
            t == v@.subrange(a as int, v@.len() as int),
            trailing_ws(t) == (v@.len() - b) + trailing_ws(v@.subrange(a as int, b as int)),
        decreases b - a,
    {
        assert(v@.subrange(a as int, b as int).drop_last() =~= v@.subrange(a as int, b - 1));
        b = b - 1;
    }
    assert(t.take(t.len() - trailing_ws(t)) =~= v@.subrange(a as int, b as int));
    s.substring_char(a, b)
}

/// `String::push`: appends one character.
#[verifier::external_body]
pub(crate) fn push_char(s: &mut String, c: char)
    ensures
        final(s)@ == old(s)@.push(c),
{
    s.push(c)
}

/// Appends the characters of `t`.
pub(crate) fn push_str(s: &mut String, t: &str)
    ensures
        final(s)@ == old(s)@ + t@,
{
    s.append(t)
}

/// The characters of `s`, one by one.
pub fn chars_of(s: &str) -> (v: Vec<char>)
    ensures
        v@ == s@,
{
    let mut v: Vec<char> = Vec::new();
    for c in it: s.chars()
        invariant
            v@ == it.seq().take(it.index() as int),
    {
        v.push(c);
    }
    v
}


/// `p` is a prefix of `s`.
pub open spec fn is_prefix(p: Seq<char>, s: Seq<char>) -> bool {
    p.len() <= s.len() && s.take(p.len() as int) == p
}

/// Whether `s` starts with `p`, character by character.
pub fn starts_with(s: &str, p: &str) -> (r: bool)
    ensures
        r == is_prefix(p@, s@),
{
    let sv = chars_of(s);
    let pv = chars_of(p);
    if pv.len() > sv.len() {
        return false;
    }
    let mut i: usize = 0;
    while i < pv.len()
        invariant
            pv@.len() <= sv@.len(),
            i <= pv@.len(),
            sv@ == s@,
            pv@ == p@,
            forall|j: int| 0 <= j < i ==> sv@[j] == pv@[j],
        decreases pv@.len() - i,
    {
        if sv[i] != pv[i] {
            assert(s@.take(p@.len() as int)[i as int] != p@[i as int]);
            return false;
        }
        i = i + 1;
    }
    assert(s@.take(p@.len() as int) =~= p@);
    true
}

/// Whether the two path texts name the same path, as `Path`'s `==` compares them
/// (component by component).
pub uninterp spec fn same_path(a: Seq<char>, b: Seq<char>) -> bool;

/// `Path::new(a) == Path::new(b)`. `Path` equality is an equivalence, so identical
/// texts compare equal.
#[verifier::external_body]
pub(crate) fn paths_equal(a: &str, b: &str) -> (r: bool)
    ensures
        r == same_path(a@, b@),
        a@ == b@ ==> r,
{
    std::path::Path::new(a) == std::path::Path::new(b)
}

/// The text of `Path::new(base).join(name)`.
pub uninterp spec fn joined_path(base: Seq<char>, name: Seq<char>) -> Seq<char>;

/// `Path::join`, rendered back to text.
#[verifier::external_body]
pub(crate) fn path_join(base: &str, name: &str) -> (r: String)
    ensures
        r@ == joined_path(base@, name@),
{
    std::path::Path::new(base).join(name).to_string_lossy().into_owned()
}


/// An ASCII decimal digit.
pub open spec fn is_digit(c: char) -> bool {
    '0' <= c && c <= '9'
}

/// Every character is an ASCII decimal digit.
pub open spec fn all_digits(s: Seq<char>) -> bool {
    forall|i: int| 0 <= i < s.len() ==> is_digit(#[trigger] s[i])
}

/// The value of a digit character.
pub open spec fn digit_value(c: char) -> nat {
    ((c as u32) - ('0' as u32)) as nat
}

/// The number that a string of decimal digits denotes.
pub open spec fn dec_value(s: Seq<char>) -> nat
    decreases s.len(),
{
    if s.len() == 0 {
        0
    } else {
        dec_value(s.drop_last()) * 10 + digit_value(s.last())
    }
}

/// What `u64::from_str` gives: an optional leading `+`, then one or more decimal
/// digits whose value fits in 64 bits.
pub open spec fn parse_u64_spec(s: Seq<char>) -> Option<u64> {
    let body = if s.len() > 0 && s[0] == '+' { s.drop_first() } else { s };
    if body.len() > 0 && all_digits(body) && dec_value(body) <= u64::MAX {
        Some(dec_value(body) as u64)
    } else {
        None
    }
}

proof fn lemma_dec_value_prefix(s: Seq<char>, i: int)
    requires
        0 <= i <= s.len(),
        all_digits(s),
    ensures
        dec_value(s.take(i)) <= dec_value(s),
    decreases s.len() - i,
{
    if i < s.len() {
        lemma_dec_value_prefix(s, i + 1);
        assert(s.take(i + 1).drop_last() =~= s.take(i));
    } else {
        assert(s.take(i) =~= s);
    }
}

/// `u64::from_str` on the characters `v[lo..hi]`.
pub fn parse_u64_chars(v: &Vec<char>, lo: usize, hi: usize) -> (r: Option<u64>)
    requires
        lo <= hi <= v@.len(),
    ensures
        r == parse_u64_spec(v@.subrange(lo as int, hi as int)),
{
    let ghost s = v@.subrange(lo as int, hi as int);
    let mut start = lo;
    if lo < hi && v[lo] == '+' {
        start = lo + 1;
    }
    let ghost body = v@.subrange(start as int, hi as int);
    assert(body =~= (if s.len() > 0 && s[0] == '+' { s.drop_first() } else { s }));
    if start == hi {
        return None;
    }
    let mut acc: u64 = 0;
    let mut i = start;
    assert(parse_u64_spec(s) == (if all_digits(body) && dec_value(body) <= u64::MAX {
        Some(dec_value(body) as u64)
    } else {
        None
    }));
    while i < hi
        invariant
            start <= i <= hi <= v@.len(),
            start < hi,
            parse_u64_spec(v@.subrange(lo as int, hi as int)) == (if all_digits(body) && dec_value(body) <= u64::MAX {
                Some(dec_value(body) as u64)
            } else {
                None
            }),
            body == v@.subrange(start as int, hi as int),
            all_digits(body.take(i - start)),
            acc as nat == dec_value(body.take(i - start)),
        decreases hi - i,
    {
        let c = v[i];
        let ghost t = (i - start) as int;
        assert(body.take(t + 1).drop_last() =~= body.take(t));
        if !('0' <= c && c <= '9') {
            assert(!is_digit(body[t]));
            return None;
        }
        let d = (c as u32 - '0' as u32) as u64;
        if acc > (u64::MAX - d) / 10 {
            proof {
                assert(dec_value(body.take(t + 1)) > u64::MAX);
                if all_digits(body) {
                    lemma_dec_value_prefix(body, t + 1);
                }
            }
            return None;
        }
        acc = acc * 10 + d;
        i = i + 1;
    }
    assert(body.take(hi - start) =~= body);
    Some(acc)
}

/// Whether `c` has the Unicode `White_Space` property.
pub fn is_white_space_char(c: char) -> (r: bool)
    ensures
        r == is_white_space(c),
{
    ('\u{9}' <= c && c <= '\u{d}') || c == ' ' || c == '\u{85}' || c == '\u{a0}' || c == '\u{1680}'
        || ('\u{2000}' <= c && c <= '\u{200a}') || c == '\u{2028}' || c == '\u{2029}'
        || c == '\u{202f}' || c == '\u{205f}' || c == '\u{3000}'
}

/// Index of the first non-white-space character of `v` at or after `from`
/// (the length when there is none).
pub fn skip_white_space(v: &Vec<char>, from: usize) -> (r: usize)
    requires
        from <= v@.len(),
    ensures
        from <= r <= v@.len(),
        r == from + leading_ws(v@.subrange(from as int, v@.len() as int)),
{
    let mut i = from;
    while i < v.len() && is_white_space_char(v[i])
        invariant
            from <= i <= v@.len(),
            leading_ws(v@.subrange(from as int, v@.len() as int)) == (i - from) + leading_ws(v@.subrange(i as int, v@.len() as int)),
        decreases v@.len() - i,
    {
        assert(v@.subrange(i as int, v@.len() as int).drop_first() =~= v@.subrange(i + 1, v@.len() as int));
        i = i + 1;
    }
    i
}

/// Number of leading ASCII digits of `s`.
pub open spec fn leading_digits(s: Seq<char>) -> nat
    decreases s.len(),
{
    if s.len() > 0 && is_digit(s[0]) {
        1 + leading_digits(s.drop_first())
    } else {
        0
    }
}

proof fn lemma_leading_digits_all(s: Seq<char>)
    ensures
        leading_digits(s) <= s.len(),
        all_digits(s.take(leading_digits(s) as int)),
        leading_digits(s) < s.len() ==> !is_digit(s[leading_digits(s) as int]),
    decreases s.len(),
{
    if s.len() > 0 && is_digit(s[0]) {
        lemma_leading_digits_all(s.drop_first());
        let k = leading_digits(s.drop_first()) as int;
        assert forall|i: int| 0 <= i < k + 1 implies is_digit(#[trigger] s.take(k + 1)[i]) by {
            if i > 0 {
                assert(s.take(k + 1)[i] == s.drop_first().take(k as int)[i - 1]);
            }
        }
        if k + 1 < s.len() {
            assert(s[k + 1] == s.drop_first()[k as int]);
        }
    }
}

/// Index of the first non-digit character of `v` at or after `from` (the length when
/// there is none).
pub fn skip_digits(v: &Vec<char>, from: usize) -> (r: usize)
    requires
        from <= v@.len(),
    ensures
        from <= r <= v@.len(),
        r == from + leading_digits(v@.subrange(from as int, v@.len() as int)),
{
    let mut i = from;
    while i < v.len() && '0' <= v[i] && v[i] <= '9'
        invariant
            from <= i <= v@.len(),
            leading_digits(v@.subrange(from as int, v@.len() as int)) == (i - from) + leading_digits(v@.subrange(i as int, v@.len() as int)),
        decreases v@.len() - i,
    {
        assert(v@.subrange(i as int, v@.len() as int).drop_first() =~= v@.subrange(i + 1, v@.len() as int));
        i = i + 1;
    }
    i
}

/// A `String` holding the characters `v[lo..hi]`.
pub fn string_from_range(v: &Vec<char>, lo: usize, hi: usize) -> (r: String)
    requires
        lo <= hi <= v@.len(),
    ensures
        r@ == v@.subrange(lo as int, hi as int),
{
    let mut r = String::new();
    let mut i = lo;
    while i < hi
        invariant
            lo <= i <= hi <= v@.len(),
            r@ == v@.subrange(lo as int, i as int),
        decreases hi - i,
    {
        push_char(&mut r, v[i]);
        assert(v@.subrange(lo as int, i as int).push(v@[i as int]) =~= v@.subrange(lo as int, i + 1));
        i = i + 1;
    }
    r
}

/// Position of the first `c` in `v` at or after `from`, or the length.
pub fn find_char(v: &Vec<char>, from: usize, c: char) -> (r: usize)
    requires
        from <= v@.len(),
    ensures
        from <= r <= v@.len(),
        r < v@.len() ==> v@[r as int] == c,
        forall|k: int| from <= k < r ==> v@[k] != c,
{
    let mut i = from;
    while i < v.len() && v[i] != c
        invariant
            from <= i <= v@.len(),
            forall|k: int| from <= k < i ==> v@[k] != c,
        decreases v@.len() - i,
    {
        i = i + 1;
    }
    i
}

/// `needle` occurs in `hay` at byte position `i`.
pub open spec fn occurs_at(hay: Seq<u8>, needle: Seq<u8>, i: int) -> bool {
    0 <= i && i + needle.len() <= hay.len() && hay.subrange(i, i + needle.len()) == needle
}

/// Position of the first occurrence of `needle` in `hay` at or after `from`, if any.
pub open spec fn find_bytes_from(hay: Seq<u8>, needle: Seq<u8>, from: int) -> Option<int>
    decreases hay.len() + 1 - from,
{
    if from < 0 || from + needle.len() > hay.len() {
        None
    } else if occurs_at(hay, needle, from) {
        Some(from)
    } else {
        find_bytes_from(hay, needle, from + 1)
    }
}

/// Position of the first occurrence of `needle` in `hay`, as `str::find` reports it
/// for the strings these bytes encode.
pub open spec fn find_bytes(hay: Seq<u8>, needle: Seq<u8>) -> Option<int> {
    find_bytes_from(hay, needle, 0)
}

/// The first byte position of `needle` in `hay`.
pub fn find_in_bytes(hay: &[u8], needle: &[u8]) -> (r: Option<usize>)
    ensures
        r matches Some(i) ==> find_bytes(hay@, needle@) == Some(i as int),
        r is None ==> find_bytes(hay@, needle@) is None,
{
    if needle.len() > hay.len() {
        return None;
    }
    let n = hay.len();
    let last = n - needle.len();
    let mut i: usize = 0;
    while i <= last
        invariant
            n == hay@.len(),
            last == hay@.len() - needle@.len(),
            i <= last + 1,
            find_bytes(hay@, needle@) == find_bytes_from(hay@, needle@, i as int),
        decreases last + 1 - i,
    {
        let mut j: usize = 0;
        let mut same = true;
        while j < needle.len() && same
            invariant
                n == hay@.len(),
                i <= last,
                last == hay@.len() - needle@.len(),
                i + needle@.len() <= hay@.len(),
                j <= needle@.len(),
                same ==> forall|k: int| 0 <= k < j ==> hay@[i + k] == needle@[k],
                !same ==> j < needle@.len() && hay@[i + j] != needle@[j as int],
            decreases needle@.len() - j + (if same { 1int } else { 0int }),
        {
            if hay[i + j] == needle[j] {
                j = j + 1;
            } else {
                same = false;
            }
        }
        if same {
            assert(hay@.subrange(i as int, i + needle@.len()) =~= needle@);
            return Some(i);
        }
        assert(hay@.subrange(i as int, i + needle@.len())[j as int] != needle@[j as int]);
        i = i + 1;
    }
    None
}

/// The UTF-8 bytes of `s`.
pub fn bytes_of(s: &str) -> (r: &[u8])
    ensures
        r@ == encode_utf8(s@),
{
    s.as_bytes()
}

proof fn lemma_boundary_shift(bytes: Seq<u8>, b: int, e: int)
    requires
        valid_utf8(bytes),
        0 <= b <= e <= bytes.len(),
        is_char_boundary(bytes, b),
        is_char_boundary(bytes, e),
    ensures
        valid_utf8(bytes.subrange(b, bytes.len() as int)),
        is_char_boundary(bytes.subrange(b, bytes.len() as int), e - b),
{
    broadcast use vstd::utf8::group_utf8_lib;
    let rest = bytes.subrange(b, bytes.len() as int);
    vstd::utf8::valid_utf8_split(bytes, b);
    if e == bytes.len() {
        vstd::utf8::is_char_boundary_start_end_of_seq(rest);
        assert(rest.len() == e - b);
    } else {
        vstd::utf8::is_char_boundary_iff_not_is_continuation_byte(bytes, e);
        vstd::utf8::is_char_boundary_iff_not_is_continuation_byte(rest, e - b);
        assert(rest[e - b] == bytes[e]);
    }
}

/// The text between byte positions `b` and `e` of `s` (both character boundaries).
pub fn byte_slice_str(s: &str, b: usize, e: usize) -> (r: String)
    requires
        b <= e,
        is_char_boundary(encode_utf8(s@), b as int),
        is_char_boundary(encode_utf8(s@), e as int),
    ensures
        r@ == decode_utf8(encode_utf8(s@).subrange(b as int, e as int)),
{
    broadcast use vstd::utf8::group_utf8_lib;
    let ghost bytes = encode_utf8(s@);
    assert(e <= bytes.len()) by {
        if e > bytes.len() {
            assert(!is_char_boundary(bytes, e as int));
        }
    }
    proof { lemma_boundary_shift(bytes, b as int, e as int); }
    let (_, rest) = s.split_at(b);
    assert(rest.spec_bytes() =~= bytes.subrange(b as int, bytes.len() as int));
    let (mid, _) = rest.split_at(e - b);
    assert(mid.spec_bytes() =~= bytes.subrange(b as int, e as int));
    assert(decode_utf8(encode_utf8(mid@)) == mid@);
    mid.to_string()
}

/// `String::from_utf8`: the text the bytes encode when they are valid UTF-8.
#[verifier::external_body]
pub(crate) fn decode_utf8_bytes(bytes: Vec<u8>) -> (r: Option<String>)
    ensures
        r.is_some() == valid_utf8(bytes@),
        r matches Some(s) ==> s@ == decode_utf8(bytes@),
{
    String::from_utf8(bytes).ok()
}

/// A found position is an occurrence.
pub proof fn lemma_find_bytes_found(hay: Seq<u8>, needle: Seq<u8>, from: int)
    ensures
        find_bytes_from(hay, needle, from) matches Some(i) ==> occurs_at(hay, needle, i),
    decreases hay.len() + 1 - from,
{
    if !(from < 0 || from + needle.len() > hay.len()) && !occurs_at(hay, needle, from) {
        lemma_find_bytes_found(hay, needle, from + 1);
    }
}

/// The character of a digit value 0..=15 (lowercase hexadecimal above 9).
pub open spec fn digit_char(d: nat) -> char {
    if d < 10 {
        (('0' as u32) + d) as char
    } else {
        (('a' as u32) + (d - 10)) as char
    }
}

/// The digits of `n` in base `base`, most significant first, without leading zeros
/// ("0" for zero).
pub open spec fn digits_in_base(n: nat, base: nat) -> Seq<char>
    decreases n,
{
    if base < 2 || n < base {
        seq![digit_char(n)]
    } else {
        proof {
            assert(n / base < n) by (nonlinear_arith)
                requires
                    base >= 2,
                    n >= base,
            ;
        }
        digits_in_base(n / base, base).push(digit_char(n % base))
    }
}

/// Decimal text of `n`.
pub open spec fn decimal(n: nat) -> Seq<char> {
    digits_in_base(n, 10)
}

/// Lowercase hexadecimal text of `n`.
pub open spec fn hexadecimal(n: nat) -> Seq<char> {
    digits_in_base(n, 16)
}

/// The character of a digit value 0..=15.
pub fn digit_to_char(d: u8) -> (c: char)
    requires
        d < 16,
    ensures
        c == digit_char(d as nat),
{
    if d < 10 {
        (('0' as u8) + d) as char
    } else {
        (('a' as u8) + (d - 10)) as char
    }
}

/// The text of `n` in base `base` (2 to 16), as `digits_in_base`.
pub fn format_in_base(n: u128, base: u128) -> (r: String)
    requires
        2 <= base <= 16,
    ensures
        r@ == digits_in_base(n as nat, base as nat),
    decreases n,
{
    if n < base {
        let mut r = String::new();
        push_char(&mut r, digit_to_char(n as u8));
        assert(r@ =~= seq![digit_char(n as nat)]);
        r
    } else {
        assert(n / base < n) by (nonlinear_arith)
            requires
                base >= 2,
                n >= base,
        ;
        let mut r = format_in_base(n / base, base);
        push_char(&mut r, digit_to_char((n % base) as u8));
        r
    }
}

/// Decimal text of `n`.
pub fn format_decimal(n: u128) -> (r: String)
    ensures
        r@ == decimal(n as nat),
{
    format_in_base(n, 10)
}

/// Lowercase hexadecimal text of `n`.
pub fn format_hex(n: u128) -> (r: String)
    ensures
        r@ == hexadecimal(n as nat),
{
    format_in_base(n, 16)
}

/// Whether the two strings hold the same characters.
pub fn str_eq(a: &str, b: &str) -> (r: bool)
    ensures
        r == (a@ == b@),
{
    let av = chars_of(a);
    let bv = chars_of(b);
    if av.len() != bv.len() {
        return false;
    }
    let mut i: usize = 0;
    while i < av.len()
        invariant
            av@ == a@,
            bv@ == b@,
            av@.len() == bv@.len(),
            i <= av@.len(),
            forall|k: int| 0 <= k < i ==> av@[k] == bv@[k],
        decreases av@.len() - i,
    {
        if av[i] != bv[i] {
            return false;
        }
        i = i + 1;
    }
    assert(a@ =~= b@);
    true
}
} // verus!
