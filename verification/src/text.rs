//! Text as the rest of the library sees it: a `&str` is its sequence of chars, and every
//! rule about names and paths is stated over that sequence.
//!
//! A few std functions carry Unicode tables (white space, letters, lower case). What they
//! return is named here rather than written out; everything built on top of them is
//! verified.

use vstd::prelude::*;
use vstd::utf8::*;

verus! {

// ------------------------------------------------------------------------------------
// std's Unicode-table functions: what they return, stated or named.
// ------------------------------------------------------------------------------------

/// `char::is_whitespace`: the Unicode `White_Space` property, which these 25 code
/// points have: tab to carriage return, space, next line, no-break space, ogham space
/// mark, the spaces from en quad to hair space, line and paragraph separator, narrow
/// no-break space, medium mathematical space and ideographic space.
#[verifier::opaque]
pub open spec fn is_white_space(c: char) -> bool {
    ||| ('\u{9}' <= c && c <= '\u{D}')
    ||| c == ' '
    ||| c == '\u{85}'
    ||| c == '\u{A0}'
    ||| c == '\u{1680}'
    ||| ('\u{2000}' <= c && c <= '\u{200A}')
    ||| c == '\u{2028}'
    ||| c == '\u{2029}'
    ||| c == '\u{202F}'
    ||| c == '\u{205F}'
    ||| c == '\u{3000}'
}

/// `char::is_alphanumeric`: Unicode `Alphabetic` or `Numeric`.
pub uninterp spec fn is_alphanumeric(c: char) -> bool;

/// `char::is_control`: the Unicode general category `Cc`, which is U+0000 to U+001F and
/// U+007F to U+009F.
#[verifier::opaque]
pub open spec fn is_control(c: char) -> bool {
    c <= '\u{1F}' || ('\u{7F}' <= c && c <= '\u{9F}')
}

/// `str::to_lowercase`: the Unicode lower case of a whole string.
pub uninterp spec fn lowercase(s: Seq<char>) -> Seq<char>;

/// A UTF-16 unit that is half of a surrogate pair.
pub open spec fn is_surrogate(u: u16) -> bool {
    0xD800 <= u <= 0xDFFF
}

/// The char a high and a low surrogate stand for together.
pub open spec fn pair_char(hi: u16, lo: u16) -> char {
    (0x10000 + (hi - 0xD800) * 0x400 + (lo - 0xDC00)) as char
}

/// Does `u` start with a surrogate pair?
pub open spec fn starts_pair(u: Seq<u16>) -> bool {
    u.len() >= 2 && 0xD800 <= u[0] <= 0xDBFF && 0xDC00 <= u[1] <= 0xDFFF
}

/// `String::from_utf16_lossy`: the UTF-16 units decoded front to back, a unit that is not
/// a surrogate as its char, a high surrogate followed by a low one as their pair's char,
/// and every other surrogate replaced by U+FFFD.
pub open spec fn utf16_lossy(units: Seq<u16>) -> Seq<char>
    decreases units.len(),
{
    if units.len() == 0 {
        seq![]
    } else if !is_surrogate(units[0]) {
        seq![units[0] as char] + utf16_lossy(units.skip(1))
    } else if starts_pair(units) {
        seq![pair_char(units[0], units[1])] + utf16_lossy(units.skip(2))
    } else {
        seq!['\u{FFFD}'] + utf16_lossy(units.skip(1))
    }
}

/// `String::from_utf16`: the same decoding, or nothing when a surrogate is unpaired.
pub open spec fn utf16_strict(units: Seq<u16>) -> Option<Seq<char>>
    decreases units.len(),
{
    if units.len() == 0 {
        Some(seq![])
    } else if !is_surrogate(units[0]) {
        match utf16_strict(units.skip(1)) {
            Some(r) => Some(seq![units[0] as char] + r),
            None => None,
        }
    } else if starts_pair(units) {
        match utf16_strict(units.skip(2)) {
            Some(r) => Some(seq![pair_char(units[0], units[1])] + r),
            None => None,
        }
    } else {
        None
    }
}

/// `String::from_utf8_lossy`: the bytes decoded as UTF-8, each invalid sequence replaced
/// by U+FFFD.
pub uninterp spec fn utf8_lossy(bytes: Seq<u8>) -> Seq<char>;

/// Does `c` have the `White_Space` property?
pub(crate) fn char_is_whitespace(c: char) -> (r: bool)
    ensures
        r == is_white_space(c),
{
    proof {
        reveal(is_white_space);
    }
    ('\u{9}' <= c && c <= '\u{D}') || c == ' ' || c == '\u{85}' || c == '\u{A0}' || c == '\u{1680}'
        || ('\u{2000}' <= c && c <= '\u{200A}') || c == '\u{2028}' || c == '\u{2029}' || c == '\u{202F}'
        || c == '\u{205F}' || c == '\u{3000}'
}

/// Calls `char::is_alphanumeric`; the result is named, not stated.
#[verifier::external_body]
pub(crate) fn char_is_alphanumeric(c: char) -> (r: bool)
    ensures
        r == is_alphanumeric(c),
{
    c.is_alphanumeric()
}

/// Is `c` a control code (general category `Cc`)?
pub(crate) fn char_is_control(c: char) -> (r: bool)
    ensures
        r == is_control(c),
{
    proof {
        reveal(is_control);
    }
    c <= '\u{1F}' || ('\u{7F}' <= c && c <= '\u{9F}')
}

/// Calls `str::to_lowercase`; the result is named, not stated.
#[verifier::external_body]
pub(crate) fn to_lowercase(s: &str) -> (r: String)
    ensures
        r@ == lowercase(s@),
{
    s.to_lowercase()
}

/// Calls `char::from_u32`: the char with code point `v`, when `v` is one (at most
/// U+10FFFF, and no surrogate).
#[verifier::external_body]
fn char_from_u32(v: u32) -> (r: Option<char>)
    ensures
        r == (if v <= 0x10FFFF && !(0xD800 <= v <= 0xDFFF) { Some(v as char) } else { None::<char> }),
{
    char::from_u32(v)
}

/// One step of UTF-16 decoding at `units[i]`: the char it gives (U+FFFD for a surrogate
/// without its pair, flagged) and how many units it took.
fn utf16_step(units: &[u16], i: usize) -> (r: (char, usize, bool))
    requires
        i < units.len(),
    ensures
        ({
            let u = units@.skip(i as int);
            if !is_surrogate(u[0]) {
                r == (u[0] as char, 1usize, true)
            } else if starts_pair(u) {
                r == (pair_char(u[0], u[1]), 2usize, true)
            } else {
                r == ('\u{FFFD}', 1usize, false)
            }
        }),
{
    let ghost u = units@.skip(i as int);
    let a = units[i];
    if a < 0xD800 || a > 0xDFFF {
        match char_from_u32(a as u32) {
            Some(c) => (c, 1, true),
            None => {
                assert(false);
                ('\u{FFFD}', 1, false)
            },
        }
    } else if a <= 0xDBFF && i + 1 < units.len() && 0xDC00 <= units[i + 1] && units[i + 1] <= 0xDFFF {
        let b = units[i + 1];
        assert(u[1] == b);
        let v: u32 = 0x10000 + ((a - 0xD800) as u32) * 0x400 + ((b - 0xDC00) as u32);
        match char_from_u32(v) {
            Some(c) => (c, 2, true),
            None => {
                assert(false);
                ('\u{FFFD}', 1, false)
            },
        }
    } else {
        ('\u{FFFD}', 1, false)
    }
}

/// The units decoded, every unpaired surrogate replaced by U+FFFD (what
/// `String::from_utf16_lossy` does).
pub(crate) fn from_utf16_lossy(units: &[u16]) -> (r: String)
    ensures
        r@ == utf16_lossy(units@),
{
    let mut out = String::new();
    let mut i: usize = 0;
    assert(units@.skip(0) =~= units@);
    while i < units.len()
        invariant
            i <= units.len(),
            out@ + utf16_lossy(units@.skip(i as int)) == utf16_lossy(units@),
        decreases units.len() - i,
    {
        let ghost u = units@.skip(i as int);
        let (c, n, _) = utf16_step(units, i);
        proof {
            assert(u.skip(n as int) =~= units@.skip(i + n));
            assert(out@.push(c) + utf16_lossy(u.skip(n as int)) =~= out@ + utf16_lossy(u));
        }
        push_char(&mut out, c);
        i = i + n;
    }
    assert(units@.skip(i as int) =~= Seq::<u16>::empty());
    assert(out@ + Seq::<char>::empty() =~= out@);
    out
}

/// The units decoded, or nothing when a surrogate is unpaired (what `String::from_utf16`
/// does).
pub(crate) fn from_utf16(units: &[u16]) -> (r: Option<String>)
    ensures
        r is Some <==> utf16_strict(units@) is Some,
        r matches Some(s) ==> utf16_strict(units@) == Some(s@),
{
    let mut out = String::new();
    let mut i: usize = 0;
    assert(units@.skip(0) =~= units@);
    while i < units.len()
        invariant
            i <= units.len(),
            utf16_strict(units@) == (match utf16_strict(units@.skip(i as int)) {
                Some(rest) => Some(out@ + rest),
                None => None,
            }),
        decreases units.len() - i,
    {
        let ghost u = units@.skip(i as int);
        let (c, n, ok) = utf16_step(units, i);
        if !ok {
            return None;
        }
        proof {
            assert(u.skip(n as int) =~= units@.skip(i + n));
            match utf16_strict(u.skip(n as int)) {
                Some(rest) => {
                    assert(out@.push(c) + rest =~= out@ + (seq![c] + rest));
                },
                None => {},
            }
        }
        push_char(&mut out, c);
        i = i + n;
    }
    assert(units@.skip(i as int) =~= Seq::<u16>::empty());
    assert(out@ + Seq::<char>::empty() =~= out@);
    Some(out)
}

/// Calls `String::from_utf8_lossy`; the result is named, not stated.
#[verifier::external_body]
pub(crate) fn from_utf8_lossy(bytes: &[u8]) -> (r: String)
    ensures
        r@ == utf8_lossy(bytes@),
{
    String::from_utf8_lossy(bytes).into_owned()
}

/// Calls `String::from_utf8`: the bytes are accepted exactly when they are valid UTF-8,
/// and then the text is their decoding.
#[verifier::external_body]
pub(crate) fn from_utf8(bytes: Vec<u8>) -> (r: Option<String>)
    ensures
        r is Some <==> valid_utf8(bytes@),
        r matches Some(s) ==> s@ == decode_utf8(bytes@),
{
    String::from_utf8(bytes).ok()
}

/// Calls `String::push`: one char more at the end.
#[verifier::external_body]
pub(crate) fn push_char(s: &mut String, c: char)
    ensures
        final(s)@ == old(s)@.push(c),
{
    s.push(c);
}

/// The text appended.
pub(crate) fn push_str(s: &mut String, t: &str)
    ensures
        final(s)@ == old(s)@ + t@,
{
    s.append(t);
}

// ------------------------------------------------------------------------------------
// Chars in and out.
// ------------------------------------------------------------------------------------

/// The chars of `s`, in order.
pub fn chars_of(s: &str) -> (v: Vec<char>)
    ensures
        v@ == s@,
{
    let mut v: Vec<char> = Vec::new();
    for c in it: s.chars()
        invariant
            v@ == it.seq().take(it.index() as int),
    {
        v.push(c);
    }
    v
}

/// The text made of `v`'s chars.
pub fn string_of(v: &[char]) -> (s: String)
    ensures
        s@ == v@,
{
    let mut s = String::new();
    let mut i: usize = 0;
    while i < v.len()
        invariant
            i <= v.len(),
            s@ == v@.take(i as int),
        decreases v.len() - i,
    {
        push_char(&mut s, v[i]);
        i += 1;
    }
    s
}

/// The text made of `v[start..end]`.
pub fn string_of_range(v: &[char], start: usize, end: usize) -> (s: String)
    requires
        start <= end <= v.len(),
    ensures
        s@ == v@.subrange(start as int, end as int),
{
    let mut s = String::new();
    let mut i: usize = start;
    while i < end
        invariant
            start <= i <= end <= v.len(),
            s@ == v@.subrange(start as int, i as int),
        decreases end - i,
    {
        push_char(&mut s, v[i]);
        i += 1;
    }
    s
}

/// A copy of `s`.
pub fn to_string(s: &str) -> (r: String)
    ensures
        r@ == s@,
{
    let mut r = String::new();
    push_str(&mut r, s);
    r
}

/// `a` followed by `b`.
/// Texts joined with `sep` between them, as `[String]::join` does.
pub open spec fn join_spec(parts: Seq<String>, sep: Seq<char>) -> Seq<char>
    decreases parts.len(),
{
    if parts.len() == 0 {
        seq![]
    } else if parts.len() == 1 {
        parts[0]@
    } else {
        join_spec(parts.drop_last(), sep) + sep + parts.last()@
    }
}

pub fn join(parts: &[String], sep: &str) -> (r: String)
    ensures
        r@ == join_spec(parts@, sep@),
{
    let mut out = String::new();
    let mut i: usize = 0;
    while i < parts.len()
        invariant
            i <= parts@.len(),
            out@ == join_spec(parts@.take(i as int), sep@),
        decreases parts.len() - i,
    {
        proof {
            assert(parts@.take(i + 1).drop_last() =~= parts@.take(i as int));
            reveal_strlit("");
        }
        if i > 0 {
            push_str(&mut out, sep);
        }
        push_str(&mut out, parts[i].as_str());
        proof {
            if i == 0 {
                assert(out@ =~= parts@[0]@);
            }
        }
        i += 1;
    }
    assert(parts@.take(parts@.len() as int) =~= parts@);
    out
}

/// An optional text, by its chars.
pub open spec fn opt_chars(o: Option<&str>) -> Option<Seq<char>> {
    match o {
        Some(s) => Some(s@),
        None => None,
    }
}

pub fn concat(a: &str, b: &str) -> (r: String)
    ensures
        r@ == a@ + b@,
{
    let mut r = String::new();
    push_str(&mut r, a);
    push_str(&mut r, b);
    r
}

// ------------------------------------------------------------------------------------
// ASCII case.
// ------------------------------------------------------------------------------------

/// `char::to_ascii_lowercase`.
pub open spec fn ascii_lower(c: char) -> char {
    if 'A' <= c && c <= 'Z' {
        ((c as u32) + 32) as char
    } else {
        c
    }
}

pub open spec fn ascii_lower_seq(s: Seq<char>) -> Seq<char> {
    Seq::new(s.len(), |i: int| ascii_lower(s[i]))
}

/// `str::eq_ignore_ascii_case`.
pub open spec fn eq_ignore_ascii_case(a: Seq<char>, b: Seq<char>) -> bool {
    ascii_lower_seq(a) == ascii_lower_seq(b)
}

pub fn lower_char(c: char) -> (r: char)
    ensures
        r == ascii_lower(c),
{
    if 'A' <= c && c <= 'Z' {
        let b = (c as u8) + 32;
        b as char
    } else {
        c
    }
}

/// `s` with its ASCII capitals lowered, as `str::to_ascii_lowercase` does.
pub fn to_ascii_lowercase(s: &str) -> (r: Vec<char>)
    ensures
        r@ == ascii_lower_seq(s@),
{
    let v = chars_of(s);
    let mut r: Vec<char> = Vec::new();
    let mut i: usize = 0;
    while i < v.len()
        invariant
            i <= v.len(),
            v@ == s@,
            r@ == ascii_lower_seq(v@.take(i as int)),
        decreases v.len() - i,
    {
        r.push(lower_char(v[i]));
        i += 1;
        assert(ascii_lower_seq(v@.take(i as int)) =~= ascii_lower_seq(v@.take(i - 1)).push(ascii_lower(v@[i - 1])));
    }
    assert(v@.take(v.len() as int) =~= v@);
    r
}

// ------------------------------------------------------------------------------------
// Prefixes and suffixes.
// ------------------------------------------------------------------------------------

pub open spec fn has_prefix(s: Seq<char>, p: Seq<char>) -> bool {
    p.len() <= s.len() && s.take(p.len() as int) == p
}

pub open spec fn has_suffix(s: Seq<char>, p: Seq<char>) -> bool {
    p.len() <= s.len() && s.skip(s.len() - p.len()) == p
}

/// Does `s` begin with `p`?
pub fn starts_with(s: &[char], p: &[char]) -> (r: bool)
    ensures
        r == has_prefix(s@, p@),
{
    if p.len() > s.len() {
        return false;
    }
    let mut i: usize = 0;
    while i < p.len()
        invariant
            i <= p.len() <= s.len(),
            forall|j: int| 0 <= j < i ==> s@[j] == p@[j],
        decreases p.len() - i,
    {
        if s[i] != p[i] {
            assert(s@.take(p.len() as int)[i as int] != p@[i as int]);
            return false;
        }
        i += 1;
    }
    assert(s@.take(p.len() as int) =~= p@);
    true
}

/// Does `s` end with `p`?
pub fn ends_with(s: &[char], p: &[char]) -> (r: bool)
    ensures
        r == has_suffix(s@, p@),
{
    if p.len() > s.len() {
        return false;
    }
    let off = s.len() - p.len();
    let mut i: usize = 0;
    while i < p.len()
        invariant
            i <= p.len() <= s.len(),
            off == s.len() - p.len(),
            forall|j: int| 0 <= j < i ==> s@[off + j] == p@[j],
        decreases p.len() - i,
    {
        if s[off + i] != p[i] {
            assert(s@.skip(off as int)[i as int] != p@[i as int]);
            return false;
        }
        i += 1;
    }
    assert(s@.skip(off as int) =~= p@);
    true
}

/// `ends_with`, comparing ASCII letters without case.
pub fn ends_with_ignore_ascii_case(s: &[char], p: &[char]) -> (r: bool)
    ensures
        r == (p.len() <= s.len() && eq_ignore_ascii_case(s@.skip(s.len() - p.len()), p@)),
{
    if p.len() > s.len() {
        return false;
    }
    let off = s.len() - p.len();
    let mut i: usize = 0;
    while i < p.len()
        invariant
            i <= p.len() <= s.len(),
            off == s.len() - p.len(),
            forall|j: int| 0 <= j < i ==> ascii_lower(s@[off + j]) == ascii_lower(p@[j]),
        decreases p.len() - i,
    {
        if lower_char(s[off + i]) != lower_char(p[i]) {
            assert(ascii_lower_seq(s@.skip(off as int))[i as int] != ascii_lower_seq(p@)[i as int]);
            return false;
        }
        i += 1;
    }
    assert(ascii_lower_seq(s@.skip(off as int)) =~= ascii_lower_seq(p@));
    true
}

/// `str::eq_ignore_ascii_case` over chars.
pub fn eq_ignore_case(a: &[char], b: &[char]) -> (r: bool)
    ensures
        r == eq_ignore_ascii_case(a@, b@),
{
    if a.len() != b.len() {
        assert(ascii_lower_seq(a@).len() != ascii_lower_seq(b@).len());
        return false;
    }
    let mut i: usize = 0;
    while i < a.len()
        invariant
            i <= a.len() == b.len(),
            forall|j: int| 0 <= j < i ==> ascii_lower(a@[j]) == ascii_lower(b@[j]),
        decreases a.len() - i,
    {
        if lower_char(a[i]) != lower_char(b[i]) {
            assert(ascii_lower_seq(a@)[i as int] != ascii_lower_seq(b@)[i as int]);
            return false;
        }
        i += 1;
    }
    assert(ascii_lower_seq(a@) =~= ascii_lower_seq(b@));
    true
}

/// Are the two char slices equal?
pub fn chars_eq(a: &[char], b: &[char]) -> (r: bool)
    ensures
        r == (a@ == b@),
{
    if a.len() != b.len() {
        return false;
    }
    let mut i: usize = 0;
    while i < a.len()
        invariant
            i <= a.len() == b.len(),
            forall|j: int| 0 <= j < i ==> a@[j] == b@[j],
        decreases a.len() - i,
    {
        if a[i] != b[i] {
            return false;
        }
        i += 1;
    }
    assert(a@ =~= b@);
    true
}

// ------------------------------------------------------------------------------------
// ASCII bytes as chars.
// ------------------------------------------------------------------------------------

pub open spec fn ascii_chars(b: Seq<u8>) -> Seq<char> {
    b.map_values(|x: u8| x as char)
}

pub open spec fn all_ascii(b: Seq<u8>) -> bool {
    forall|i: int| 0 <= i < b.len() ==> #[trigger] b[i] < 128
}

/// ASCII bytes read as chars and written back out as UTF-8 are the same bytes.
pub proof fn lemma_ascii_round_trip(b: Seq<u8>)
    requires
        all_ascii(b),
    ensures
        encode_utf8(ascii_chars(b)) == b,
        is_ascii_chars(ascii_chars(b)),
{
    let c = ascii_chars(b);
    assert forall|i: int| 0 <= i < c.len() implies '\0' <= #[trigger] c[i] <= '\u{7f}' by {
        assert(b[i] < 128);
    }
    is_ascii_chars_encode_utf8(c);
    assert(encode_utf8(c) =~= b);
}

// ------------------------------------------------------------------------------------
// Searching.
// ------------------------------------------------------------------------------------

/// Does `p` occur in `s` at `i`?
pub open spec fn occurs_at(s: Seq<char>, p: Seq<char>, i: int) -> bool {
    0 <= i && i + p.len() <= s.len() && s.subrange(i, i + p.len()) == p
}

/// `str::contains` with a string pattern.
pub open spec fn contains_str(s: Seq<char>, p: Seq<char>) -> bool {
    exists|i: int| occurs_at(s, p, i)
}

/// Does `p` occur in `s` at `i`?
pub fn occurs_at_exec(s: &[char], p: &[char], i: usize) -> (r: bool)
    ensures
        r == occurs_at(s@, p@, i as int),
{
    if i > s.len() || p.len() > s.len() - i {
        return false;
    }
    let mut k: usize = 0;
    while k < p.len()
        invariant
            k <= p.len(),
            i + p.len() <= s.len(),
            forall|j: int| 0 <= j < k ==> s@[i + j] == p@[j],
        decreases p.len() - k,
    {
        if s[i + k] != p[k] {
            assert(s@.subrange(i as int, i + p.len())[k as int] != p@[k as int]);
            return false;
        }
        k += 1;
    }
    assert(s@.subrange(i as int, i + p.len()) =~= p@);
    true
}

/// Does `p` occur anywhere in `s`?
pub fn contains(s: &[char], p: &[char]) -> (r: bool)
    ensures
        r == contains_str(s@, p@),
{
    if p.len() > s.len() {
        assert(forall|i: int| !occurs_at(s@, p@, i));
        return false;
    }
    if p.len() == 0 {
        assert(s@.subrange(0, 0) =~= p@);
        assert(occurs_at(s@, p@, 0));
        return true;
    }
    let mut i: usize = 0;
    while s.len() - i >= p.len()
        invariant
            0 < p.len() <= s.len(),
            i <= s.len(),
            forall|j: int| 0 <= j < i ==> !occurs_at(s@, p@, j),
        decreases s.len() - i,
    {
        if occurs_at_exec(s, p, i) {
            return true;
        }
        i += 1;
    }
    assert(forall|j: int| !occurs_at(s@, p@, j));
    false
}

/// The first position of `c` in `s`, if any.
pub open spec fn first_index_of(s: Seq<char>, c: char) -> Option<int> {
    if exists|i: int| 0 <= i < s.len() && s[i] == c {
        Some(choose|i: int| 0 <= i < s.len() && s[i] == c && forall|j: int| 0 <= j < i ==> s[j] != c)
    } else {
        None
    }
}

/// The first position of `c` in `s`, if any.
pub fn find_char(s: &[char], c: char) -> (r: Option<usize>)
    ensures
        r == (match first_index_of(s@, c) { Some(i) => Some(i as usize), None => None }),
        r matches Some(i) ==> i < s.len() && s@[i as int] == c && forall|j: int| 0 <= j < i ==> s@[j] != c,
        r is None ==> forall|j: int| 0 <= j < s.len() ==> s@[j] != c,
{
    let mut i: usize = 0;
    while i < s.len()
        invariant
            i <= s.len(),
            forall|j: int| 0 <= j < i ==> s@[j] != c,
        decreases s.len() - i,
    {
        if s[i] == c {
            proof {
                let k = choose|k: int| 0 <= k < s@.len() && s@[k] == c && forall|j: int| 0 <= j < k ==> s@[j] != c;
                assert(k == i) by {
                    if k < i {
                    } else if k > i {
                        assert(s@[i as int] != c);
                    }
                }
            }
            return Some(i);
        }
        i += 1;
    }
    None
}

// ------------------------------------------------------------------------------------
// Trimming.
// ------------------------------------------------------------------------------------

/// How many of `s`'s leading chars satisfy `strip`.
pub open spec fn lead_len(s: Seq<char>, strip: spec_fn(char) -> bool) -> nat
    decreases s.len(),
{
    if s.len() == 0 || !strip(s[0]) {
        0
    } else {
        1 + lead_len(s.skip(1), strip)
    }
}

/// How many of `s`'s trailing chars satisfy `strip`.
pub open spec fn trail_len(s: Seq<char>, strip: spec_fn(char) -> bool) -> nat
    decreases s.len(),
{
    if s.len() == 0 || !strip(s.last()) {
        0
    } else {
        1 + trail_len(s.drop_last(), strip)
    }
}

/// `s` without the leading chars that satisfy `strip`.
pub open spec fn trim_start_by(s: Seq<char>, strip: spec_fn(char) -> bool) -> Seq<char> {
    s.skip(lead_len(s, strip) as int)
}

/// `s` without the trailing chars that satisfy `strip`.
pub open spec fn trim_end_by(s: Seq<char>, strip: spec_fn(char) -> bool) -> Seq<char> {
    s.take(s.len() - trail_len(s, strip))
}

/// `s` without leading or trailing chars that satisfy `strip`.
pub open spec fn trim_by(s: Seq<char>, strip: spec_fn(char) -> bool) -> Seq<char> {
    trim_end_by(trim_start_by(s, strip), strip)
}

/// `str::trim`: without leading and trailing Unicode white space.
pub open spec fn trim_spec(s: Seq<char>) -> Seq<char> {
    trim_by(s, |c: char| is_white_space(c))
}

pub proof fn lemma_lead_len_bound(s: Seq<char>, strip: spec_fn(char) -> bool)
    ensures
        lead_len(s, strip) <= s.len(),
        forall|i: int| 0 <= i < lead_len(s, strip) ==> strip(#[trigger] s[i]),
        lead_len(s, strip) < s.len() ==> !strip(s[lead_len(s, strip) as int]),
    decreases s.len(),
{
    if s.len() > 0 && strip(s[0]) {
        lemma_lead_len_bound(s.skip(1), strip);
        assert forall|i: int| 0 <= i < lead_len(s, strip) implies strip(#[trigger] s[i]) by {
            if i > 0 {
                assert(s[i] == s.skip(1)[i - 1]);
            }
        }
    }
}

pub proof fn lemma_trail_len_bound(s: Seq<char>, strip: spec_fn(char) -> bool)
    ensures
        trail_len(s, strip) <= s.len(),
        forall|i: int| s.len() - trail_len(s, strip) <= i < s.len() ==> strip(#[trigger] s[i]),
        trail_len(s, strip) < s.len() ==> !strip(s[s.len() - trail_len(s, strip) - 1]),
    decreases s.len(),
{
    if s.len() > 0 && strip(s.last()) {
        lemma_trail_len_bound(s.drop_last(), strip);
        assert forall|i: int| s.len() - trail_len(s, strip) <= i < s.len() implies strip(#[trigger] s[i]) by {
            if i < s.len() - 1 {
                assert(s[i] == s.drop_last()[i]);
            }
        }
    }
}

/// The number of leading chars of `v` that are white space.
fn leading_ws(v: &[char], from: usize) -> (n: usize)
    requires
        from <= v.len(),
    ensures
        n as nat == lead_len(v@.skip(from as int), |c: char| is_white_space(c)),
        from + n <= v.len(),
    decreases v.len() - from,
{
    if from < v.len() && char_is_whitespace(v[from]) {
        let n = leading_ws(v, from + 1);
        assert(v@.skip(from as int).skip(1) =~= v@.skip(from + 1));
        n + 1
    } else {
        0
    }
}

/// The number of trailing chars of `v[..to]` that are white space.
fn trailing_ws(v: &[char], to: usize) -> (n: usize)
    requires
        to <= v.len(),
    ensures
        n as nat == trail_len(v@.take(to as int), |c: char| is_white_space(c)),
        n <= to,
    decreases to,
{
    if to > 0 && char_is_whitespace(v[to - 1]) {
        let n = trailing_ws(v, to - 1);
        assert(v@.take(to as int).drop_last() =~= v@.take(to - 1));
        n + 1
    } else {
        0
    }
}

/// `str::trim`, as chars.
pub fn trim(s: &str) -> (r: Vec<char>)
    ensures
        r@ == trim_spec(s@),
{
    let v = chars_of(s);
    let start = leading_ws(&v, 0);
    assert(v@.skip(0) =~= v@);
    let ghost tail = trim_start_by(s@, |c: char| is_white_space(c));
    assert(tail =~= v@.subrange(start as int, v.len() as int));
    let mut w: Vec<char> = Vec::new();
    let mut i: usize = start;
    while i < v.len()
        invariant
            start <= i <= v.len(),
            w@ == v@.subrange(start as int, i as int),
        decreases v.len() - i,
    {
        w.push(v[i]);
        i += 1;
        assert(w@ =~= v@.subrange(start as int, i as int));
    }
    let end = trailing_ws(&w, w.len());
    assert(w@.take(w.len() as int) =~= w@);
    let mut r: Vec<char> = Vec::new();
    let mut k: usize = 0;
    while k < w.len() - end
        invariant
            end <= w.len(),
            k <= w.len() - end,
            r@ == w@.take(k as int),
        decreases w.len() - end - k,
    {
        r.push(w[k]);
        k += 1;
        assert(r@ =~= w@.take(k as int));
    }
    r
}

/// `str::trim`, as a `String`.
pub fn trimmed(s: &str) -> (r: String)
    ensures
        r@ == trim_spec(s@),
{
    let v = trim(s);
    string_of(&v)
}

// ------------------------------------------------------------------------------------
// Decimal numbers.
// ------------------------------------------------------------------------------------

pub open spec fn digit_char(d: nat) -> char {
    ((48 + d) as u8) as char
}

/// `{}` of an unsigned integer: its decimal digits, no padding.
pub open spec fn dec_digits(n: nat) -> Seq<char>
    decreases n,
{
    if n < 10 {
        seq![digit_char(n)]
    } else {
        dec_digits(n / 10).push(digit_char(n % 10))
    }
}

fn digit_of(d: u64) -> (c: char)
    requires
        d < 10,
    ensures
        c == digit_char(d as nat),
{
    (48 + d as u8) as char
}

/// Append `{}` of `n`.
pub fn push_dec(out: &mut String, n: u64)
    ensures
        final(out)@ == old(out)@ + dec_digits(n as nat),
    decreases n,
{
    if n >= 10 {
        push_dec(out, n / 10);
    }
    push_char(out, digit_of(n % 10));
    assert(final(out)@ =~= old(out)@ + dec_digits(n as nat));
}

pub open spec fn is_digit(c: char) -> bool {
    '0' <= c && c <= '9'
}

/// The value of a run of ASCII digits.
pub open spec fn digits_value(s: Seq<char>) -> nat
    decreases s.len(),
{
    if s.len() == 0 {
        0
    } else {
        digits_value(s.drop_last()) * 10 + ((s.last() as u32 - 48) as nat)
    }
}

pub open spec fn all_digits(s: Seq<char>) -> bool {
    forall|i: int| 0 <= i < s.len() ==> is_digit(#[trigger] s[i])
}

/// `str::parse` of an unsigned integer that must fit under `max`: an optional `+`, then
/// at least one ASCII digit, and a value no greater than `max`.
pub open spec fn parse_unsigned(s: Seq<char>, max: nat) -> Option<nat> {
    let d = if s.len() > 0 && s[0] == '+' { s.skip(1) } else { s };
    if d.len() == 0 || !all_digits(d) || digits_value(d) > max {
        None
    } else {
        Some(digits_value(d))
    }
}

/// Parse an unsigned decimal no greater than `max`, as `str::parse` does.
pub fn parse_unsigned_exec(s: &[char], max: u64) -> (r: Option<u64>)
    ensures
        r matches Some(v) ==> parse_unsigned(s@, max as nat) == Some(v as nat),
        r is None <==> parse_unsigned(s@, max as nat) is None,
{
    let start: usize = if s.len() > 0 && s[0] == '+' { 1 } else { 0 };
    let ghost d = if s@.len() > 0 && s@[0] == '+' { s@.skip(1) } else { s@ };
    assert(d =~= s@.skip(start as int));
    if start == s.len() {
        return None;
    }
    let mut value: u64 = 0;
    let mut i: usize = start;
    while i < s.len()
        invariant
            start <= i <= s.len(),
            d == s@.skip(start as int),
            d == (if s@.len() > 0 && s@[0] == '+' { s@.skip(1) } else { s@ }),
            start < s.len(),
            value <= max,
            all_digits(d.take(i - start)),
            value as nat == digits_value(d.take(i - start)),
        decreases s.len() - i,
    {
        let c = s[i];
        assert(d.take(i + 1 - start).drop_last() =~= d.take(i - start));
        assert(d.take(i + 1 - start).last() == c);
        if !('0' <= c && c <= '9') {
            assert(d[i - start] == c);
            assert(!is_digit(d[i - start]));
            assert(!all_digits(d));
            return None;
        }
        let dv = (c as u32 - 48) as u64;
        if dv > max || value > (max - dv) / 10 {
            proof {
                if dv <= max {
                    assert(value * 10 + dv > max) by (nonlinear_arith)
                        requires
                            value > (max - dv) / 10,
                            dv <= max,
                    ;
                }
                lemma_digits_prefix_grows(d, i + 1 - start, max as nat);
            }
            return None;
        }
        assert(value * 10 + dv <= max) by (nonlinear_arith)
            requires
                value <= (max - dv) / 10,
                dv <= max,
        ;
        value = value * 10 + dv;
        i += 1;
        assert(all_digits(d.take(i - start)));
    }
    assert(d.take(i - start) =~= d);
    Some(value)
}

proof fn lemma_digits_prefix_grows(d: Seq<char>, k: int, max: nat)
    requires
        0 < k <= d.len(),
        all_digits(d.take(k)),
        digits_value(d.take(k)) > max,
    ensures
        !all_digits(d) || digits_value(d) > max,
    decreases d.len() - k,
{
    if k < d.len() && all_digits(d) {
        assert(d.take(k + 1).drop_last() =~= d.take(k));
        assert(all_digits(d.take(k + 1)));
        lemma_digits_prefix_grows(d, k + 1, max);
    } else if k == d.len() {
        assert(d.take(k) =~= d);
    }
}

// ------------------------------------------------------------------------------------
// UTF-16.
// ------------------------------------------------------------------------------------

/// A char in UTF-16: one unit below U+10000, a surrogate pair above.
pub open spec fn utf16_of_char(c: char) -> Seq<u16> {
    let v = c as u32;
    if v < 0x10000 {
        seq![v as u16]
    } else {
        let w = (v - 0x10000) as u32;
        seq![(0xD800 + w / 0x400) as u16, (0xDC00 + w % 0x400) as u16]
    }
}

/// A string in UTF-16, as `str::encode_utf16` gives it.
pub open spec fn utf16_encode(s: Seq<char>) -> Seq<u16>
    decreases s.len(),
{
    if s.len() == 0 {
        seq![]
    } else {
        utf16_encode(s.drop_last()) + utf16_of_char(s.last())
    }
}

/// Append the UTF-16 of `s` to `out`.
pub fn push_utf16(out: &mut Vec<u16>, s: &str)
    ensures
        final(out)@ == old(out)@ + utf16_encode(s@),
{
    let v = chars_of(s);
    let ghost start = out@;
    let mut i: usize = 0;
    while i < v.len()
        invariant
            i <= v.len(),
            v@ == s@,
            out@ == start + utf16_encode(v@.take(i as int)),
        decreases v.len() - i,
    {
        let c = v[i];
        let n = c as u32;
        let ghost before = out@;
        if n < 0x10000 {
            out.push(n as u16);
        } else {
            proof {
                vstd::utf8::char_is_scalar(c);
            }
            let w = n - 0x10000;
            out.push((0xD800 + w / 0x400) as u16);
            out.push((0xDC00 + w % 0x400) as u16);
        }
        proof {
            assert(v@.take(i + 1).drop_last() =~= v@.take(i as int));
            assert(out@ =~= before + utf16_of_char(c));
        }
        i += 1;
    }
    assert(v@.take(v.len() as int) =~= v@);
}

// ------------------------------------------------------------------------------------
// Splitting.
// ------------------------------------------------------------------------------------

/// The pieces of `s` between `sep`s, empty pieces included, as `str::split` gives them.
pub open spec fn split_on(s: Seq<char>, sep: char) -> Seq<Seq<char>>
    decreases s.len(),
{
    if s.len() == 0 {
        seq![seq![]]
    } else {
        let prev = split_on(s.drop_last(), sep);
        if s.last() == sep {
            prev.push(seq![])
        } else {
            prev.update(prev.len() - 1, prev.last().push(s.last()))
        }
    }
}

pub proof fn lemma_split_nonempty(s: Seq<char>, sep: char)
    ensures
        split_on(s, sep).len() >= 1,
    decreases s.len(),
{
    if s.len() > 0 {
        lemma_split_nonempty(s.drop_last(), sep);
    }
}

pub proof fn lemma_split_push(s: Seq<char>, c: char, sep: char)
    ensures
        split_on(s.push(c), sep) == (if c == sep {
            split_on(s, sep).push(seq![])
        } else {
            split_on(s, sep).update(split_on(s, sep).len() - 1, split_on(s, sep).last().push(c))
        }),
{
    assert(s.push(c).drop_last() =~= s);
}

/// The pieces of a prefix, all but its last, are pieces of the whole.
pub proof fn lemma_split_prefix(s: Seq<char>, k: int, sep: char)
    requires
        0 <= k <= s.len(),
    ensures
        split_on(s.take(k), sep).len() <= split_on(s, sep).len(),
        forall|j: int| 0 <= j < split_on(s.take(k), sep).len() - 1
            ==> split_on(s, sep)[j] == #[trigger] split_on(s.take(k), sep)[j],
    decreases s.len() - k,
{
    if k < s.len() {
        lemma_split_prefix(s, k + 1, sep);
        lemma_split_nonempty(s.take(k), sep);
        assert(s.take(k + 1) =~= s.take(k).push(s[k]));
        lemma_split_push(s.take(k), s[k], sep);
        let pk = split_on(s.take(k), sep);
        let pk1 = split_on(s.take(k + 1), sep);
        assert forall|j: int| 0 <= j < pk.len() - 1 implies split_on(s, sep)[j] == #[trigger] pk[j] by {
            assert(pk1[j] == pk[j]);
            assert(j < pk1.len() - 1);
        }
    } else {
        assert(s.take(k) =~= s);
    }
}

// ------------------------------------------------------------------------------------
// Text order.
// ------------------------------------------------------------------------------------

/// Texts in order, char by char, as `str`'s ordering compares them.
pub open spec fn text_lt(a: Seq<char>, b: Seq<char>) -> bool
    decreases a.len(),
{
    if a.len() == 0 {
        b.len() > 0
    } else if b.len() == 0 {
        false
    } else if a[0] != b[0] {
        (a[0] as int) < (b[0] as int)
    } else {
        text_lt(a.skip(1), b.skip(1))
    }
}

pub proof fn lemma_text_lt_irreflexive(a: Seq<char>)
    ensures
        !text_lt(a, a),
    decreases a.len(),
{
    if a.len() > 0 {
        lemma_text_lt_irreflexive(a.skip(1));
    }
}

pub proof fn lemma_text_lt_transitive(a: Seq<char>, b: Seq<char>, c: Seq<char>)
    requires
        text_lt(a, b),
        text_lt(b, c),
    ensures
        text_lt(a, c),
    decreases a.len(),
{
    if a.len() > 0 && b.len() > 0 && c.len() > 0 && a[0] == b[0] && b[0] == c[0] {
        lemma_text_lt_transitive(a.skip(1), b.skip(1), c.skip(1));
    }
}

pub proof fn lemma_text_lt_total(a: Seq<char>, b: Seq<char>)
    requires
        a != b,
    ensures
        text_lt(a, b) || text_lt(b, a),
    decreases a.len(),
{
    if a.len() > 0 && b.len() > 0 && a[0] == b[0] {
        if a.skip(1) == b.skip(1) {
            assert(a =~= seq![a[0]] + a.skip(1));
            assert(b =~= seq![b[0]] + b.skip(1));
        }
        lemma_text_lt_total(a.skip(1), b.skip(1));
    } else if a.len() > 0 && b.len() > 0 {
        assert((a[0] as int) != (b[0] as int));
    } else if a.len() == 0 && b.len() == 0 {
        assert(a =~= b);
    }
}

pub proof fn lemma_text_lt_skip(a: Seq<char>, b: Seq<char>, i: int)
    requires
        0 <= i <= a.len(),
        i <= b.len(),
        a.take(i) == b.take(i),
    ensures
        text_lt(a, b) == text_lt(a.skip(i), b.skip(i)),
    decreases i,
{
    if i > 0 {
        assert(a[0] == a.take(i)[0] && b[0] == b.take(i)[0]);
        assert(a.skip(1).take(i - 1) =~= a.take(i).skip(1));
        assert(b.skip(1).take(i - 1) =~= b.take(i).skip(1));
        lemma_text_lt_skip(a.skip(1), b.skip(1), i - 1);
        assert(a.skip(1).skip(i - 1) =~= a.skip(i));
        assert(b.skip(1).skip(i - 1) =~= b.skip(i));
    } else {
        assert(a.skip(0) =~= a && b.skip(0) =~= b);
    }
}

pub fn text_lt_exec(a: &Vec<char>, b: &Vec<char>) -> (r: bool)
    ensures
        r == text_lt(a@, b@),
{
    let mut i: usize = 0;
    while i < a.len() && i < b.len() && a[i] == b[i]
        invariant
            i <= a@.len(),
            i <= b@.len(),
            a@.take(i as int) == b@.take(i as int),
        decreases a.len() - i,
    {
        assert(a@.take(i + 1) =~= a@.take(i as int).push(a@[i as int]));
        assert(b@.take(i + 1) =~= b@.take(i as int).push(b@[i as int]));
        i += 1;
    }
    proof {
        lemma_text_lt_skip(a@, b@, i as int);
    }
    if i == a.len() {
        i < b.len()
    } else if i == b.len() {
        false
    } else {
        let (x, y) = (a[i], b[i]);
        x < y
    }
}

/// Does the key at `i` come before the key at `j`: in text order, ties in the order
/// given.
pub open spec fn sorted_first(keys: Seq<Seq<char>>, i: int, j: int) -> bool {
    text_lt(keys[i], keys[j]) || (keys[i] == keys[j] && i < j)
}

pub proof fn lemma_sorted_first_transitive(keys: Seq<Seq<char>>, i: int, j: int, k: int)
    requires
        sorted_first(keys, i, j),
        sorted_first(keys, j, k),
    ensures
        sorted_first(keys, i, k),
{
    if text_lt(keys[i], keys[j]) && text_lt(keys[j], keys[k]) {
        lemma_text_lt_transitive(keys[i], keys[j], keys[k]);
    }
}

/// Is `order` every index of `keys` once, each before the next as `sorted_first` has it?
pub open spec fn is_sorted_order(keys: Seq<Seq<char>>, order: Seq<usize>) -> bool {
    &&& order.len() == keys.len()
    &&& forall|k: int| 0 <= k < order.len() ==> #[trigger] order[k] < keys.len()
    &&& forall|i: usize| i < keys.len() ==> #[trigger] order.contains(i)
    &&& forall|a: int, b: int| 0 <= a < b < order.len() ==> sorted_first(keys, #[trigger] order[a] as int, #[trigger] order[b] as int)
}

/// The order that sorts `keys`: every index once, in text order, ties in the order
/// given.
pub fn sorted_order(keys: &Vec<Vec<char>>) -> (r: Vec<usize>)
    ensures
        is_sorted_order(Seq::new(keys@.len(), |i: int| keys@[i]@), r@),
{
    let ghost ks = Seq::new(keys@.len(), |i: int| keys@[i]@);
    let mut out: Vec<usize> = Vec::new();
    let mut i: usize = 0;
    while i < keys.len()
        invariant
            i <= keys@.len(),
            ks == Seq::new(keys@.len(), |i: int| keys@[i]@),
            out@.len() == i,
            forall|k: int| 0 <= k < out@.len() ==> #[trigger] out@[k] < i,
            forall|t: usize| t < i ==> #[trigger] out@.contains(t),
            forall|a: int, b: int| 0 <= a < b < out@.len() ==> sorted_first(ks, #[trigger] out@[a] as int, #[trigger] out@[b] as int),
        decreases keys.len() - i,
    {
        let mut p: usize = 0;
        while p < out.len() && (text_lt_exec(&keys[out[p]], &keys[i]) || chars_eq(&keys[out[p]], &keys[i]))
            invariant
                p <= out@.len(),
                i < keys@.len(),
                ks == Seq::new(keys@.len(), |i: int| keys@[i]@),
                forall|k: int| 0 <= k < out@.len() ==> #[trigger] out@[k] < i,
                forall|k: int| 0 <= k < p ==> sorted_first(ks, #[trigger] out@[k] as int, i as int),
            decreases out.len() - p,
        {
            p += 1;
        }
        let ghost before = out@;
        out.insert(p, i);
        proof {
            assert(out@ == before.insert(p as int, i));
            assert forall|k: int| 0 <= k < out@.len() implies #[trigger] out@[k] < i + 1 by {
                if k < p {
                    assert(out@[k] == before[k]);
                } else if k > p {
                    assert(out@[k] == before[k - 1]);
                }
            }
            assert forall|t: usize| t < i + 1 implies #[trigger] out@.contains(t) by {
                if t == i {
                    assert(out@[p as int] == i);
                } else {
                    assert(before.contains(t));
                    let k = choose|k: int| 0 <= k < before.len() && before[k] == t;
                    if k < p {
                        assert(out@[k] == before[k]);
                    } else {
                        assert(out@[k + 1] == before[k]);
                    }
                }
            }
            if p < before.len() {
                let q = before[p as int] as int;
                assert(q < i);
                assert(!text_lt(ks[q], ks[i as int]) && ks[q] != ks[i as int]);
                lemma_text_lt_total(ks[q], ks[i as int]);
                assert(sorted_first(ks, i as int, q));
            }
            assert forall|a: int, b: int| 0 <= a < b < out@.len()
                implies sorted_first(ks, #[trigger] out@[a] as int, #[trigger] out@[b] as int) by {
                if b < p {
                    assert(out@[a] == before[a] && out@[b] == before[b]);
                } else if b == p {
                    assert(out@[a] == before[a]);
                } else if a < p {
                    assert(out@[a] == before[a] && out@[b] == before[b - 1]);
                    assert(sorted_first(ks, before[a] as int, i as int));
                    if b - 1 > p {
                        assert(sorted_first(ks, before[p as int] as int, before[b - 1] as int));
                        lemma_sorted_first_transitive(ks, i as int, before[p as int] as int, before[b - 1] as int);
                    }
                    lemma_sorted_first_transitive(ks, before[a] as int, i as int, before[b - 1] as int);
                } else if a == p {
                    assert(out@[b] == before[b - 1]);
                    if b - 1 > p {
                        assert(sorted_first(ks, before[p as int] as int, before[b - 1] as int));
                        lemma_sorted_first_transitive(ks, i as int, before[p as int] as int, before[b - 1] as int);
                    }
                } else {
                    assert(out@[a] == before[a - 1] && out@[b] == before[b - 1]);
                }
            }
        }
        i += 1;
    }
    out
}

/// A char below U+10000 is one unit, no surrogate, that reads back as the char.
pub(crate) proof fn lemma_bmp_char(c: char)
    requires
        (c as u32) < 0x10000,
    ensures
        !is_surrogate((c as u32) as u16),
        (((c as u32) as u16) as char) == c,
{
    let v = c as u32;
    assert(((v as u16) as char) == c);
    assert(v < 0xD800 || v > 0xDFFF);
}

/// A char from U+10000 on is a high and a low surrogate that read back as the char.
proof fn lemma_pair_char(c: char)
    requires
        (c as u32) >= 0x10000,
    ensures
        ({
            let u = utf16_of_char(c);
            &&& u.len() == 2
            &&& 0xD800 <= u[0] <= 0xDBFF
            &&& 0xDC00 <= u[1] <= 0xDFFF
            &&& pair_char(u[0], u[1]) == c
        }),
{
    let v = c as u32;
    assert(v <= 0x10FFFF);
    let w = (v - 0x10000) as u32;
    let hi = (0xD800 + w / 0x400) as u16;
    let lo = (0xDC00 + w % 0x400) as u16;
    assert((0x10000 + (hi - 0xD800) * 0x400 + (lo - 0xDC00)) as char == c);
}

/// The UTF-16 of a text is its first char's units, then the rest's.
proof fn lemma_utf16_front(s: Seq<char>)
    requires
        s.len() > 0,
    ensures
        utf16_encode(s) == utf16_of_char(s[0]) + utf16_encode(s.skip(1)),
    decreases s.len(),
{
    if s.len() == 1 {
        assert(s.drop_last() =~= Seq::<char>::empty());
        assert(utf16_encode(s.drop_last()) =~= Seq::<u16>::empty());
        assert(s.skip(1) =~= Seq::<char>::empty());
        assert(utf16_encode(s.skip(1)) =~= Seq::<u16>::empty());
        assert(s.last() == s[0]);
        assert(utf16_encode(s) =~= utf16_of_char(s[0]) + utf16_encode(s.skip(1)));
    } else {
        lemma_utf16_front(s.drop_last());
        assert(s.drop_last().skip(1) =~= s.skip(1).drop_last());
        assert(s.skip(1).last() == s.last());
        assert(utf16_encode(s) =~= utf16_of_char(s[0]) + utf16_encode(s.skip(1)));
    }
}

/// Decoding what `encode_utf16` wrote gives the text back, with nothing unpaired: strict
/// and lossy decoding agree on it.
pub proof fn utf16_round_trip(s: Seq<char>)
    ensures
        utf16_strict(utf16_encode(s)) == Some(s),
        utf16_lossy(utf16_encode(s)) == s,
    decreases s.len(),
{
    if s.len() == 0 {
        assert(utf16_encode(s) =~= Seq::<u16>::empty());
    } else {
        let c = s[0];
        lemma_utf16_front(s);
        utf16_round_trip(s.skip(1));
        let u = utf16_encode(s);
        let head = utf16_of_char(c);
        let v = c as u32;
        if v < 0x10000 {
            lemma_bmp_char(c);
            assert(u[0] == v as u16);
            assert(u.skip(1) =~= utf16_encode(s.skip(1)));
        } else {
            let w = (v - 0x10000) as u32;
            lemma_pair_char(c);
            assert(u[0] == head[0] && u[1] == head[1]);
            assert(starts_pair(u));
            assert(u.skip(2) =~= utf16_encode(s.skip(1)));
        }
        assert(seq![c] + s.skip(1) =~= s);
    }
}

} // verus!
