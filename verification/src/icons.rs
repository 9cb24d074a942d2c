//! Stored icons: how an icon string is written, read back and sized.
//!
//! An icon field holds one of two forms. The current one is a
//! `http://asset.localhost/<percent-encoded path>` url that names a PNG file by its content
//! fingerprint; the legacy one is a `data:image/png;base64,…` url with the bytes inlined.
//! Both must keep reading: a storage change must never cost an icon. The file system is
//! the caller's; this module decides what the strings and the bytes mean.

use vstd::prelude::*;
use vstd::utf8::*;
use crate::text::{
    all_ascii, ascii_chars, chars_of, from_utf8, has_prefix, lemma_ascii_round_trip, push_char,
    push_str, starts_with, string_of_range, chars_eq, contains, contains_str, find_char,
    first_index_of, string_of, to_string,
};
use crate::paths::{join, join_spec};

verus! {

broadcast use vstd::seq_lib::group_seq_properties;

// ====================================================================================
// Base64
// ====================================================================================

/// The ASCII code of base64 digit `v` (`0 <= v < 64`).
pub open spec fn b64_digit(v: u8) -> u8 {
    if v < 26 {
        (65 + v) as u8
    } else if v < 52 {
        (97 + (v - 26)) as u8
    } else if v < 62 {
        (48 + (v - 52)) as u8
    } else if v == 62 {
        43u8
    } else {
        47u8
    }
}

/// The value of the base64 digit whose ASCII code is `c`, if it is one.
pub open spec fn b64_value(c: u8) -> Option<u8> {
    if 65 <= c <= 90 {
        Some((c - 65) as u8)
    } else if 97 <= c <= 122 {
        Some((c - 97 + 26) as u8)
    } else if 48 <= c <= 57 {
        Some((c - 48 + 52) as u8)
    } else if c == 43 {
        Some(62u8)
    } else if c == 47 {
        Some(63u8)
    } else {
        None
    }
}

pub open spec fn digit_char(v: u8) -> char {
    b64_digit(v) as char
}

/// The four characters one group of `n` (1, 2 or 3) input bytes encodes to, padded
/// with `=`.
pub open spec fn encode_group(b0: u8, b1: u8, b2: u8, n: int) -> Seq<char> {
    seq![
        digit_char(b0 >> 2),
        digit_char(((b0 & 3) << 4) | (b1 >> 4)),
        if n > 1 { digit_char(((b1 & 15) << 2) | (b2 >> 6)) } else { '=' },
        if n > 2 { digit_char(b2 & 63) } else { '=' },
    ]
}

/// Standard padded base64 of `d`.
pub open spec fn base64_spec(d: Seq<u8>) -> Seq<char>
    decreases d.len(),
{
    if d.len() == 0 {
        seq![]
    } else if d.len() == 1 {
        encode_group(d[0], 0, 0, 1)
    } else if d.len() == 2 {
        encode_group(d[0], d[1], 0, 2)
    } else {
        encode_group(d[0], d[1], d[2], 3) + base64_spec(d.subrange(3, d.len() as int))
    }
}

/// `u8::is_ascii_whitespace`.
pub open spec fn is_ascii_ws(b: u8) -> bool {
    b == 32 || b == 9 || b == 10 || b == 12 || b == 13
}

pub open spec fn strip_ascii_ws(b: Seq<u8>) -> Seq<u8> {
    b.filter(|c: u8| !is_ascii_ws(c))
}

/// How many `=` a group holds.
pub open spec fn pad_count(g: Seq<u8>) -> int {
    g.filter(|c: u8| c == 61).len() as int
}

/// The value a group position stands for: 0 for padding, else its digit value.
pub open spec fn group_value(g: Seq<u8>, i: int) -> Option<u8> {
    if g[i] == 61 {
        Some(0u8)
    } else {
        b64_value(g[i])
    }
}

pub open spec fn group_valid(g: Seq<u8>) -> bool {
    forall|i: int| 0 <= i < g.len() ==> (#[trigger] group_value(g, i)) is Some
}

pub open spec fn gv(g: Seq<u8>, i: int) -> u8 {
    if 0 <= i < g.len() { group_value(g, i)->0 } else { 0 }
}

/// The bytes one group of 2 to 4 characters decodes to.
pub open spec fn decode_group(g: Seq<u8>) -> Option<Seq<u8>> {
    if !group_valid(g) {
        None
    } else {
        let v0 = gv(g, 0);
        let v1 = gv(g, 1);
        let v2 = gv(g, 2);
        let v3 = gv(g, 3);
        let pad = pad_count(g);
        let first = seq![((v0 << 2) | (v1 >> 4)) as u8];
        let second = if g.len() > 2 && pad < 2 { seq![((v1 << 4) | (v2 >> 2)) as u8] } else { seq![] };
        let third = if g.len() > 3 && pad < 1 { seq![((v2 << 6) | v3) as u8] } else { seq![] };
        Some(first + second + third)
    }
}

/// Group after group of four; a trailing group shorter than two is dropped, and any
/// group that holds a character that is not base64 refuses the whole text.
#[verifier::opaque]
pub open spec fn decode_groups(b: Seq<u8>) -> Option<Seq<u8>>
    decreases b.len(),
{
    if b.len() < 2 {
        Some(seq![])
    } else {
        let n = if b.len() < 4 { b.len() as int } else { 4 };
        match decode_group(b.take(n)) {
            None => None,
            Some(head) => match decode_groups(b.skip(n)) {
                None => None,
                Some(rest) => Some(head + rest),
            },
        }
    }
}

/// What `base64_decode` makes of a text: its UTF-8 bytes, ASCII white space dropped,
/// decoded group by group.
pub open spec fn base64_decode_spec(text: Seq<char>) -> Option<Seq<u8>> {
    decode_groups(strip_ascii_ws(encode_utf8(text)))
}

fn digit(v: u8) -> (c: char)
    requires
        v < 64,
    ensures
        c == digit_char(v),
{
    let code: u8 = if v < 26 {
        65 + v
    } else if v < 52 {
        97 + (v - 26)
    } else if v < 62 {
        48 + (v - 52)
    } else if v == 62 {
        43
    } else {
        47
    };
    code as char
}

fn push_group(out: &mut String, b0: u8, b1: u8, b2: u8, n: usize)
    requires
        1 <= n <= 3,
    ensures
        final(out)@ == old(out)@ + encode_group(b0, b1, b2, n as int),
{
    assert((b0 >> 2) < 64u8) by (bit_vector);
    assert((((b0 & 3) << 4) | (b1 >> 4)) < 64u8) by (bit_vector);
    assert((((b1 & 15) << 2) | (b2 >> 6)) < 64u8) by (bit_vector);
    assert((b2 & 63) < 64u8) by (bit_vector);
    push_char(out, digit(b0 >> 2));
    push_char(out, digit(((b0 & 3) << 4) | (b1 >> 4)));
    if n > 1 {
        push_char(out, digit(((b1 & 15) << 2) | (b2 >> 6)));
    } else {
        push_char(out, '=');
    }
    if n > 2 {
        push_char(out, digit(b2 & 63));
    } else {
        push_char(out, '=');
    }
    assert(final(out)@ =~= old(out)@ + encode_group(b0, b1, b2, n as int));
}

/// Standard padded base64 of `data`.
pub fn base64_encode(data: &[u8]) -> (r: String)
    ensures
        r@ == base64_spec(data@),
{
    let mut out = String::new();
    let mut i: usize = 0;
    while i < data.len()
        invariant
            i <= data.len(),
            base64_spec(data@) == out@ + base64_spec(data@.subrange(i as int, data.len() as int)),
        decreases data.len() - i,
    {
        let ghost rest = data@.subrange(i as int, data.len() as int);
        let left = data.len() - i;
        if left >= 3 {
            push_group(&mut out, data[i], data[i + 1], data[i + 2], 3);
            assert(rest.subrange(3, rest.len() as int) =~= data@.subrange(i + 3, data.len() as int));
            i += 3;
        } else if left == 2 {
            push_group(&mut out, data[i], data[i + 1], 0, 2);
            i += 2;
            assert(data@.subrange(i as int, data.len() as int) =~= Seq::<u8>::empty());
        } else {
            push_group(&mut out, data[i], 0, 0, 1);
            i += 1;
            assert(data@.subrange(i as int, data.len() as int) =~= Seq::<u8>::empty());
        }
    }
    assert(data@.subrange(i as int, data.len() as int) =~= Seq::<u8>::empty());
    out
}

fn value_of(c: u8) -> (r: Option<u8>)
    ensures
        r == b64_value(c),
{
    if 65 <= c && c <= 90 {
        Some(c - 65)
    } else if 97 <= c && c <= 122 {
        Some(c - 97 + 26)
    } else if 48 <= c && c <= 57 {
        Some(c - 48 + 52)
    } else if c == 43 {
        Some(62)
    } else if c == 47 {
        Some(63)
    } else {
        None
    }
}

fn is_ws_byte(b: u8) -> (r: bool)
    ensures
        r == is_ascii_ws(b),
{
    b == 32 || b == 9 || b == 10 || b == 12 || b == 13
}

/// The bytes of `text` with ASCII white space removed.
fn stripped_bytes(text: &str) -> (r: Vec<u8>)
    ensures
        r@ == strip_ascii_ws(encode_utf8(text@)),
{
    let bytes = text.as_bytes();
    let mut r: Vec<u8> = Vec::new();
    let mut i: usize = 0;
    while i < bytes.len()
        invariant
            i <= bytes.len(),
            bytes@ == encode_utf8(text@),
            r@ == strip_ascii_ws(bytes@.take(i as int)),
        decreases bytes.len() - i,
    {
        let ghost before = bytes@.take(i as int);
        let b = bytes[i];
        if !is_ws_byte(b) {
            r.push(b);
        }
        i += 1;
        assert(bytes@.take(i as int) =~= before.push(b));
        reveal_with_fuel(Seq::filter, 1);
        assert(before.push(b).drop_last() =~= before);
    }
    assert(bytes@.take(bytes.len() as int) =~= bytes@);
    r
}

proof fn lemma_pad_count_small(g: Seq<u8>)
    ensures
        0 <= pad_count(g) <= g.len(),
{
    g.lemma_filter_len(|c: u8| c == 61);
}

/// Decode one group `g = b[start..start+n]`, appending its bytes.
fn decode_one_group(b: &Vec<u8>, start: usize, n: usize, out: &mut Vec<u8>) -> (ok: bool)
    requires
        2 <= n <= 4,
        start + n <= b.len(),
    ensures
        ok == (decode_group(b@.subrange(start as int, start + n)) is Some),
        ok ==> final(out)@ == old(out)@ + decode_group(b@.subrange(start as int, start + n))->0,
{
    let ghost g = b@.subrange(start as int, start + n);
    let mut vals: [u8; 4] = [0u8; 4];
    let mut pad: usize = 0;
    let mut i: usize = 0;
    while i < n
        invariant
            i <= n,
            2 <= n <= 4,
            start + n <= b.len(),
            g == b@.subrange(start as int, start + n),
            pad as int == pad_count(g.take(i as int)),
            forall|j: int| 0 <= j < i ==> (#[trigger] group_value(g, j)) is Some && vals[j] == group_value(g, j)->0,
            forall|j: int| i <= j < 4 ==> vals[j] == 0,
        decreases n - i,
    {
        let c = b[start + i];
        let ghost before = g.take(i as int);
        assert(g.take(i + 1) =~= before.push(c));
        reveal_with_fuel(Seq::filter, 1);
        assert(before.push(c).drop_last() =~= before);
        if c == 61 {
            pad += 1;
            vals[i] = 0;
        } else {
            match value_of(c) {
                Some(v) => {
                    vals[i] = v;
                },
                None => {
                    assert(group_value(g, i as int) is None);
                    assert(!group_valid(g));
                    return false;
                },
            }
        }
        proof {
            lemma_pad_count_small(before);
        }
        i += 1;
    }
    assert(g.take(n as int) =~= g);
    assert(group_valid(g));
    let v0 = vals[0];
    let v1 = vals[1];
    let v2 = vals[2];
    let v3 = vals[3];
    assert(v0 == gv(g, 0) && v1 == gv(g, 1) && v2 == gv(g, 2) && v3 == gv(g, 3));
    let ghost old_out = out@;
    out.push((v0 << 2) | (v1 >> 4));
    if n > 2 && pad < 2 {
        out.push((v1 << 4) | (v2 >> 2));
    }
    if n > 3 && pad < 1 {
        out.push((v2 << 6) | v3);
    }
    let ghost d = decode_group(g)->0;
    assert(out@ =~= old_out + d);
    true
}

proof fn lemma_groups_step(b: Seq<u8>, i: int, n: int)
    requires
        0 <= i,
        i + 2 <= b.len(),
        n == (if b.len() - i < 4 { b.len() - i } else { 4 }),
    ensures
        decode_groups(b.skip(i)) == (match decode_group(b.subrange(i, i + n)) {
            None => None,
            Some(head) => match decode_groups(b.skip(i + n)) {
                None => None,
                Some(rest) => Some(head + rest),
            },
        }),
{
    reveal(decode_groups);
    let rest = b.skip(i);
    assert(rest.take(n) =~= b.subrange(i, i + n));
    assert(rest.skip(n) =~= b.skip(i + n));
}

/// Decode base64, tolerating white space; `None` when a group holds a character that is
/// not a base64 digit or `=`.
pub fn base64_decode(text: &str) -> (r: Option<Vec<u8>>)
    ensures
        r is Some <==> base64_decode_spec(text@) is Some,
        r matches Some(v) ==> base64_decode_spec(text@) == Some(v@),
{
    let b = stripped_bytes(text);
    let mut out: Vec<u8> = Vec::new();
    let mut i: usize = 0;
    assert(b@.skip(0) =~= b@);
    assert(out@ + decode_groups(b@)->0 =~= decode_groups(b@)->0);
    while b.len() - i >= 2
        invariant
            i <= b.len(),
            b@ == strip_ascii_ws(encode_utf8(text@)),
            decode_groups(b@) is Some <==> decode_groups(b@.skip(i as int)) is Some,
            decode_groups(b@) is Some ==> decode_groups(b@) == Some(out@ + decode_groups(b@.skip(i as int))->0),
        decreases b.len() - i,
    {
        let left = b.len() - i;
        let n: usize = if left < 4 { left } else { 4 };
        proof {
            lemma_groups_step(b@, i as int, n as int);
        }
        let ghost before = out@;
        let ok = decode_one_group(&b, i, n, &mut out);
        if !ok {
            assert(decode_groups(b@.skip(i as int)) is None);
            assert(decode_groups(b@) is None);
            assert(base64_decode_spec(text@) is None);
            return None;
        }
        proof {
            let head = decode_group(b@.subrange(i as int, i + n))->0;
            if decode_groups(b@.skip(i + n)) is Some {
                assert(before + (head + decode_groups(b@.skip(i + n))->0) =~= out@ + decode_groups(b@.skip(i + n))->0);
            }
        }
        i += n;
    }
    assert(decode_groups(b@.skip(i as int)) == Some(Seq::<u8>::empty())) by {
        reveal(decode_groups);
    }
    assert(out@ + Seq::<u8>::empty() =~= out@);
    Some(out)
}

// ------------------------------------------------------------------------------------
// The round trip.
// ------------------------------------------------------------------------------------

pub open spec fn group_bytes(b0: u8, b1: u8, b2: u8, n: int) -> Seq<u8> {
    seq![
        b64_digit(b0 >> 2),
        b64_digit(((b0 & 3) << 4) | (b1 >> 4)),
        if n > 1 { b64_digit(((b1 & 15) << 2) | (b2 >> 6)) } else { 61u8 },
        if n > 2 { b64_digit(b2 & 63) } else { 61u8 },
    ]
}

/// The ASCII bytes of `base64_spec(d)`.
pub open spec fn base64_bytes(d: Seq<u8>) -> Seq<u8>
    decreases d.len(),
{
    if d.len() == 0 {
        seq![]
    } else if d.len() == 1 {
        group_bytes(d[0], 0, 0, 1)
    } else if d.len() == 2 {
        group_bytes(d[0], d[1], 0, 2)
    } else {
        group_bytes(d[0], d[1], d[2], 3) + base64_bytes(d.subrange(3, d.len() as int))
    }
}

proof fn lemma_digit_facts(v: u8)
    requires
        v < 64,
    ensures
        b64_value(b64_digit(v)) == Some(v),
        b64_digit(v) < 128,
        b64_digit(v) != 61,
        !is_ascii_ws(b64_digit(v)),
        (digit_char(v) as u8) == b64_digit(v),
        '\0' <= digit_char(v) <= '\u{7f}',
{
}

proof fn lemma_group_chars(b0: u8, b1: u8, b2: u8, n: int)
    requires
        1 <= n <= 3,
    ensures
        is_ascii_chars(encode_group(b0, b1, b2, n)),
        forall|i: int| 0 <= i < 4 ==> (#[trigger] encode_group(b0, b1, b2, n)[i]) as u8 == group_bytes(b0, b1, b2, n)[i],
        forall|i: int| 0 <= i < 4 ==> !is_ascii_ws(#[trigger] group_bytes(b0, b1, b2, n)[i]),
{
    assert((b0 >> 2) < 64u8) by (bit_vector);
    assert((((b0 & 3) << 4) | (b1 >> 4)) < 64u8) by (bit_vector);
    assert((((b1 & 15) << 2) | (b2 >> 6)) < 64u8) by (bit_vector);
    assert((b2 & 63) < 64u8) by (bit_vector);
    lemma_digit_facts(b0 >> 2);
    lemma_digit_facts(((b0 & 3) << 4) | (b1 >> 4));
    lemma_digit_facts(((b1 & 15) << 2) | (b2 >> 6));
    lemma_digit_facts(b2 & 63);
}

proof fn lemma_chars_are_bytes(d: Seq<u8>)
    ensures
        base64_spec(d).len() == base64_bytes(d).len(),
        is_ascii_chars(base64_spec(d)),
        forall|i: int| 0 <= i < base64_bytes(d).len() ==> (#[trigger] base64_spec(d)[i]) as u8 == base64_bytes(d)[i],
        forall|i: int| 0 <= i < base64_bytes(d).len() ==> !is_ascii_ws(#[trigger] base64_bytes(d)[i]),
    decreases d.len(),
{
    if d.len() == 0 {
    } else if d.len() == 1 {
        lemma_group_chars(d[0], 0, 0, 1);
    } else if d.len() == 2 {
        lemma_group_chars(d[0], d[1], 0, 2);
    } else {
        let rest = d.subrange(3, d.len() as int);
        lemma_group_chars(d[0], d[1], d[2], 3);
        lemma_chars_are_bytes(rest);
        let g = encode_group(d[0], d[1], d[2], 3);
        let gb = group_bytes(d[0], d[1], d[2], 3);
        assert forall|i: int| 0 <= i < base64_bytes(d).len() implies (#[trigger] base64_spec(d)[i]) as u8 == base64_bytes(d)[i]
            && !is_ascii_ws(base64_bytes(d)[i]) by {
            if i < 4 {
                assert(base64_spec(d)[i] == g[i]);
                assert(base64_bytes(d)[i] == gb[i]);
            } else {
                assert(base64_spec(d)[i] == base64_spec(rest)[i - 4]);
                assert(base64_bytes(d)[i] == base64_bytes(rest)[i - 4]);
            }
        }
        assert forall|i: int| 0 <= i < base64_spec(d).len() implies '\0' <= #[trigger] base64_spec(d)[i] <= '\u{7f}' by {
            if i < 4 {
                assert(base64_spec(d)[i] == g[i]);
            } else {
                assert(base64_spec(d)[i] == base64_spec(rest)[i - 4]);
            }
        }
    }
}

proof fn lemma_filter_keeps_all(s: Seq<u8>)
    requires
        forall|i: int| 0 <= i < s.len() ==> !is_ascii_ws(#[trigger] s[i]),
    ensures
        strip_ascii_ws(s) == s,
    decreases s.len(),
{
    reveal(Seq::filter);
    if s.len() > 0 {
        lemma_filter_keeps_all(s.drop_last());
        assert(s.drop_last().push(s.last()) =~= s);
    }
}

proof fn lemma_group_decodes(b0: u8, b1: u8, b2: u8, n: int)
    requires
        1 <= n <= 3,
    ensures
        decode_group(group_bytes(b0, b1, b2, n)) == Some(
            if n == 1 { seq![b0] } else if n == 2 { seq![b0, b1] } else { seq![b0, b1, b2] },
        ),
{
    let g = group_bytes(b0, b1, b2, n);
    let s0 = b0 >> 2;
    let s1 = ((b0 & 3) << 4) | (b1 >> 4);
    let s2 = ((b1 & 15) << 2) | (b2 >> 6);
    let s3 = b2 & 63;
    assert(b0 >> 2 < 64u8) by (bit_vector);
    assert((((b0 & 3) << 4) | (b1 >> 4)) < 64u8) by (bit_vector);
    assert((((b1 & 15) << 2) | (b2 >> 6)) < 64u8) by (bit_vector);
    assert(b2 & 63 < 64u8) by (bit_vector);
    lemma_group_chars(b0, b1, b2, n);
    lemma_digit_facts(s0);
    lemma_digit_facts(s1);
    lemma_digit_facts(s2);
    lemma_digit_facts(s3);
    assert(((s0 << 2) | (s1 >> 4)) as u8 == b0) by (bit_vector)
        requires
            s0 == b0 >> 2,
            s1 == ((b0 & 3) << 4) | (b1 >> 4),
    ;
    assert(((s1 << 4) | (s2 >> 2)) as u8 == b1) by (bit_vector)
        requires
            s1 == ((b0 & 3) << 4) | (b1 >> 4),
            s2 == ((b1 & 15) << 2) | (b2 >> 6),
    ;
    assert(((s2 << 6) | s3) as u8 == b2) by (bit_vector)
        requires
            s2 == ((b1 & 15) << 2) | (b2 >> 6),
            s3 == b2 & 63,
    ;
    let t1 = ((b1 & 15) << 2) | (0u8 >> 6);
    assert(((s1 << 4) | (t1 >> 2)) as u8 == b1) by (bit_vector)
        requires
            s1 == ((b0 & 3) << 4) | (b1 >> 4),
            t1 == ((b1 & 15) << 2) | (0u8 >> 6),
    ;
    let u1 = ((b0 & 3) << 4) | (0u8 >> 4);
    assert(((s0 << 2) | (u1 >> 4)) as u8 == b0) by (bit_vector)
        requires
            s0 == b0 >> 2,
            u1 == ((b0 & 3) << 4) | (0u8 >> 4),
    ;
    assert(group_valid(g)) by {
        assert forall|i: int| 0 <= i < g.len() implies (#[trigger] group_value(g, i)) is Some by {
        }
    }
    reveal_with_fuel(Seq::filter, 5);
    if n == 3 {
        assert(pad_count(g) == 0);
    } else if n == 2 {
        assert(pad_count(g) == 1);
    } else {
        assert(pad_count(g) == 2);
    }
    let d = decode_group(g)->0;
    if n == 1 {
        assert(d =~= seq![b0]);
    } else if n == 2 {
        assert(d =~= seq![b0, b1]);
    } else {
        assert(d =~= seq![b0, b1, b2]);
    }
}

proof fn lemma_groups_decode(d: Seq<u8>)
    ensures
        decode_groups(base64_bytes(d)) == Some(d),
    decreases d.len(),
{
    reveal(decode_groups);
    let b = base64_bytes(d);
    if d.len() == 0 {
    } else if d.len() <= 2 {
        lemma_group_decodes(d[0], if d.len() > 1 { d[1] } else { 0 }, 0, d.len() as int);
        assert(b.take(4) =~= b);
        assert(b.skip(4) =~= Seq::<u8>::empty());
        assert(decode_groups(b.skip(4)) == Some(Seq::<u8>::empty()));
        if d.len() == 1 {
            assert(d =~= seq![d[0]]);
        } else {
            assert(d =~= seq![d[0], d[1]]);
        }
        assert(d + Seq::<u8>::empty() =~= d);
    } else {
        let rest = d.subrange(3, d.len() as int);
        lemma_group_decodes(d[0], d[1], d[2], 3);
        lemma_groups_decode(rest);
        assert(b.take(4) =~= group_bytes(d[0], d[1], d[2], 3));
        assert(b.skip(4) =~= base64_bytes(rest));
        assert(seq![d[0], d[1], d[2]] + rest =~= d);
    }
}

/// Base64 round trip: whatever `base64_encode` writes, `base64_decode` reads back as the
/// same bytes.
pub proof fn base64_round_trip(d: Seq<u8>)
    ensures
        base64_decode_spec(base64_spec(d)) == Some(d),
{
    lemma_chars_are_bytes(d);
    let t = base64_spec(d);
    is_ascii_chars_encode_utf8(t);
    assert(encode_utf8(t) =~= base64_bytes(d));
    lemma_filter_keeps_all(base64_bytes(d));
    lemma_groups_decode(d);
}

// ====================================================================================
// Asset urls
// ====================================================================================

/// The scheme and host every stored icon url begins with.
pub open spec fn asset_prefix() -> Seq<char> {
    "http://asset.localhost/"@
}

/// The same host over https, which the frontend may also hand back.
pub open spec fn asset_prefix_tls() -> Seq<char> {
    "https://asset.localhost/"@
}

/// Bytes a url may carry as they are: `A-Z a-z 0-9 - _ . ~`.
pub open spec fn is_unreserved(b: u8) -> bool {
    (65 <= b <= 90) || (97 <= b <= 122) || (48 <= b <= 57) || b == 45 || b == 95 || b == 46 || b == 126
}

/// The ASCII code of upper-case hex digit `v` (`v < 16`).
pub open spec fn hex_upper(v: u8) -> u8 {
    if v < 10 { (48 + v) as u8 } else { (55 + v) as u8 }
}

/// One byte as it appears in a url.
pub open spec fn pct_byte(b: u8) -> Seq<u8> {
    if is_unreserved(b) {
        seq![b]
    } else {
        seq![37u8, hex_upper(b >> 4), hex_upper(b & 15)]
    }
}

/// Percent-encoding of a byte string, as ASCII bytes.
pub open spec fn pct_encode(b: Seq<u8>) -> Seq<u8>
    decreases b.len(),
{
    if b.len() == 0 {
        seq![]
    } else {
        pct_byte(b[0]) + pct_encode(b.skip(1))
    }
}

/// What `asset_url` makes of a path: the prefix, then the path's UTF-8 bytes
/// percent-encoded.
pub open spec fn asset_url_spec(path: Seq<char>) -> Seq<char> {
    asset_prefix() + ascii_chars(pct_encode(encode_utf8(path)))
}

fn hex_digit_upper(v: u8) -> (c: char)
    requires
        v < 16,
    ensures
        c == (hex_upper(v) as char),
{
    let code: u8 = if v < 10 { 48 + v } else { 55 + v };
    code as char
}

/// `http://asset.localhost/<percent-encoded path>`: the url the webview's asset handler
/// serves the file at.
pub fn asset_url(path: &str) -> (r: String)
    ensures
        r@ == asset_url_spec(path@),
{
    let bytes = path.as_bytes();
    let mut out = String::new();
    push_str(&mut out, "http://asset.localhost/");
    let mut i: usize = 0;
    assert(bytes@.skip(0) =~= bytes@);
    assert(Seq::<u8>::empty() + pct_encode(bytes@) =~= pct_encode(bytes@));
    while i < bytes.len()
        invariant
            i <= bytes.len(),
            bytes@ == encode_utf8(path@),
            exists|done: Seq<u8>|
                #![trigger done.len()]
                out@ == asset_prefix() + ascii_chars(done) && pct_encode(bytes@) == done + pct_encode(bytes@.skip(i as int)),
        decreases bytes.len() - i,
    {
        let ghost done = choose|done: Seq<u8>|
            #![trigger done.len()]
            out@ == asset_prefix() + ascii_chars(done) && pct_encode(bytes@) == done + pct_encode(bytes@.skip(i as int));
        let b = bytes[i];
        let ghost rest = bytes@.skip(i as int);
        assert(rest.skip(1) =~= bytes@.skip(i + 1));
        assert(pct_encode(rest) == pct_byte(b) + pct_encode(bytes@.skip(i + 1)));
        let ghost done2 = done + pct_byte(b);
        if (65 <= b && b <= 90) || (97 <= b && b <= 122) || (48 <= b && b <= 57) || b == 45
            || b == 95 || b == 46 || b == 126 {
            push_char(&mut out, b as char);
        } else {
            push_char(&mut out, '%');
            assert(b >> 4 < 16u8) by (bit_vector);
            assert(b & 15 < 16u8) by (bit_vector);
            push_char(&mut out, hex_digit_upper(b >> 4));
            push_char(&mut out, hex_digit_upper(b & 15));
        }
        assert(out@ =~= asset_prefix() + ascii_chars(done2));
        assert(pct_encode(bytes@) =~= done2 + pct_encode(bytes@.skip(i + 1)));
        i += 1;
        assert(done2.len() == done2.len());
    }
    assert(bytes@.skip(i as int) =~= Seq::<u8>::empty());
    proof {
        let done = choose|done: Seq<u8>|
            #![trigger done.len()]
            out@ == asset_prefix() + ascii_chars(done) && pct_encode(bytes@) == done + pct_encode(bytes@.skip(i as int));
        assert(done =~= pct_encode(bytes@));
    }
    out
}

/// ASCII hex digit value of `c`, either case.
pub open spec fn hex_value(c: u8) -> Option<u8> {
    if 48 <= c <= 57 {
        Some((c - 48) as u8)
    } else if 65 <= c <= 70 {
        Some((c - 55) as u8)
    } else if 97 <= c <= 102 {
        Some((c - 87) as u8)
    } else {
        None
    }
}

/// What `u8::from_str_radix(_, 16)` makes of the two characters after a `%`: two hex
/// digits, or a `+` sign and one.
pub open spec fn hex_pair(h1: u8, h2: u8) -> Option<u8> {
    match (hex_value(h1), hex_value(h2)) {
        (Some(a), Some(b)) => Some((a * 16 + b) as u8),
        _ => if h1 == 43 && hex_value(h2) is Some { hex_value(h2) } else { None },
    }
}

/// Percent-decoding: `%` and two characters become one byte, everything else is kept.
#[verifier::opaque]
pub open spec fn pct_decode(b: Seq<u8>) -> Option<Seq<u8>>
    decreases b.len(),
{
    if b.len() == 0 {
        Some(seq![])
    } else if b[0] == 37 {
        if b.len() < 3 {
            None
        } else {
            match hex_pair(b[1], b[2]) {
                None => None,
                Some(v) => match pct_decode(b.skip(3)) {
                    None => None,
                    Some(r) => Some(seq![v] + r),
                },
            }
        }
    } else {
        match pct_decode(b.skip(1)) {
            None => None,
            Some(r) => Some(seq![b[0]] + r),
        }
    }
}

/// The url without its asset prefix, if it has one.
pub open spec fn asset_rest(icon: Seq<char>) -> Option<Seq<char>> {
    if has_prefix(icon, asset_prefix()) {
        Some(icon.skip(asset_prefix().len() as int))
    } else if has_prefix(icon, asset_prefix_tls()) {
        Some(icon.skip(asset_prefix_tls().len() as int))
    } else {
        None
    }
}

/// The path an asset url names: the rest of the url percent-decoded, if that is UTF-8.
pub open spec fn path_from_url_spec(icon: Seq<char>) -> Option<Seq<char>> {
    match asset_rest(icon) {
        None => None,
        Some(rest) => match pct_decode(encode_utf8(rest)) {
            None => None,
            Some(bytes) => if valid_utf8(bytes) { Some(decode_utf8(bytes)) } else { None },
        },
    }
}

fn hex_val(c: u8) -> (r: Option<u8>)
    ensures
        r == hex_value(c),
{
    if 48 <= c && c <= 57 {
        Some(c - 48)
    } else if 65 <= c && c <= 70 {
        Some(c - 55)
    } else if 97 <= c && c <= 102 {
        Some(c - 87)
    } else {
        None
    }
}

fn hex_pair_value(h1: u8, h2: u8) -> (r: Option<u8>)
    ensures
        r == hex_pair(h1, h2),
{
    match (hex_val(h1), hex_val(h2)) {
        (Some(a), Some(b)) => Some(a * 16 + b),
        _ => if h1 == 43 { hex_val(h2) } else { None },
    }
}

proof fn lemma_pct_step(b: Seq<u8>, i: int)
    requires
        0 <= i < b.len(),
    ensures
        pct_decode(b.skip(i)) == (if b[i] == 37 {
            if b.len() - i < 3 {
                None
            } else {
                match hex_pair(b[i + 1], b[i + 2]) {
                    None => None,
                    Some(v) => match pct_decode(b.skip(i + 3)) {
                        None => None,
                        Some(r) => Some(seq![v] + r),
                    },
                }
            }
        } else {
            match pct_decode(b.skip(i + 1)) {
                None => None,
                Some(r) => Some(seq![b[i]] + r),
            }
        }),
{
    reveal(pct_decode);
    let rest = b.skip(i);
    assert(rest.skip(1) =~= b.skip(i + 1));
    if rest.len() >= 3 {
        assert(rest.skip(3) =~= b.skip(i + 3));
    }
}

/// Percent-decode `bytes`; `None` at a `%` not followed by a hex pair.
fn percent_decode_bytes(bytes: &[u8]) -> (r: Option<Vec<u8>>)
    ensures
        r is Some <==> pct_decode(bytes@) is Some,
        r matches Some(v) ==> pct_decode(bytes@) == Some(v@),
{
    let mut out: Vec<u8> = Vec::new();
    let mut i: usize = 0;
    assert(bytes@.skip(0) =~= bytes@);
    assert(out@ + pct_decode(bytes@)->0 =~= pct_decode(bytes@)->0);
    while i < bytes.len()
        invariant
            i <= bytes.len(),
            pct_decode(bytes@) is Some <==> pct_decode(bytes@.skip(i as int)) is Some,
            pct_decode(bytes@) is Some ==> pct_decode(bytes@) == Some(out@ + pct_decode(bytes@.skip(i as int))->0),
        decreases bytes.len() - i,
    {
        proof {
            lemma_pct_step(bytes@, i as int);
        }
        let ghost before = out@;
        if bytes[i] == 37 {
            if bytes.len() - i < 3 {
                return None;
            }
            match hex_pair_value(bytes[i + 1], bytes[i + 2]) {
                None => {
                    return None;
                },
                Some(v) => {
                    out.push(v);
                    proof {
                        if pct_decode(bytes@.skip(i + 3)) is Some {
                            assert(before + (seq![v] + pct_decode(bytes@.skip(i + 3))->0) =~= out@ + pct_decode(bytes@.skip(i + 3))->0);
                        }
                    }
                    i += 3;
                },
            }
        } else {
            let c = bytes[i];
            out.push(c);
            proof {
                if pct_decode(bytes@.skip(i + 1)) is Some {
                    assert(before + (seq![c] + pct_decode(bytes@.skip(i + 1))->0) =~= out@ + pct_decode(bytes@.skip(i + 1))->0);
                }
            }
            i += 1;
        }
    }
    assert(bytes@.skip(i as int) =~= Seq::<u8>::empty());
    assert(pct_decode(Seq::<u8>::empty()) == Some(Seq::<u8>::empty())) by {
        reveal(pct_decode);
    }
    assert(out@ + Seq::<u8>::empty() =~= out@);
    Some(out)
}

/// The file behind one of our asset urls.
pub fn path_from_url(icon: &str) -> (r: Option<String>)
    ensures
        r is Some <==> path_from_url_spec(icon@) is Some,
        r matches Some(p) ==> path_from_url_spec(icon@) == Some(p@),
{
    let chars = chars_of(icon);
    let plain = chars_of("http://asset.localhost/");
    let tls = chars_of("https://asset.localhost/");
    let start: usize;
    if starts_with(&chars, &plain) {
        start = plain.len();
    } else if starts_with(&chars, &tls) {
        start = tls.len();
    } else {
        return None;
    }
    let rest = string_of_range(&chars, start, chars.len());
    assert(rest@ =~= asset_rest(icon@)->0);
    match percent_decode_bytes(rest.as_str().as_bytes()) {
        None => None,
        Some(bytes) => from_utf8(bytes),
    }
}

// ------------------------------------------------------------------------------------
// The round trip.
// ------------------------------------------------------------------------------------

proof fn lemma_hex_upper(v: u8)
    requires
        v < 16,
    ensures
        hex_value(hex_upper(v)) == Some(v),
        hex_upper(v) < 128,
{
}

proof fn lemma_pct_byte(b: u8)
    ensures
        all_ascii(pct_byte(b)),
        pct_byte(b)[0] == 37 <==> !is_unreserved(b),
        !is_unreserved(b) ==> pct_byte(b).len() == 3 && hex_pair(pct_byte(b)[1], pct_byte(b)[2]) == Some(b),
        is_unreserved(b) ==> pct_byte(b).len() == 1 && pct_byte(b)[0] == b,
{
    if !is_unreserved(b) {
        let hi = b >> 4;
        let lo = b & 15;
        assert(hi < 16u8 && lo < 16u8) by (bit_vector)
            requires
                hi == b >> 4,
                lo == b & 15,
        ;
        assert((hi * 16 + lo) as u8 == b) by (bit_vector)
            requires
                hi == b >> 4,
                lo == b & 15,
        ;
        lemma_hex_upper(hi);
        lemma_hex_upper(lo);
    }
}

proof fn lemma_pct_round_trip(b: Seq<u8>)
    ensures
        pct_decode(pct_encode(b)) == Some(b),
        all_ascii(pct_encode(b)),
    decreases b.len(),
{
    reveal(pct_decode);
    if b.len() > 0 {
        let e = pct_encode(b);
        let head = pct_byte(b[0]);
        let tail = pct_encode(b.skip(1));
        lemma_pct_round_trip(b.skip(1));
        lemma_pct_byte(b[0]);
        assert(e == head + tail);
        assert(e.skip(head.len() as int) =~= tail);
        assert(seq![b[0]] + b.skip(1) =~= b);
        assert forall|i: int| 0 <= i < e.len() implies #[trigger] e[i] < 128 by {
            if i < head.len() {
                assert(e[i] == head[i]);
            } else {
                assert(e[i] == tail[i - head.len()]);
            }
        }
    } else {
        assert(pct_encode(b) =~= Seq::<u8>::empty());
    }
}

/// Asset url round trip: the path an asset url names is the path it was made from — the
/// url a stored icon is written as always leads back to its file.
pub proof fn asset_url_round_trip(path: Seq<char>)
    ensures
        path_from_url_spec(asset_url_spec(path)) == Some(path),
{
    let bytes = encode_utf8(path);
    let enc = pct_encode(bytes);
    lemma_pct_round_trip(bytes);
    lemma_ascii_round_trip(enc);
    let url = asset_url_spec(path);
    assert(url.take(asset_prefix().len() as int) =~= asset_prefix());
    assert(url.skip(asset_prefix().len() as int) =~= ascii_chars(enc));
    encode_utf8_valid_utf8(path);
    encode_utf8_decode_utf8(path);
}

// ====================================================================================
// Content fingerprints
// ====================================================================================

pub open spec fn fnv_offset() -> u64 {
    0xcbf2_9ce4_8422_2325
}

pub open spec fn fnv_prime() -> u64 {
    0x0000_0100_0000_01b3
}

/// FNV-1a over `b`, 64 bits.
pub open spec fn fnv1a(b: Seq<u8>) -> u64
    decreases b.len(),
{
    if b.len() == 0 {
        fnv_offset()
    } else {
        let h = fnv1a(b.drop_last()) ^ (b.last() as u64);
        vstd::wrapping::u64_specs::wrapping_mul(h, fnv_prime())
    }
}

/// The ASCII lower-case hex digit for `v < 16`.
pub open spec fn hex_lower_char(v: nat) -> char {
    if v < 10 { ((48 + v) as u8) as char } else { ((87 + v) as u8) as char }
}

/// `{:x}`: the hex digits of `n`, no padding.
pub open spec fn hex_digits(n: nat) -> Seq<char>
    decreases n,
{
    if n < 16 {
        seq![hex_lower_char(n)]
    } else {
        hex_digits(n / 16).push(hex_lower_char(n % 16))
    }
}

/// `{:016x}` of a `u64`: exactly sixteen hex digits, most significant first.
pub open spec fn hex16(h: u64) -> Seq<char> {
    Seq::new(16, |i: int| hex_lower_char(((h >> ((60 - 4 * i) as u64)) & 15) as nat))
}

/// The file name of stored bytes: their FNV-1a hash in sixteen hex digits, then their
/// length in hex, so a truncated file can never share the name of the whole one.
pub open spec fn fingerprint_spec(b: Seq<u8>) -> Seq<char> {
    hex16(fnv1a(b)) + hex_digits(b.len())
}

fn hex_char(v: u64) -> (c: char)
    requires
        v < 16,
    ensures
        c == hex_lower_char(v as nat),
{
    let code: u8 = if v < 10 { 48 + v as u8 } else { 87 + v as u8 };
    code as char
}

/// Append `{:x}` of `n`.
pub fn push_hex(out: &mut String, n: u64)
    ensures
        final(out)@ == old(out)@ + hex_digits(n as nat),
    decreases n,
{
    if n >= 16 {
        push_hex(out, n / 16);
    }
    push_char(out, hex_char(n % 16));
    assert(final(out)@ =~= old(out)@ + hex_digits(n as nat));
}

/// FNV-1a content fingerprint, with the length appended.
pub fn fingerprint(bytes: &[u8]) -> (r: String)
    ensures
        r@ == fingerprint_spec(bytes@),
{
    let mut hash: u64 = 0xcbf2_9ce4_8422_2325;
    let mut i: usize = 0;
    while i < bytes.len()
        invariant
            i <= bytes.len(),
            hash == fnv1a(bytes@.take(i as int)),
        decreases bytes.len() - i,
    {
        let ghost before = bytes@.take(i as int);
        hash = hash ^ (bytes[i] as u64);
        hash = hash.wrapping_mul(0x0000_0100_0000_01b3);
        i += 1;
        assert(bytes@.take(i as int).drop_last() =~= before);
    }
    assert(bytes@.take(bytes.len() as int) =~= bytes@);
    let mut out = String::new();
    let mut k: u64 = 0;
    while k < 16
        invariant
            k <= 16,
            out@ == hex16(hash).take(k as int),
        decreases 16 - k,
    {
        let shift: u64 = 60 - 4 * k;
        let digit = (hash >> shift) & 15;
        assert(((hash >> shift) & 15) < 16u64) by (bit_vector);
        push_char(&mut out, hex_char(digit));
        assert(out@ =~= hex16(hash).take(k + 1));
        k += 1;
    }
    assert(out@ =~= hex16(hash));
    push_hex(&mut out, bytes.len() as u64);
    out
}

/// The name a stored icon's file has: its fingerprint and `.png`.
pub fn stored_file_name(bytes: &[u8]) -> (r: String)
    ensures
        r@ == fingerprint_spec(bytes@) + ".png"@,
{
    let mut r = fingerprint(bytes);
    push_str(&mut r, ".png");
    r
}

/// Where a stored icon goes: its file in the icons folder, the scratch file it is written
/// to first (so an icon is never half written), and the url that names it.
pub struct StorePlan {
    pub path: String,
    pub tmp: String,
    pub url: String,
}

/// Where these bytes are stored in the icons folder `dir`. Identical bytes are one file.
pub fn store_plan(dir: &str, bytes: &[u8]) -> (r: StorePlan)
    ensures
        r.path@ == join_spec(dir@, fingerprint_spec(bytes@) + ".png"@),
        r.tmp@ == join_spec(dir@, fingerprint_spec(bytes@) + ".png"@ + ".tmp"@),
        r.url@ == asset_url_spec(r.path@),
{
    let name = stored_file_name(bytes);
    let path = join(dir, name.as_str());
    let mut tmp_name = name.clone();
    push_str(&mut tmp_name, ".tmp");
    let tmp = join(dir, tmp_name.as_str());
    let url = asset_url(path.as_str());
    StorePlan { path, tmp, url }
}

/// A base64 PNG body as the resolver hands it back: its bytes and where they are
/// stored; nothing when there is no icons folder or the body is not base64.
pub fn store_b64(dir: Option<&str>, b64: &str) -> (r: Option<(Vec<u8>, StorePlan)>)
    ensures
        (dir is None || base64_decode_spec(b64@) is None) ==> r is None,
        dir matches Some(d) ==> (base64_decode_spec(b64@) matches Some(bytes) ==> (r matches Some((v, plan))
            && v@ == bytes
            && plan.path@ == join_spec(d@, fingerprint_spec(bytes) + ".png"@)
            && plan.tmp@ == join_spec(d@, fingerprint_spec(bytes) + ".png"@ + ".tmp"@)
            && plan.url@ == asset_url_spec(plan.path@))),
{
    let d = match dir {
        Some(d) => d,
        None => return None,
    };
    let bytes = match base64_decode(b64) {
        Some(b) => b,
        None => return None,
    };
    let plan = store_plan(d, bytes.as_slice());
    Some((bytes, plan))
}

/// Where stored icons live: set early, from the app data dir.
pub struct IconDir {
    dir: Option<String>,
}

impl IconDir {
    /// Not set yet.
    pub fn new() -> (r: Self)
        ensures
            r.current() is None,
    {
        IconDir { dir: None }
    }

    pub closed spec fn current(&self) -> Option<Seq<char>> {
        match self.dir {
            Some(d) => Some(d@),
            None => None,
        }
    }

    /// Install the icons folder.
    pub fn set_dir(&mut self, dir: String)
        ensures
            final(self).current() == Some(dir@),
    {
        self.dir = Some(dir);
    }

    /// The icons folder, once it is set.
    pub fn dir(&self) -> (r: Option<String>)
        ensures
            r matches Some(d) ==> self.current() == Some(d@),
            r is None <==> self.current() is None,
    {
        match &self.dir {
            Some(d) => Some(d.clone()),
            None => None,
        }
    }
}

// ====================================================================================
// PNG headers
// ====================================================================================

pub open spec fn png_magic() -> Seq<u8> {
    seq![0x89u8, 0x50u8, 0x4Eu8, 0x47u8, 0x0Du8, 0x0Au8, 0x1Au8, 0x0Au8]
}

pub open spec fn be32(b: Seq<u8>, at: int) -> u32 {
    ((b[at] as u32) * 0x100_0000 + (b[at + 1] as u32) * 0x1_0000 + (b[at + 2] as u32) * 0x100
        + (b[at + 3] as u32)) as u32
}

/// Width and height from a PNG's first 24 bytes (signature, IHDR length and type, then
/// the two big-endian dimensions); nothing when the bytes are too few or not a PNG.
pub open spec fn png_size(head: Seq<u8>) -> Option<(u32, u32)> {
    if head.len() < 24 || head.take(8) != png_magic() {
        None
    } else {
        Some((be32(head, 16), be32(head, 20)))
    }
}

fn read_be32(b: &[u8], at: usize) -> (r: u32)
    requires
        at + 4 <= b.len(),
    ensures
        r == be32(b@, at as int),
{
    (b[at] as u32) * 0x100_0000 + (b[at + 1] as u32) * 0x1_0000 + (b[at + 2] as u32) * 0x100 + (b[at + 3] as u32)
}

fn has_png_magic(b: &[u8]) -> (r: bool)
    requires
        b.len() >= 8,
    ensures
        r == (b@.take(8) == png_magic()),
{
    let ok = b[0] == 0x89 && b[1] == 0x50 && b[2] == 0x4E && b[3] == 0x47 && b[4] == 0x0D
        && b[5] == 0x0A && b[6] == 0x1A && b[7] == 0x0A;
    if ok {
        assert(b@.take(8) =~= png_magic());
    } else {
        assert(b@.take(8) != png_magic()) by {
            if b@.take(8) == png_magic() {
                assert(b@.take(8)[0] == png_magic()[0]);
                assert(b@.take(8)[1] == png_magic()[1]);
                assert(b@.take(8)[2] == png_magic()[2]);
                assert(b@.take(8)[3] == png_magic()[3]);
                assert(b@.take(8)[4] == png_magic()[4]);
                assert(b@.take(8)[5] == png_magic()[5]);
                assert(b@.take(8)[6] == png_magic()[6]);
                assert(b@.take(8)[7] == png_magic()[7]);
            }
        }
    }
    ok
}

/// Pixel size out of the first bytes of a PNG.
pub fn png_size_of(head: &[u8]) -> (r: Option<(u32, u32)>)
    ensures
        r == png_size(head@),
{
    if head.len() < 24 || !has_png_magic(head) {
        return None;
    }
    Some((read_be32(head, 16), read_be32(head, 20)))
}

// ====================================================================================
// Icon strings
// ====================================================================================

/// True for a url this module writes.
pub open spec fn is_stored_url_spec(icon: Seq<char>) -> bool {
    has_prefix(icon, asset_prefix()) || has_prefix(icon, asset_prefix_tls())
}

/// True for a url this module wrote.
pub fn is_stored_url(icon: &str) -> (r: bool)
    ensures
        r == is_stored_url_spec(icon@),
{
    let chars = chars_of(icon);
    starts_with(&chars, &chars_of("http://asset.localhost/"))
        || starts_with(&chars, &chars_of("https://asset.localhost/"))
}

/// `take` of `decode_prefix`: enough base64 characters for `max_bytes` bytes, and at
/// least one group.
pub open spec fn prefix_chars(max_bytes: nat) -> nat {
    let t = ((max_bytes + 2) / 3) * 4;
    if t < 4 { 4 } else { t }
}

pub open spec fn decode_prefix_spec(text: Seq<char>, max_bytes: nat) -> Option<Seq<u8>> {
    let n = prefix_chars(max_bytes);
    let head = if n < text.len() { text.take(n as int) } else { text };
    match base64_decode_spec(head) {
        None => None,
        Some(b) => Some(if max_bytes < b.len() { b.take(max_bytes as int) } else { b }),
    }
}

/// Decode the first `max_bytes` of a base64 body: enough for a PNG header, without
/// decoding a whole icon to ask how big it is.
pub fn base64_decode_prefix(text: &str, max_bytes: usize) -> (r: Option<Vec<u8>>)
    requires
        (max_bytes + 2) / 3 * 4 <= usize::MAX,
    ensures
        r is Some <==> decode_prefix_spec(text@, max_bytes as nat) is Some,
        r matches Some(v) ==> decode_prefix_spec(text@, max_bytes as nat) == Some(v@),
{
    let groups: usize = max_bytes / 3 + if max_bytes % 3 == 0 { 0 } else { 1 };
    assert(groups == (max_bytes + 2) / 3);
    let t = groups * 4;
    let take: usize = if t < 4 { 4 } else { t };
    let chars = chars_of(text);
    let end = if take < chars.len() { take } else { chars.len() };
    let head = string_of_range(&chars, 0, end);
    assert(head@ =~= (if take < text@.len() { text@.take(take as int) } else { text@ }));
    match base64_decode(head.as_str()) {
        None => None,
        Some(mut bytes) => {
            bytes.truncate(max_bytes);
            Some(bytes)
        },
    }
}

/// A `data:` url split at its first comma: the part before it (which says whether the
/// body is base64) and the body.
pub open spec fn data_url_parts(icon: Seq<char>) -> Option<(Seq<char>, Seq<char>)> {
    if !has_prefix(icon, "data:"@) {
        None
    } else {
        let rest = icon.skip(5);
        match first_index_of(rest, ',') {
            None => None,
            Some(i) => Some((rest.take(i), rest.skip(i + 1))),
        }
    }
}

fn split_data_url(icon: &str) -> (r: Option<(String, String)>)
    ensures
        r matches Some((kind, body)) ==> data_url_parts(icon@) == Some((kind@, body@)),
        r is None <==> data_url_parts(icon@) is None,
{
    let chars = chars_of(icon);
    let data = chars_of("data:");
    proof {
        reveal_strlit("data:");
    }
    if !starts_with(&chars, &data) {
        return None;
    }
    let rest = string_of_range(&chars, 5, chars.len());
    let rest_chars = chars_of(rest.as_str());
    assert(rest_chars@ =~= icon@.skip(5));
    match find_char(&rest_chars, ',') {
        None => None,
        Some(i) => {
            let kind = string_of_range(&rest_chars, 0, i);
            let body = string_of_range(&rest_chars, i + 1, rest_chars.len());
            assert(kind@ =~= rest_chars@.take(i as int));
            assert(body@ =~= rest_chars@.skip(i + 1));
            Some((kind, body))
        },
    }
}

/// What `pixel_size` answers for an icon string, given what was read from disk for it
/// (`file`: the bytes of the file a stored url or a plain path names, if it could be
/// read).
pub open spec fn pixel_size_spec(icon: Seq<char>, file: Option<Seq<u8>>) -> Option<(u32, u32)> {
    if has_prefix(icon, "data:"@) {
        match data_url_parts(icon) {
            None => None,
            Some((kind, body)) => if !contains_str(kind, "base64"@) {
                None
            } else {
                match decode_prefix_spec(body, 24) {
                    None => None,
                    Some(head) => png_size(head),
                }
            },
        }
    } else {
        match file {
            None => None,
            Some(bytes) => png_size(if bytes.len() < 24 { bytes } else { bytes.take(24) }),
        }
    }
}

/// Pixel size, read out of the PNG header. For an inlined icon only its first bytes are
/// decoded; for a file the caller hands over what it read.
pub fn pixel_size(icon: &str, file: Option<&Vec<u8>>) -> (r: Option<(u32, u32)>)
    ensures
        r == pixel_size_spec(icon@, match file { Some(v) => Some(v@), None => None }),
{
    let chars = chars_of(icon);
    proof {
        reveal_strlit("data:");
    }
    if starts_with(&chars, &chars_of("data:")) {
        match split_data_url(icon) {
            None => None,
            Some((kind, body)) => {
                if !contains(&chars_of(kind.as_str()), &chars_of("base64")) {
                    return None;
                }
                match base64_decode_prefix(body.as_str(), 24) {
                    None => None,
                    Some(head) => png_size_of(&head),
                }
            },
        }
    } else {
        match file {
            None => None,
            Some(bytes) => {
                if bytes.len() < 24 {
                    png_size_of(bytes.as_slice())
                } else {
                    let mut head: Vec<u8> = Vec::new();
                    let mut i: usize = 0;
                    while i < 24
                        invariant
                            i <= 24 <= bytes.len(),
                            head@ == bytes@.take(i as int),
                        decreases 24 - i,
                    {
                        head.push(bytes[i]);
                        i += 1;
                        assert(head@ =~= bytes@.take(i as int));
                    }
                    png_size_of(&head)
                }
            },
        }
    }
}

/// Smaller than the shell's jumbo size on either side, or no readable size at all: the
/// background upgrade pass may try for a crisper one.
pub open spec fn is_low_res_spec(size: Option<(u32, u32)>) -> bool {
    match size {
        Some((w, h)) => w < 64 || h < 64,
        None => true,
    }
}

/// Smaller than the shell's jumbo size, so the upgrade pass may try for a crisper one.
pub fn is_low_res(icon: &str, file: Option<&Vec<u8>>) -> (r: bool)
    ensures
        r == is_low_res_spec(pixel_size_spec(icon@, match file { Some(v) => Some(v@), None => None })),
{
    match pixel_size(icon, file) {
        Some((w, h)) => w < 64 || h < 64,
        None => true,
    }
}

/// Nothing usable stored: empty, the literal `none`, a stored url whose file could not
/// be read, a data url with no readable PNG in it, or a form this build never writes.
pub open spec fn is_missing_spec(icon: Seq<char>, file: Option<Seq<u8>>) -> bool {
    if icon.len() == 0 || icon == "none"@ {
        true
    } else if is_stored_url_spec(icon) {
        file is None
    } else if has_prefix(icon, "data:"@) {
        pixel_size_spec(icon, file) is None
    } else {
        true
    }
}

/// Is there nothing usable stored for this icon? Only this forces a re-resolution.
pub fn is_missing(icon: &str, file: Option<&Vec<u8>>) -> (r: bool)
    ensures
        r == is_missing_spec(icon@, match file { Some(v) => Some(v@), None => None }),
{
    let chars = chars_of(icon);
    if chars.len() == 0 || chars_eq(&chars, &chars_of("none")) {
        return true;
    }
    if is_stored_url(icon) {
        return file.is_none();
    }
    proof {
        reveal_strlit("data:");
    }
    if starts_with(&chars, &chars_of("data:")) {
        return pixel_size(icon, file).is_none();
    }
    true
}

// ====================================================================================
// Storing, and the inline fallback
// ====================================================================================

/// The prefix of a legacy inlined PNG.
pub open spec fn png_data_prefix() -> Seq<char> {
    "data:image/png;base64,"@
}

/// Storing is an optimisation; a missing icon is a bug. The url the store handed back,
/// or else the bytes inlined as a data url.
pub fn store_or_inline(stored: Option<String>, bytes: &[u8]) -> (r: String)
    ensures
        r@ == (match stored {
            Some(url) => url@,
            None => png_data_prefix() + base64_spec(bytes@),
        }),
{
    match stored {
        Some(url) => url,
        None => {
            let mut r = to_string("data:image/png;base64,");
            push_str(&mut r, base64_encode(bytes).as_str());
            r
        },
    }
}

/// The same, for a base64 body that came out of the resolver.
pub fn store_b64_or_inline(stored: Option<String>, b64: &str) -> (r: String)
    ensures
        r@ == (match stored {
            Some(url) => url@,
            None => png_data_prefix() + b64@,
        }),
{
    match stored {
        Some(url) => url,
        None => {
            let mut r = to_string("data:image/png;base64,");
            push_str(&mut r, b64);
            r
        },
    }
}

/// The base64 body of a PNG data url; nothing for any other string.
pub open spec fn png_data_body(icon: Seq<char>) -> Option<Seq<char>> {
    if has_prefix(icon, png_data_prefix()) {
        Some(icon.skip(png_data_prefix().len() as int))
    } else {
        None
    }
}

/// The base64 body of a PNG data url, which is what gets stored when an icon moves into
/// a file.
pub fn png_data_body_of(icon: &str) -> (r: Option<String>)
    ensures
        r is Some <==> png_data_body(icon@) is Some,
        r matches Some(b) ==> png_data_body(icon@) == Some(b@),
{
    let chars = chars_of(icon);
    let prefix = chars_of("data:image/png;base64,");
    if starts_with(&chars, &prefix) {
        let body = string_of_range(&chars, prefix.len(), chars.len());
        assert(body@ =~= icon@.skip(prefix@.len() as int));
        Some(body)
    } else {
        None
    }
}

/// What `store_url` answers, given what the store did with the decoded body (`stored`:
/// the url it wrote, or nothing when it could not).
pub open spec fn store_url_spec(icon: Seq<char>, stored: Option<Seq<char>>) -> Seq<char> {
    match png_data_body(icon) {
        None => icon,
        Some(body) => {
            let url = match stored {
                Some(u) => u,
                None => png_data_prefix() + body,
            };
            if is_stored_url_spec(url) { url } else { icon }
        },
    }
}

/// A stored url for an icon string that may still be a PNG data url. Anything that is
/// not one is returned unchanged, and so is a data url that could not be stored: it must
/// never be dropped.
pub fn store_url(icon: &str, stored: Option<String>) -> (r: String)
    ensures
        r@ == store_url_spec(icon@, match stored { Some(u) => Some(u@), None => None }),
{
    match migrate_one(icon, stored) {
        Some(url) => url,
        None => to_string(icon),
    }
}

/// One icon string moved into a file: the stored url when it was a PNG data url the store
/// took (`stored`: the url the store wrote for its body, or nothing); nothing otherwise,
/// and then the string stays as it is.
pub fn migrate_one(icon: &str, stored: Option<String>) -> (r: Option<String>)
    ensures
        ({
            let st = match stored { Some(u) => Some(u@), None => None };
            match png_data_body(icon@) {
                None => r is None,
                Some(body) => {
                    let url = match st { Some(u) => u, None => png_data_prefix() + body };
                    if is_stored_url_spec(url) { r matches Some(u) && u@ == url } else { r is None }
                },
            }
        }),
{
    match png_data_body_of(icon) {
        None => None,
        Some(body) => {
            let url = store_b64_or_inline(stored, body.as_str());
            if is_stored_url(url.as_str()) {
                Some(url)
            } else {
                None
            }
        },
    }
}

// ====================================================================================
// ICO files
// ====================================================================================

pub open spec fn le16(b: Seq<u8>, at: int) -> nat {
    (b[at] as nat) + (b[at + 1] as nat) * 256
}

pub open spec fn le32(b: Seq<u8>, at: int) -> nat {
    (b[at] as nat) + (b[at + 1] as nat) * 0x100 + (b[at + 2] as nat) * 0x1_0000 + (b[at + 3] as nat) * 0x100_0000
}

/// The width of directory entry `i` (a stored 0 means 256).
pub open spec fn ico_width(b: Seq<u8>, i: int) -> nat {
    let raw = b[6 + i * 16] as nat;
    if raw == 0 { 256 } else { raw }
}

/// Where entry `i`'s image is, when it lies inside the file, is at least eight bytes, and
/// starts with the PNG signature.
pub open spec fn ico_png_entry(b: Seq<u8>, i: int) -> Option<(nat, nat)> {
    let e = 6 + i * 16;
    let size = le32(b, e + 8);
    let off = le32(b, e + 12);
    if off + size <= b.len() && size >= 8 && b.subrange(off as int, (off + 8) as int) == png_magic() {
        Some((off, size))
    } else {
        None
    }
}

/// Among the first `k` entries, the first PNG of the greatest width: (width, offset,
/// length).
pub open spec fn ico_best(b: Seq<u8>, k: int) -> Option<(nat, nat, nat)>
    decreases k,
{
    if k <= 0 {
        None
    } else {
        let prev = ico_best(b, k - 1);
        let best_w: nat = match prev { Some((w, _, _)) => w, None => 0 };
        match ico_png_entry(b, k - 1) {
            Some((off, size)) => if ico_width(b, k - 1) > best_w {
                Some((ico_width(b, k - 1), off, size))
            } else {
                prev
            },
            None => prev,
        }
    }
}

/// The largest PNG an `.ico` file carries, if its header is a valid icon directory.
pub open spec fn ico_png_spec(b: Seq<u8>) -> Option<Seq<u8>> {
    if b.len() < 22 || le16(b, 2) != 1 {
        None
    } else {
        let count = le16(b, 4);
        if count == 0 || b.len() < 6 + count * 16 {
            None
        } else {
            match ico_best(b, count as int) {
                None => None,
                Some((_, off, size)) => Some(b.subrange(off as int, (off + size) as int)),
            }
        }
    }
}

fn read_le32(b: &[u8], at: usize) -> (r: u64)
    requires
        at + 4 <= b.len(),
    ensures
        r as nat == le32(b@, at as int),
{
    (b[at] as u64) + (b[at + 1] as u64) * 0x100 + (b[at + 2] as u64) * 0x1_0000 + (b[at + 3] as u64) * 0x100_0000
}

fn starts_png_at(b: &[u8], off: usize) -> (r: bool)
    requires
        off + 8 <= b.len(),
    ensures
        r == (b@.subrange(off as int, off + 8) == png_magic()),
{
    let ok = b[off] == 0x89 && b[off + 1] == 0x50 && b[off + 2] == 0x4E && b[off + 3] == 0x47
        && b[off + 4] == 0x0D && b[off + 5] == 0x0A && b[off + 6] == 0x1A && b[off + 7] == 0x0A;
    let ghost sub = b@.subrange(off as int, off + 8);
    if ok {
        assert(sub =~= png_magic());
    } else {
        assert(sub != png_magic()) by {
            if sub == png_magic() {
                assert(sub[0] == png_magic()[0]);
                assert(sub[1] == png_magic()[1]);
                assert(sub[2] == png_magic()[2]);
                assert(sub[3] == png_magic()[3]);
                assert(sub[4] == png_magic()[4]);
                assert(sub[5] == png_magic()[5]);
                assert(sub[6] == png_magic()[6]);
                assert(sub[7] == png_magic()[7]);
            }
        }
    }
    ok
}

/// The largest PNG embedded in an `.ico` file's bytes, if there is one.
pub fn try_extract_png_from_ico_bytes(bytes: &[u8]) -> (r: Option<Vec<u8>>)
    ensures
        r is Some <==> ico_png_spec(bytes@) is Some,
        r matches Some(v) ==> ico_png_spec(bytes@) == Some(v@),
{
    if bytes.len() < 22 {
        return None;
    }
    let id_type = (bytes[2] as u64) + (bytes[3] as u64) * 256;
    if id_type != 1 {
        return None;
    }
    let count = (bytes[4] as u64) + (bytes[5] as u64) * 256;
    if count == 0 || (bytes.len() as u64) < 6 + count * 16 {
        return None;
    }
    let mut best_width: u64 = 0;
    let mut best: Option<(usize, usize)> = None;
    let mut i: u64 = 0;
    while i < count
        invariant
            i <= count,
            count == le16(bytes@, 4),
            6 + count * 16 <= bytes.len(),
            match ico_best(bytes@, i as int) {
                None => best is None && best_width == 0,
                Some((w, off, size)) => best == Some((off as usize, size as usize)) && best_width == w
                    && off + size <= bytes.len(),
            },
        decreases count - i,
    {
        let entry = (6 + i * 16) as usize;
        let raw_w = bytes[entry] as u64;
        let w: u64 = if raw_w == 0 { 256 } else { raw_w };
        let size = read_le32(bytes, entry + 8);
        let off = read_le32(bytes, entry + 12);
        if off + size <= bytes.len() as u64 && size >= 8 {
            if starts_png_at(bytes, off as usize) && w > best_width {
                best_width = w;
                best = Some((off as usize, size as usize));
            }
        }
        i += 1;
    }
    match best {
        None => None,
        Some((off, size)) => {
            let mut out: Vec<u8> = Vec::new();
            let mut k: usize = off;
            while k < off + size
                invariant
                    off <= k <= off + size <= bytes.len(),
                    out@ == bytes@.subrange(off as int, k as int),
                decreases off + size - k,
            {
                out.push(bytes[k]);
                k += 1;
                assert(out@ =~= bytes@.subrange(off as int, k as int));
            }
            Some(out)
        },
    }
}

// ------------------------------------------------------------------------------------
// What an `.ico` gives
// ------------------------------------------------------------------------------------

/// Entry `j` of the first `k` is a PNG, no PNG among them is wider, and every PNG before
/// it is narrower.
pub open spec fn first_widest_png(b: Seq<u8>, k: int, j: int) -> bool {
    &&& 0 <= j < k
    &&& ico_png_entry(b, j) is Some
    &&& forall|i: int| 0 <= i < k && (#[trigger] ico_png_entry(b, i)) is Some ==> ico_width(b, i) <= ico_width(b, j)
    &&& forall|i: int| 0 <= i < j && (#[trigger] ico_png_entry(b, i)) is Some ==> ico_width(b, i) < ico_width(b, j)
}

/// The bytes of entry `j`'s image, when it is a PNG inside the file.
pub open spec fn ico_entry_bytes(b: Seq<u8>, j: int) -> Seq<u8> {
    match ico_png_entry(b, j) {
        Some((off, size)) => b.subrange(off as int, (off + size) as int),
        None => seq![],
    }
}

/// The icon directory of `b` is valid: one image type, at least one entry, all of them
/// inside the file.
pub open spec fn ico_header_ok(b: Seq<u8>) -> bool {
    b.len() >= 22 && le16(b, 2) == 1 && le16(b, 4) > 0 && b.len() >= 6 + le16(b, 4) * 16
}

proof fn lemma_ico_best(b: Seq<u8>, k: int)
    requires
        k >= 0,
    ensures
        ico_best(b, k) is None <==> forall|i: int| 0 <= i < k ==> (#[trigger] ico_png_entry(b, i)) is None,
        ico_best(b, k) matches Some((w, off, size)) ==> exists|j: int| #![trigger first_widest_png(b, k, j)]
            first_widest_png(b, k, j) && ico_png_entry(b, j) == Some((off, size)) && ico_width(b, j) == w,
    decreases k,
{
    if k > 0 {
        lemma_ico_best(b, k - 1);
        let prev = ico_best(b, k - 1);
        let best_w: nat = match prev { Some((w, _, _)) => w, None => 0 };
        match ico_png_entry(b, k - 1) {
            Some((off, size)) => {
                if ico_width(b, k - 1) > best_w {
                    if let Some((w0, o0, s0)) = prev {
                        let j0 = choose|j: int| #![trigger first_widest_png(b, k - 1, j)]
                            first_widest_png(b, k - 1, j) && ico_png_entry(b, j) == Some((o0, s0)) && ico_width(b, j) == w0;
                        assert(first_widest_png(b, k, k - 1));
                    } else {
                        assert(first_widest_png(b, k, k - 1));
                    }
                } else {
                    let (w0, o0, s0) = prev->0;
                    let j0 = choose|j: int| #![trigger first_widest_png(b, k - 1, j)]
                        first_widest_png(b, k - 1, j) && ico_png_entry(b, j) == Some((o0, s0)) && ico_width(b, j) == w0;
                    assert(first_widest_png(b, k, j0));
                }
            },
            None => {
                if let Some((w0, o0, s0)) = prev {
                    let j0 = choose|j: int| #![trigger first_widest_png(b, k - 1, j)]
                        first_widest_png(b, k - 1, j) && ico_png_entry(b, j) == Some((o0, s0)) && ico_width(b, j) == w0;
                    assert(first_widest_png(b, k, j0));
                }
                assert forall|i: int| 0 <= i < k && prev is None implies (#[trigger] ico_png_entry(b, i)) is None by {
                    if i < k - 1 {
                        assert(ico_png_entry(b, i) is None);
                    }
                }
            },
        }
    }
}

/// An `.ico` gives a PNG exactly when its directory is valid and one of its entries is a
/// PNG inside the file, and then it gives the first of the widest such entries, whole.
pub proof fn an_ico_gives_its_first_widest_png(b: Seq<u8>)
    ensures
        ico_png_spec(b) is Some <==> ico_header_ok(b)
            && exists|i: int| 0 <= i < le16(b, 4) && (#[trigger] ico_png_entry(b, i)) is Some,
        ico_png_spec(b) matches Some(d) ==> exists|j: int| #![trigger first_widest_png(b, le16(b, 4) as int, j)]
            first_widest_png(b, le16(b, 4) as int, j)
            && d == ico_entry_bytes(b, j),
{
    lemma_ico_best(b, le16(b, 4) as int);
    if ico_header_ok(b) {
        if let Some((w, off, size)) = ico_best(b, le16(b, 4) as int) {
            let j = choose|j: int| #![trigger first_widest_png(b, le16(b, 4) as int, j)]
                first_widest_png(b, le16(b, 4) as int, j) && ico_png_entry(b, j) == Some((off, size)) && ico_width(b, j) == w;
            assert(first_widest_png(b, le16(b, 4) as int, j));
        }
    }
}

// ------------------------------------------------------------------------------------
// Decoding a prefix
// ------------------------------------------------------------------------------------

proof fn lemma_encoding_len(d: Seq<u8>)
    ensures
        base64_spec(d).len() == 4 * ((d.len() + 2) / 3),
    decreases d.len(),
{
    if d.len() >= 3 {
        lemma_encoding_len(d.subrange(3, d.len() as int));
    }
}

/// The first `4k` characters of an encoding are the encoding of the first `3k` bytes.
proof fn lemma_encoding_take(d: Seq<u8>, k: int)
    requires
        0 <= k,
        3 * k <= d.len(),
    ensures
        base64_spec(d).take(4 * k) == base64_spec(d.take(3 * k)),
    decreases k,
{
    if k == 0 {
        assert(base64_spec(d).take(0) =~= Seq::<char>::empty());
        assert(d.take(0) =~= Seq::<u8>::empty());
    } else {
        let rest = d.subrange(3, d.len() as int);
        lemma_encoding_take(rest, k - 1);
        let g = encode_group(d[0], d[1], d[2], 3);
        let t = d.take(3 * k);
        assert(t.subrange(3, t.len() as int) =~= rest.take(3 * (k - 1)));
        assert(base64_spec(t) == g + base64_spec(t.subrange(3, t.len() as int)));
        lemma_encoding_len(rest);
        assert(base64_spec(d).take(4 * k) =~= g + base64_spec(rest).take(4 * (k - 1)));
    }
}

/// Decoding the head of an encoding gives the head of the data: `base64_decode_prefix`
/// on what `base64_encode` wrote reads back the first `max_bytes` bytes (all of them when
/// there are fewer).
pub proof fn a_prefix_decodes_to_a_prefix(d: Seq<u8>, max_bytes: nat)
    ensures
        decode_prefix_spec(base64_spec(d), max_bytes) == Some(if max_bytes < d.len() { d.take(max_bytes as int) } else { d }),
{
    let text = base64_spec(d);
    let n = prefix_chars(max_bytes);
    let k: int = (n / 4) as int;
    assert(n == 4 * k && k >= 1 && 3 * k >= max_bytes) by (nonlinear_arith)
        requires
            n == (if ((max_bytes + 2) / 3) * 4 < 4 { 4 } else { ((max_bytes + 2) / 3) * 4 }),
            k == n / 4,
            max_bytes >= 0,
    {
    }
    lemma_encoding_len(d);
    if 3 * k <= d.len() {
        lemma_encoding_take(d, k);
        let head = if n < text.len() { text.take(n as int) } else { text };
        assert(head == base64_spec(d.take(3 * k))) by {
            if n >= text.len() {
                assert(4 * ((d.len() + 2) / 3) <= 4 * k);
                assert(text.take(n as int) =~= text);
            }
        }
        base64_round_trip(d.take(3 * k));
        if max_bytes < d.len() {
            assert(d.take(3 * k).take(max_bytes as int) =~= d.take(max_bytes as int));
        } else {
            assert(d.take(3 * k) =~= d);
        }
    } else {
        assert(4 * ((d.len() + 2) / 3) <= 4 * k) by (nonlinear_arith)
            requires
                3 * k > d.len(),
        {
        }
        base64_round_trip(d);
    }
}

/// A group of four without `=` decodes, when it decodes, to three bytes.
proof fn lemma_full_group(g: Seq<u8>)
    requires
        g.len() == 4,
        forall|i: int| 0 <= i < 4 ==> g[i] != 61,
        decode_group(g) is Some,
    ensures
        decode_group(g)->0.len() == 3,
{
    broadcast use vstd::seq_lib::group_filter_ensures;
    let f = g.filter(|c: u8| c == 61);
    if f.len() > 0 {
        assert(f.contains(f[0]));
        g.lemma_filter_contains_rev(|c: u8| c == 61, f[0]);
    }
    assert(pad_count(g) == 0);
}

/// Group by group: while no `=` stands before the last group, the first `k` groups of
/// a text decode to the first `3k` bytes of the whole.
proof fn lemma_groups_take(b: Seq<u8>, full: Seq<u8>, k: int)
    requires
        1 <= k,
        4 * k < b.len(),
        decode_groups(b) == Some(full),
        forall|i: int| 0 <= i < 4 * ((b.len() - 1) / 4) ==> b[i] != 61,
    ensures
        3 * k <= full.len(),
        decode_groups(b.take(4 * k)) == Some(full.take(3 * k)),
    decreases k,
{
    reveal(decode_groups);
    let g = b.take(4);
    let tail = b.skip(4);
    assert(4 <= 4 * ((b.len() - 1) / 4));
    let h = decode_group(g)->0;
    let rest = decode_groups(tail)->0;
    assert(decode_group(g) is Some && decode_groups(tail) is Some && full == h + rest);
    lemma_full_group(g);
    let t = b.take(4 * k);
    assert(t.take(4) =~= g);
    if k == 1 {
        assert(t.skip(4) =~= Seq::<u8>::empty());
        assert(decode_groups(t.skip(4)) == Some(Seq::<u8>::empty()));
        assert(full.take(3) =~= h + Seq::<u8>::empty());
    } else {
        assert(t.skip(4) =~= tail.take(4 * (k - 1)));
        assert forall|i: int| 0 <= i < 4 * ((tail.len() - 1) / 4) implies tail[i] != 61 by {
            assert(4 * ((tail.len() - 1) / 4) == 4 * ((b.len() - 1) / 4) - 4);
            assert(tail[i] == b[i + 4]);
        }
        lemma_groups_take(tail, rest, k - 1);
        assert(full.take(3 * k) =~= h + rest.take(3 * (k - 1)));
    }
}

/// Every byte of a text that decodes, but perhaps a lone last one, is a base64 digit or
/// `=`, and so ASCII.
proof fn lemma_decoded_bytes_ascii(b: Seq<u8>)
    requires
        decode_groups(b) is Some,
    ensures
        forall|i: int| 0 <= i < b.len() - 1 ==> #[trigger] b[i] < 128,
    decreases b.len(),
{
    reveal(decode_groups);
    if b.len() >= 2 {
        let n: int = if b.len() < 4 { b.len() as int } else { 4 };
        let g = b.take(n);
        let tail = b.skip(n);
        assert(decode_group(g) is Some);
        lemma_decoded_bytes_ascii(tail);
        assert forall|i: int| 0 <= i < b.len() - 1 implies #[trigger] b[i] < 128 by {
            if i < n {
                assert(g[i] == b[i]);
                assert(group_value(g, i) is Some);
            } else {
                assert(tail[i - n] == b[i]);
            }
        }
    }
}

/// A text whose UTF-8 is ASCII in all but perhaps its last byte is ASCII throughout: a
/// wider char is two bytes or more and starts with a byte of 0xC0 or above.
proof fn lemma_ascii_text(text: Seq<char>)
    requires
        forall|i: int| 0 <= i < encode_utf8(text).len() - 1 ==> #[trigger] encode_utf8(text)[i] < 128,
    ensures
        is_ascii_chars(text),
    decreases text.len(),
{
    if text.len() > 0 {
        let c = text[0] as u32;
        let rest = text.drop_first();
        let e = encode_scalar(c);
        let b = encode_utf8(text);
        assert(b == e + encode_utf8(rest));
        if !has_width_1_encoding(c) {
            if has_width_2_encoding(c) {
                let x = ((c >> 6) & 0x1F) as u8;
                assert((0xC0u8 | x) >= 0x80u8) by (bit_vector);
            } else if has_width_3_encoding(c) {
                let x = ((c >> 12) & 0x0F) as u8;
                assert((0xE0u8 | x) >= 0x80u8) by (bit_vector);
            } else {
                let x = ((c >> 18) & 0x7) as u8;
                assert((0xF0u8 | x) >= 0x80u8) by (bit_vector);
            }
            assert(b[0] == e[0]);
            assert(false);
        } else {
            let rb = encode_utf8(rest);
            assert forall|i: int| 0 <= i < rb.len() - 1 implies #[trigger] rb[i] < 128 by {
                assert(rb[i] == b[i + 1]);
            }
            lemma_ascii_text(rest);
            lemma_char_code(text[0]);
            assert forall|i: int| 0 <= i < text.len() implies '\0' <= #[trigger] text[i] <= '\u{7f}' by {
                if i > 0 {
                    assert(text[i] == rest[i - 1]);
                }
            }
        }
    }
}

/// A char's code, for the chars these proofs name.
proof fn lemma_char_code(ch: char)
    ensures
        (ch as u32 <= 0x7F) <==> ('\0' <= ch <= '\u{7f}'),
        (ch as u32 == 32) <==> (ch == ' '),
        (ch as u32 == 9) <==> (ch == '\t'),
        (ch as u32 == 10) <==> (ch == '\n'),
        (ch as u32 == 12) <==> (ch == '\x0C'),
        (ch as u32 == 13) <==> (ch == '\r'),
        (ch as u32 == 61) <==> (ch == '='),
{
    vstd::utf8::char_u32_cast(ch, ch as u32);
}

/// The UTF-8 bytes of one scalar: the scalar itself below 0x80, else bytes of 0x80 and up.
proof fn lemma_scalar_bytes(c: u32)
    ensures
        has_width_1_encoding(c) ==> encode_scalar(c) == seq![c as u8],
        !has_width_1_encoding(c) ==> forall|i: int| 0 <= i < encode_scalar(c).len() ==> #[trigger] encode_scalar(c)[i] >= 0x80,
        encode_scalar(c).len() >= 1,
{
    if has_width_1_encoding(c) {
        assert((c & 0x7F) as u8 == c as u8) by (bit_vector)
            requires
                c <= 0x7F,
        ;
    } else {
        let x = (c & 0x3F) as u8;
        let y = ((c >> 6) & 0x3F) as u8;
        let z = ((c >> 12) & 0x3F) as u8;
        assert((0x80u8 | x) >= 0x80u8 && (0x80u8 | y) >= 0x80u8 && (0x80u8 | z) >= 0x80u8) by (bit_vector);
        let p = ((c >> 6) & 0x1F) as u8;
        let q = ((c >> 12) & 0x0F) as u8;
        let r = ((c >> 18) & 0x7) as u8;
        assert((0xC0u8 | p) >= 0x80u8 && (0xE0u8 | q) >= 0x80u8 && (0xF0u8 | r) >= 0x80u8) by (bit_vector);
    }
}

/// A text without white space has none in its UTF-8 either.
proof fn lemma_no_ws_bytes(text: Seq<char>)
    requires
        no_ascii_ws(text),
    ensures
        forall|i: int| 0 <= i < encode_utf8(text).len() ==> !is_ascii_ws(#[trigger] encode_utf8(text)[i]),
    decreases text.len(),
{
    if text.len() > 0 {
        let ch = text[0];
        let c = ch as u32;
        let rest = text.drop_first();
        let e = encode_scalar(c);
        let b = encode_utf8(text);
        assert(b == e + encode_utf8(rest));
        assert(no_ascii_ws(rest)) by {
            assert forall|i: int| 0 <= i < rest.len() implies !(#[trigger] rest[i] == ' ' || rest[i] == '\t'
                || rest[i] == '\n' || rest[i] == '\x0C' || rest[i] == '\r') by {
                assert(rest[i] == text[i + 1]);
            }
        }
        lemma_no_ws_bytes(rest);
        lemma_scalar_bytes(c);
        lemma_char_code(ch);
        assert(!(ch == ' ' || ch == '\t' || ch == '\n' || ch == '\x0C' || ch == '\r'));
        assert forall|i: int| 0 <= i < b.len() implies !is_ascii_ws(#[trigger] b[i]) by {
            if i < e.len() {
                assert(b[i] == e[i]);
            } else {
                assert(b[i] == encode_utf8(rest)[i - e.len()]);
            }
        }
    }
}

/// The characters of base64 text that are not white space, as `u8::is_ascii_whitespace`
/// has it.
pub open spec fn no_ascii_ws(text: Seq<char>) -> bool {
    forall|i: int| 0 <= i < text.len() ==> !(#[trigger] text[i] == ' ' || text[i] == '\t'
        || text[i] == '\n' || text[i] == '\x0C' || text[i] == '\r')
}

/// A text without white space that decodes is ASCII, byte for char, and decodes as its
/// bytes stand.
proof fn lemma_clean_text(text: Seq<char>, full: Seq<u8>)
    requires
        no_ascii_ws(text),
        base64_decode_spec(text) == Some(full),
    ensures
        is_ascii_chars(text),
        encode_utf8(text).len() == text.len(),
        forall|i: int| 0 <= i < text.len() ==> #[trigger] encode_utf8(text)[i] == text[i] as u8,
        forall|i: int| 0 <= i < text.len() ==> !is_ascii_ws(#[trigger] encode_utf8(text)[i]),
        decode_groups(encode_utf8(text)) == Some(full),
{
    let b = encode_utf8(text);
    lemma_no_ws_bytes(text);
    lemma_filter_keeps_all(b);
    lemma_decoded_bytes_ascii(b);
    lemma_ascii_text(text);
    is_ascii_chars_encode_utf8(text);
}

/// Decoding a head reads back the head of the data, for any text that decodes, has no
/// white space, and holds no `=` before its last group of four: `base64_decode_prefix`
/// gives the first `max_bytes` bytes of what `base64_decode` gives (all of them when there
/// are fewer). A `=` in an earlier group ends that group short, and the head would then
/// stop short: `"QQ==QUJD"` decodes to four bytes, its first three to one.
pub proof fn a_prefix_of_any_text_decodes_to_a_prefix(text: Seq<char>, max_bytes: nat, full: Seq<u8>)
    requires
        no_ascii_ws(text),
        base64_decode_spec(text) == Some(full),
        forall|i: int| 0 <= i < 4 * ((text.len() - 1) / 4) ==> text[i] != '=',
    ensures
        decode_prefix_spec(text, max_bytes) == Some(if max_bytes < full.len() { full.take(max_bytes as int) } else { full }),
{
    let n = prefix_chars(max_bytes);
    let k: int = (n / 4) as int;
    assert(n == 4 * k && k >= 1 && 3 * k >= max_bytes) by (nonlinear_arith)
        requires
            n == (if ((max_bytes + 2) / 3) * 4 < 4 { 4 } else { ((max_bytes + 2) / 3) * 4 }),
            k == n / 4,
            max_bytes >= 0,
    {
    }
    let b = encode_utf8(text);
    lemma_clean_text(text, full);
    if n < text.len() {
        let head = text.take(n as int);
        assert(is_ascii_chars(head));
        is_ascii_chars_encode_utf8(head);
        let hb = encode_utf8(head);
        assert(hb =~= b.take(n as int));
        assert forall|i: int| 0 <= i < hb.len() implies !is_ascii_ws(#[trigger] hb[i]) by {
            assert(hb[i] == b[i]);
        }
        lemma_filter_keeps_all(hb);
        assert forall|i: int| 0 <= i < 4 * ((b.len() - 1) / 4) implies b[i] != 61 by {
            lemma_char_code(text[i]);
            assert(text[i] as u8 == b[i]);
        }
        lemma_groups_take(b, full, k);
        if max_bytes < full.len() {
            assert(full.take(3 * k).take(max_bytes as int) =~= full.take(max_bytes as int));
        }
    }
}

// ------------------------------------------------------------------------------------
// Where a stored icon lies
// ------------------------------------------------------------------------------------

proof fn lemma_hex_char_plain(v: nat)
    requires
        v < 16,
    ensures
        !crate::paths::is_sep(hex_lower_char(v)) && hex_lower_char(v) != ':',
{
    if v < 10 {
        assert(((48 + v) as u8) as char == hex_lower_char(v));
        assert((48 + v) as u8 == 48 + v);
    } else {
        assert((87 + v) as u8 == 87 + v);
    }
}

proof fn lemma_hex_digits_plain(n: nat)
    ensures
        forall|i: int| 0 <= i < hex_digits(n).len() ==> !crate::paths::is_sep(#[trigger] hex_digits(n)[i]) && hex_digits(n)[i] != ':',
    decreases n,
{
    if n < 16 {
        lemma_hex_char_plain(n);
    } else {
        lemma_hex_digits_plain(n / 16);
        lemma_hex_char_plain(n % 16);
        let h = hex_digits(n);
        assert forall|i: int| 0 <= i < h.len() implies !crate::paths::is_sep(#[trigger] h[i]) && h[i] != ':' by {
            if i < h.len() - 1 {
                assert(h[i] == hex_digits(n / 16)[i]);
            }
        }
    }
}

/// The name a stored file gets is one plain name.
proof fn lemma_stored_name_plain(bytes: Seq<u8>)
    ensures
        crate::paths::plain_name(fingerprint_spec(bytes) + ".png"@),
{
    reveal_strlit(".png");
    let h = fnv1a(bytes);
    let a = hex16(h);
    assert forall|i: int| 0 <= i < 16 implies !crate::paths::is_sep(#[trigger] a[i]) && a[i] != ':' by {
        let sh = (60 - 4 * i) as u64;
        assert((h >> sh) & 15 <= 15) by (bit_vector);
        lemma_hex_char_plain(((h >> sh) & 15) as nat);
    }
    lemma_hex_digits_plain(bytes.len());
    let n = fingerprint_spec(bytes) + ".png"@;
    assert forall|i: int| 0 <= i < n.len() implies !crate::paths::is_sep(#[trigger] n[i]) && n[i] != ':' by {
        if i < 16 {
            assert(n[i] == a[i]);
        } else if i < fingerprint_spec(bytes).len() {
            assert(n[i] == hex_digits(bytes.len())[i - 16]);
        } else {
            assert(n[i] == ".png"@[i - fingerprint_spec(bytes).len()]);
        }
    }
    assert(n.len() > 1);
    assert(n != seq!['.']);
}

/// A stored icon's file lies directly in the icons folder, under its fingerprint, and
/// its url leads back to that file.
pub proof fn a_stored_icon_lies_in_the_icons_folder(dir: Seq<char>, bytes: Seq<u8>)
    ensures
        ({
            let name = fingerprint_spec(bytes) + ".png"@;
            let path = join_spec(dir, name);
            &&& crate::paths::comps(path) == crate::paths::comps(dir).push(name)
            &&& path_from_url_spec(asset_url_spec(path)) == Some(path)
        }),
{
    let name = fingerprint_spec(bytes) + ".png"@;
    lemma_stored_name_plain(bytes);
    crate::paths::a_joined_name_is_the_last_component(dir, name);
    asset_url_round_trip(join_spec(dir, name));
}

/// Moving an inlined PNG into the store: when the store wrote the decoded bytes where
/// `store_b64` plans them, `store_url` gives that file's url, which is a stored url, names
/// a file directly in the icons folder, and leads back to it.
pub proof fn an_inlined_png_moves_into_the_icons_folder(dir: Seq<char>, body: Seq<char>, bytes: Seq<u8>)
    requires
        base64_decode_spec(body) == Some(bytes),
    ensures
        ({
            let name = fingerprint_spec(bytes) + ".png"@;
            let path = join_spec(dir, name);
            let url = asset_url_spec(path);
            &&& store_url_spec(png_data_prefix() + body, Some(url)) == url
            &&& is_stored_url_spec(url)
            &&& path_from_url_spec(url) == Some(path)
            &&& crate::paths::comps(path) == crate::paths::comps(dir).push(name)
        }),
{
    let name = fingerprint_spec(bytes) + ".png"@;
    let path = join_spec(dir, name);
    let url = asset_url_spec(path);
    a_stored_icon_lies_in_the_icons_folder(dir, bytes);
    let icon = png_data_prefix() + body;
    assert(icon.take(png_data_prefix().len() as int) =~= png_data_prefix());
    assert(icon.skip(png_data_prefix().len() as int) =~= body);
    assert(url.take(asset_prefix().len() as int) =~= asset_prefix());
    assert(is_stored_url_spec(url));
}

} // verus!
