//! The Recycle Bin, read the way the shell stores it: beside each `$I<id>` metadata
//! file sits the item itself as `$R<id>`. `$I` holds the original path and the
//! deletion time, which is all a restore needs. Listing the bins and moving the files
//! is the caller's; what a metadata file says, and which entry an undo puts back, is
//! decided here.

use vstd::prelude::*;
use crate::paths::is_sep;
use crate::text::{
    ascii_lower, chars_of, concat, eq_ignore_ascii_case, eq_ignore_case, from_utf16,
    from_utf8_lossy, lower_char, push_str, to_string, trim, trim_end_by, trim_spec,
    utf16_strict, utf8_lossy,
};

verus! {

broadcast use vstd::seq_lib::group_seq_properties;

// ------------------------------------------------------------------------------------
// Comparing paths
// ------------------------------------------------------------------------------------

/// Windows paths are case-insensitive, and a trailing separator is not a difference
/// worth failing a restore over.
pub open spec fn same_path_spec(a: Seq<char>, b: Seq<char>) -> bool {
    eq_ignore_ascii_case(trim_end_by(a, |c: char| is_sep(c)), trim_end_by(b, |c: char| is_sep(c)))
}

/// How many separators end `v`.
fn trailing_seps(v: &Vec<char>) -> (n: usize)
    ensures
        n == crate::text::trail_len(v@, |c: char| is_sep(c)),
        n <= v.len(),
{
    let mut k: usize = v.len();
    while k > 0 && (v[k - 1] == '/' || v[k - 1] == '\\')
        invariant
            k <= v.len(),
            crate::text::trail_len(v@, |c: char| is_sep(c))
                == (v.len() - k) + crate::text::trail_len(v@.take(k as int), |c: char| is_sep(c)),
        decreases k,
    {
        assert(v@.take(k as int).drop_last() =~= v@.take(k - 1));
        k -= 1;
    }
    assert(v@.take(v.len() as int) =~= v@);
    v.len() - k
}

/// Do `a` and `b` name the same item, as Windows compares paths?
pub fn same_path(a: &str, b: &str) -> (r: bool)
    ensures
        r == same_path_spec(a@, b@),
{
    let va = chars_of(a);
    let vb = chars_of(b);
    let na = va.len() - trailing_seps(&va);
    let nb = vb.len() - trailing_seps(&vb);
    let sa = vstd::slice::slice_subrange(va.as_slice(), 0, na);
    let sb = vstd::slice::slice_subrange(vb.as_slice(), 0, nb);
    assert(sa@ =~= trim_end_by(a@, |c: char| is_sep(c)));
    assert(sb@ =~= trim_end_by(b@, |c: char| is_sep(c)));
    eq_ignore_case(sa, sb)
}

// ------------------------------------------------------------------------------------
// The metadata file
// ------------------------------------------------------------------------------------

/// A little-endian `u64` at `at`.
#[verifier::opaque]
pub open spec fn le_u64_at(b: Seq<u8>, at: int) -> int {
    b[at] + 0x100 * b[at + 1] + 0x1_0000 * b[at + 2] + 0x100_0000 * b[at + 3]
        + 0x1_0000_0000 * b[at + 4] + 0x100_0000_0000 * b[at + 5]
        + 0x1_0000_0000_0000 * b[at + 6] + 0x100_0000_0000_0000 * b[at + 7]
}

/// A little-endian `u32` at `at`.
pub open spec fn le_u32_at(b: Seq<u8>, at: int) -> int {
    b[at] + 0x100 * b[at + 1] + 0x1_0000 * b[at + 2] + 0x100_0000 * b[at + 3]
}

fn read_le_u64(b: &[u8], at: usize) -> (r: u64)
    requires
        at + 8 <= b.len(),
    ensures
        r == le_u64_at(b@, at as int),
{
    reveal(le_u64_at);
    (b[at] as u64) + 0x100 * (b[at + 1] as u64) + 0x1_0000 * (b[at + 2] as u64)
        + 0x100_0000 * (b[at + 3] as u64) + 0x1_0000_0000 * (b[at + 4] as u64)
        + 0x100_0000_0000 * (b[at + 5] as u64) + 0x1_0000_0000_0000 * (b[at + 6] as u64)
        + 0x100_0000_0000_0000 * (b[at + 7] as u64)
}

pub(crate) fn read_le_u32(b: &[u8], at: usize) -> (r: u32)
    requires
        at + 4 <= b.len(),
    ensures
        r == le_u32_at(b@, at as int),
{
    (b[at] as u32) + 0x100 * (b[at + 1] as u32) + 0x1_0000 * (b[at + 2] as u32)
        + 0x100_0000 * (b[at + 3] as u32)
}

/// Seconds between 1601-01-01 and the Unix epoch.
pub const EPOCH_DIFF_SECS: u64 = 11_644_473_600;

/// Windows' 100ns-since-1601 clock as `(seconds, nanoseconds)` since the Unix epoch;
/// a moment before the epoch is the epoch.
pub open spec fn deleted_at_spec(raw: u64) -> (u64, u32) {
    let secs = raw / 10_000_000;
    let nanos = (raw % 10_000_000) * 100;
    (
        if secs >= EPOCH_DIFF_SECS { (secs - EPOCH_DIFF_SECS) as u64 } else { 0 },
        if nanos <= 999_999_999 { nanos as u32 } else { 999_999_999 },
    )
}

/// Windows' 100ns-since-1601 clock as `(seconds, nanoseconds)` since the Unix epoch.
pub fn filetime_to_system_time(raw: u64) -> (r: (u64, u32))
    ensures
        r == deleted_at_spec(raw),
{
    let secs = raw / 10_000_000;
    let nanos = (raw % 10_000_000) * 100;
    let nanos: u32 = if nanos <= 999_999_999 { nanos as u32 } else { 999_999_999 };
    (secs.saturating_sub(EPOCH_DIFF_SECS), nanos)
}

/// The UTF-16 code units of `raw`, two bytes each, low byte first.
pub open spec fn utf16_units(raw: Seq<u8>) -> Seq<u16> {
    Seq::new(raw.len() / 2, |i: int| (raw[2 * i] + 0x100 * raw[2 * i + 1]) as u16)
}

/// `u` without its trailing NULs.
pub open spec fn strip_nuls(u: Seq<u16>) -> Seq<u16>
    decreases u.len(),
{
    if u.len() > 0 && u.last() == 0 {
        strip_nuls(u.drop_last())
    } else {
        u
    }
}

/// The first NUL byte of `s`.
pub open spec fn first_nul(s: Seq<u8>) -> Option<int> {
    if exists|i: int| 0 <= i < s.len() && s[i] == 0 {
        Some(choose|i: int| 0 <= i < s.len() && s[i] == 0 && forall|j: int| 0 <= j < i ==> s[j] != 0)
    } else {
        None
    }
}

/// The path an `$I` file names: version 2 and later hold a count of UTF-16 units and
/// then the text; version 1 held ANSI up to a NUL.
pub open spec fn recycled_path(b: Seq<u8>) -> Option<Seq<char>> {
    if le_u64_at(b, 0) >= 2 {
        let end = 28 + 2 * le_u32_at(b, 24);
        if end > b.len() {
            None
        } else {
            utf16_strict(strip_nuls(utf16_units(b.subrange(28, end))))
        }
    } else {
        match first_nul(b.skip(24)) {
            Some(e) => Some(utf8_lossy(b.skip(24).take(e))),
            None => None,
        }
    }
}

/// The original path and the moment it was deleted, out of an `$I` file; nothing for a
/// file too short to be one or one that names no path.
pub open spec fn recycled_metadata_spec(b: Seq<u8>) -> Option<(Seq<char>, (u64, u32))> {
    if b.len() < 28 {
        None
    } else {
        match recycled_path(b) {
            Some(p) => if p.len() > 0 {
                Some((p, deleted_at_spec(le_u64_at(b, 16) as u64)))
            } else {
                None
            },
            None => None,
        }
    }
}

/// The UTF-16 code units of `b[start..end]`, a trailing odd byte left out.
pub(crate) fn utf16_units_of(b: &[u8], start: usize, end: usize) -> (r: Vec<u16>)
    requires
        start <= end <= b.len(),
    ensures
        r@ == utf16_units(b@.subrange(start as int, end as int)),
{
    let ghost raw = b@.subrange(start as int, end as int);
    let stop = end - (end - start) % 2;
    let mut out: Vec<u16> = Vec::new();
    let mut i: usize = start;
    while i < stop
        invariant
            start <= i <= stop <= end <= b.len(),
            (i - start) % 2 == 0,
            (stop - start) % 2 == 0,
            stop - start == 2 * (raw.len() / 2),
            raw == b@.subrange(start as int, end as int),
            out@ =~= utf16_units(raw).take((i - start) / 2),
        decreases stop - i,
    {
        let u: u16 = (b[i] as u16) + 0x100 * (b[i + 1] as u16);
        out.push(u);
        proof {
            let k = (i - start) / 2;
            assert(2 * k == i - start);
            assert(raw[2 * k] == b@[i as int]);
            assert(raw[2 * k + 1] == b@[i + 1]);
        }
        i += 2;
    }
    assert(out@ =~= utf16_units(raw));
    out
}

fn units_of(b: &[u8], start: usize, end: usize) -> (r: Vec<u16>)
    requires
        start <= end <= b.len(),
    ensures
        r@ == strip_nuls(utf16_units(b@.subrange(start as int, end as int))),
{
    let mut out = utf16_units_of(b, start, end);
    let ghost full = out@;
    while out.len() > 0 && out[out.len() - 1] == 0
        invariant
            strip_nuls(out@) == strip_nuls(full),
        decreases out.len(),
    {
        out.pop();
    }
    out
}

/// Where the first NUL of `b[from..]` is.
fn nul_in(b: &[u8], from: usize) -> (r: Option<usize>)
    requires
        from <= b.len(),
    ensures
        r matches Some(e) ==> first_nul(b@.skip(from as int)) == Some(e as int) && from + e < b.len(),
        r is None <==> first_nul(b@.skip(from as int)) is None,
{
    let ghost s = b@.skip(from as int);
    let mut i: usize = from;
    while i < b.len()
        invariant
            from <= i <= b.len(),
            s == b@.skip(from as int),
            forall|j: int| 0 <= j < i - from ==> s[j] != 0,
        decreases b.len() - i,
    {
        if b[i] == 0 {
            let e = i - from;
            proof {
                assert(s[e as int] == 0);
                let w = choose|w: int| 0 <= w < s.len() && s[w] == 0 && forall|j: int| 0 <= j < w ==> s[j] != 0;
                assert(w == e) by {
                    if w > e {
                        assert(s[e as int] != 0);
                    }
                }
            }
            return Some(e);
        }
        i += 1;
    }
    None
}

/// The UTF-16 path of a version 2 `$I` file.
fn read_path_v2(bytes: &[u8]) -> (r: Option<String>)
    requires
        bytes.len() >= 28,
    ensures
        ({
            let end = 28 + 2 * le_u32_at(bytes@, 24);
            if end > bytes@.len() {
                r is None
            } else {
                &&& r is Some <==> utf16_strict(strip_nuls(utf16_units(bytes@.subrange(28, end)))) is Some
                &&& r matches Some(p) ==> utf16_strict(strip_nuls(utf16_units(bytes@.subrange(28, end)))) == Some(p@)
            }
        }),
{
    let n = read_le_u32(bytes, 24);
    let units = n as usize;
    let room = (bytes.len() - 28) / 2;
    if units > room {
        return None;
    }
    let utf16 = units_of(bytes, 28, 28 + 2 * units);
    from_utf16(utf16.as_slice())
}

/// The ANSI path of a version 1 `$I` file.
fn read_path_v1(bytes: &[u8]) -> (r: Option<String>)
    requires
        bytes.len() >= 28,
    ensures
        r is None <==> first_nul(bytes@.skip(24)) is None,
        r matches Some(p) ==> first_nul(bytes@.skip(24)) matches Some(e) && p@ == utf8_lossy(bytes@.skip(24).take(e)),
{
    let end = match nul_in(bytes, 24) {
        Some(e) => e,
        None => return None,
    };
    let rest = vstd::slice::slice_subrange(bytes, 24, 24 + end);
    assert(rest@ =~= bytes@.skip(24).take(end as int));
    Some(from_utf8_lossy(rest))
}

/// The path an `$I` file names.
fn read_recycled_path(bytes: &[u8]) -> (r: Option<String>)
    requires
        bytes.len() >= 28,
    ensures
        r matches Some(p) ==> recycled_path(bytes@) == Some(p@),
        r is None <==> recycled_path(bytes@) is None,
{
    if read_le_u64(bytes, 0) >= 2 {
        read_path_v2(bytes)
    } else {
        read_path_v1(bytes)
    }
}

/// The original path and the moment it was deleted, out of an `$I` file.
///
/// Both layouts are read, because a bin carried over from an old profile is not a reason
/// to refuse to put someone's file back.
pub fn parse_recycled_metadata(bytes: &[u8]) -> (r: Option<(String, (u64, u32))>)
    ensures
        r matches Some((p, when)) ==> recycled_metadata_spec(bytes@) == Some((p@, when)),
        r is None <==> recycled_metadata_spec(bytes@) is None,
{
    if bytes.len() < 28 {
        return None;
    }
    let deleted_at = filetime_to_system_time(read_le_u64(bytes, 16));
    let original = match read_recycled_path(bytes) {
        Some(p) => p,
        None => return None,
    };
    if original.as_str().unicode_len() == 0 {
        return None;
    }
    Some((original, deleted_at))
}

// ------------------------------------------------------------------------------------
// Putting an item back
// ------------------------------------------------------------------------------------

/// One item in a Recycle Bin, as the listing found it.
pub struct BinEntry {
    /// Where the item lived before it was deleted.
    pub original: String,
    /// When it was deleted: seconds and nanoseconds since the Unix epoch.
    pub deleted_at: (u64, u32),
    /// Whether the bin still holds the item itself beside its metadata.
    pub held: bool,
}

/// Was `a` deleted after `b`?
pub open spec fn later(a: (u64, u32), b: (u64, u32)) -> bool {
    a.0 > b.0 || (a.0 == b.0 && a.1 > b.1)
}

pub open spec fn entry_matches(path: Seq<char>, e: BinEntry) -> bool {
    same_path_spec(e.original@, path)
}

/// Entry `i` is the newest for `path`, and the first of the newest.
pub open spec fn is_newest(path: Seq<char>, entries: Seq<BinEntry>, i: int) -> bool {
    &&& 0 <= i < entries.len()
    &&& entry_matches(path, entries[i])
    &&& forall|j: int| 0 <= j < entries.len() && entry_matches(path, #[trigger] entries[j])
        ==> !later(entries[j].deleted_at, entries[i].deleted_at)
    &&& forall|j: int| 0 <= j < i && entry_matches(path, #[trigger] entries[j])
        ==> later(entries[i].deleted_at, entries[j].deleted_at)
}

/// Which bin entry an undo of deleting `path` puts back.
///
/// The same path can be recycled more than once, and undoing the most recent delete is
/// what was asked for, so the newest entry wins; among entries deleted at the same
/// moment the first listed does. Refused: a blank path, a path that is on disk already,
/// a path no bin remembers, and one whose newest entry the bin no longer holds.
pub fn restore_choice(path: &str, on_disk: bool, entries: &[BinEntry]) -> (r: Result<usize, String>)
    ensures
        trim_spec(path@).len() == 0 ==> (r matches Err(e) && e@ == "no path to restore"@),
        trim_spec(path@).len() > 0 && on_disk ==> (r matches Err(e) && e@ == "'"@ + path@ + "' is on disk already"@),
        trim_spec(path@).len() > 0 && !on_disk && !(exists|j: int| 0 <= j < entries@.len() && entry_matches(path@, #[trigger] entries@[j]))
            ==> (r matches Err(e) && e@ == "'"@ + path@ + "' is no longer in the Recycle Bin"@),
        trim_spec(path@).len() > 0 && !on_disk && (exists|j: int| 0 <= j < entries@.len() && entry_matches(path@, #[trigger] entries@[j]))
            ==> exists|i: int| #[trigger] is_newest(path@, entries@, i) && (if entries@[i].held {
                r == Ok::<usize, String>(i as usize)
            } else {
                r matches Err(e) && e@ == "the Recycle Bin remembers '"@ + path@ + "' but no longer holds it"@
            }),
{
    if trim(path).len() == 0 {
        return Err(to_string("no path to restore"));
    }
    if on_disk {
        let mut e = to_string("'");
        push_str(&mut e, path);
        push_str(&mut e, "' is on disk already");
        return Err(e);
    }
    let mut best: Option<usize> = None;
    let mut i: usize = 0;
    while i < entries.len()
        invariant
            i <= entries.len(),
            best matches Some(b) ==> b < i && is_newest(path@, entries@.take(i as int), b as int),
            best is None ==> forall|j: int| 0 <= j < i ==> !entry_matches(path@, #[trigger] entries@[j]),
        decreases entries.len() - i,
    {
        let ghost before = entries@.take(i as int);
        let ghost after = entries@.take(i + 1);
        assert(forall|j: int| 0 <= j < i ==> after[j] == before[j]);
        if same_path(entries[i].original.as_str(), path) {
            let take = match best {
                None => true,
                Some(b) => {
                    let (ts, tn) = entries[i].deleted_at;
                    let (bs, bn) = entries[b].deleted_at;
                    ts > bs || (ts == bs && tn > bn)
                },
            };
            if take {
                best = Some(i);
            }
        }
        i += 1;
    }
    assert(entries@.take(entries.len() as int) =~= entries@);
    match best {
        None => {
            let mut e = to_string("'");
            push_str(&mut e, path);
            push_str(&mut e, "' is no longer in the Recycle Bin");
            Err(e)
        },
        Some(b) => {
            assert(is_newest(path@, entries@, b as int));
            if entries[b].held {
                Ok(b)
            } else {
                let mut e = to_string("the Recycle Bin remembers '");
                push_str(&mut e, path);
                push_str(&mut e, "' but no longer holds it");
                Err(e)
            }
        },
    }
}

// ------------------------------------------------------------------------------------
// Writing a metadata file, and reading it back
// ------------------------------------------------------------------------------------

/// `v` in eight bytes, low byte first.
pub open spec fn le64_bytes(v: u64) -> Seq<u8> {
    Seq::new(8, |i: int| ((v >> ((8 * i) as u64)) & 0xff) as u8)
}

/// `v` in four bytes, low byte first.
pub open spec fn le32_bytes(v: u32) -> Seq<u8> {
    Seq::new(4, |i: int| ((v >> ((8 * i) as u32)) & 0xff) as u8)
}

/// UTF-16 units as bytes, each low byte first.
pub open spec fn units_le(u: Seq<u16>) -> Seq<u8> {
    Seq::new(2 * u.len(), |i: int| if i % 2 == 0 { (u[i / 2] & 0xff) as u8 } else { (u[i / 2] >> 8) as u8 })
}

/// A version 2 `$I` file as Windows writes it: the version, the size, when the item was
/// deleted (100ns since 1601), the length of the path in UTF-16 units, the path, a NUL.
pub open spec fn metadata_v2(path: Seq<char>, size: u64, filetime: u64) -> Seq<u8> {
    let u = crate::text::utf16_encode(path);
    le64_bytes(2) + le64_bytes(size) + le64_bytes(filetime) + le32_bytes(u.len() as u32) + units_le(u) + seq![0u8, 0u8]
}

proof fn lemma_le64(v: u64, b: Seq<u8>, at: int)
    requires
        0 <= at,
        at + 8 <= b.len(),
        b.subrange(at, at + 8) == le64_bytes(v),
    ensures
        le_u64_at(b, at) == v,
{
    reveal(le_u64_at);
    let e = le64_bytes(v);
    assert(b[at] == e[0] && b[at + 1] == e[1] && b[at + 2] == e[2] && b[at + 3] == e[3]);
    assert(b[at + 4] == e[4] && b[at + 5] == e[5] && b[at + 6] == e[6] && b[at + 7] == e[7]);
    let (b0, b1, b2, b3) = (e[0], e[1], e[2], e[3]);
    let (b4, b5, b6, b7) = (e[4], e[5], e[6], e[7]);
    assert(b0 == ((v >> 0u64) & 0xff) as u8 && b1 == ((v >> 8u64) & 0xff) as u8);
    assert(b2 == ((v >> 16u64) & 0xff) as u8 && b3 == ((v >> 24u64) & 0xff) as u8);
    assert(b4 == ((v >> 32u64) & 0xff) as u8 && b5 == ((v >> 40u64) & 0xff) as u8);
    assert(b6 == ((v >> 48u64) & 0xff) as u8 && b7 == ((v >> 56u64) & 0xff) as u8);
    assert(v == b0 + 0x100 * b1 + 0x1_0000 * b2 + 0x100_0000 * b3 + 0x1_0000_0000 * b4
        + 0x100_0000_0000 * b5 + 0x1_0000_0000_0000 * b6 + 0x100_0000_0000_0000 * b7)
        by (bit_vector)
        requires
            b0 == ((v >> 0u64) & 0xff) as u8,
            b1 == ((v >> 8u64) & 0xff) as u8,
            b2 == ((v >> 16u64) & 0xff) as u8,
            b3 == ((v >> 24u64) & 0xff) as u8,
            b4 == ((v >> 32u64) & 0xff) as u8,
            b5 == ((v >> 40u64) & 0xff) as u8,
            b6 == ((v >> 48u64) & 0xff) as u8,
            b7 == ((v >> 56u64) & 0xff) as u8,
    ;
}

proof fn lemma_le32(v: u32, b: Seq<u8>, at: int)
    requires
        0 <= at,
        at + 4 <= b.len(),
        b.subrange(at, at + 4) == le32_bytes(v),
    ensures
        le_u32_at(b, at) == v,
{
    let e = le32_bytes(v);
    assert(b[at] == e[0] && b[at + 1] == e[1] && b[at + 2] == e[2] && b[at + 3] == e[3]);
    let (b0, b1, b2, b3) = (e[0], e[1], e[2], e[3]);
    assert(b0 == ((v >> 0u32) & 0xff) as u8 && b1 == ((v >> 8u32) & 0xff) as u8);
    assert(b2 == ((v >> 16u32) & 0xff) as u8 && b3 == ((v >> 24u32) & 0xff) as u8);
    assert(v == b0 + 0x100 * b1 + 0x1_0000 * b2 + 0x100_0000 * b3) by (bit_vector)
        requires
            b0 == ((v >> 0u32) & 0xff) as u8,
            b1 == ((v >> 8u32) & 0xff) as u8,
            b2 == ((v >> 16u32) & 0xff) as u8,
            b3 == ((v >> 24u32) & 0xff) as u8,
    ;
}

proof fn lemma_units_back(u: Seq<u16>)
    ensures
        utf16_units(units_le(u)) == u,
{
    let b = units_le(u);
    assert forall|i: int| 0 <= i < u.len() implies #[trigger] utf16_units(b)[i] == u[i] by {
        let x = u[i];
        let lo = b[2 * i];
        let hi = b[2 * i + 1];
        assert(lo == (x & 0xff) as u8);
        assert(hi == (x >> 8) as u8);
        assert((lo + 0x100 * hi) as u16 == x) by (bit_vector)
            requires
                lo == (x & 0xff) as u8,
                hi == (x >> 8) as u8,
        ;
    }
    assert(utf16_units(b) =~= u);
}

/// The fields of a written file, each where the reader looks for it.
proof fn lemma_metadata_fields(path: Seq<char>, size: u64, filetime: u64)
    requires
        crate::text::utf16_encode(path).len() <= u32::MAX,
    ensures
        ({
            let u = crate::text::utf16_encode(path);
            let b = metadata_v2(path, size, filetime);
            &&& b.len() == 30 + 2 * u.len()
            &&& le_u64_at(b, 0) == 2
            &&& le_u64_at(b, 16) == filetime
            &&& le_u32_at(b, 24) == u.len()
            &&& b.subrange(28, 28 + 2 * (u.len() as int)) == units_le(u)
        }),
{
    let u = crate::text::utf16_encode(path);
    let b = metadata_v2(path, size, filetime);
    let n = u.len() as u32;
    assert(b.subrange(0, 8) =~= le64_bytes(2));
    lemma_le64(2, b, 0);
    assert(b.subrange(16, 24) =~= le64_bytes(filetime));
    lemma_le64(filetime, b, 16);
    assert(b.subrange(24, 28) =~= le32_bytes(n));
    lemma_le32(n, b, 24);
    assert(b.subrange(28, 28 + 2 * (u.len() as int)) =~= units_le(u));
}

/// A path that does not end in NUL is encoded with a last unit that is not NUL.
proof fn lemma_no_trailing_nul(path: Seq<char>)
    requires
        path.len() > 0,
        path.last() != '\0',
    ensures
        strip_nuls(crate::text::utf16_encode(path)) == crate::text::utf16_encode(path),
{
    let u = crate::text::utf16_encode(path);
    let c = path.last();
    let tail = crate::text::utf16_of_char(c);
    assert(u == crate::text::utf16_encode(path.drop_last()) + tail);
    assert(u.last() == tail.last());
    let v = c as u32;
    if v < 0x10000 {
        assert(tail.last() == (v as u16));
        crate::text::lemma_bmp_char(c);
        assert(v != 0) by {
            if v == 0 {
                assert((0u16 as char) == '\0');
            }
        }
        assert((v as u16) != 0) by (bit_vector)
            requires
                v != 0,
                v < 0x10000,
        ;
    } else {
        let w = (v - 0x10000) as u32;
        assert(tail.last() == (0xDC00 + w % 0x400) as u16);
        assert(w % 0x400 < 0x400);
    }
}

/// What Windows writes for a deleted item reads back as that item: its path, and when it
/// was deleted. (A path ending in a NUL char would lose that char, as the reader strips
/// trailing NULs; a path longer than `u32` units cannot be written.)
pub proof fn a_written_metadata_file_reads_back(path: Seq<char>, size: u64, filetime: u64)
    requires
        path.len() > 0,
        path.last() != '\0',
        crate::text::utf16_encode(path).len() <= u32::MAX,
    ensures
        recycled_metadata_spec(metadata_v2(path, size, filetime)) == Some((path, deleted_at_spec(filetime))),
{
    let u = crate::text::utf16_encode(path);
    let b = metadata_v2(path, size, filetime);
    lemma_metadata_fields(path, size, filetime);
    lemma_units_back(u);
    lemma_no_trailing_nul(path);
    crate::text::utf16_round_trip(path);
    assert(recycled_path(b) == Some(path));
}

/// The clock a metadata file keeps: `t` seconds after the Unix epoch, written as 100ns
/// since 1601, reads back as `t` seconds exactly.
pub proof fn the_deletion_time_reads_back(t: u64)
    requires
        (t + EPOCH_DIFF_SECS) * 10_000_000 <= u64::MAX,
    ensures
        deleted_at_spec(((t + EPOCH_DIFF_SECS) * 10_000_000) as u64) == (t, 0u32),
{
    let raw = ((t + EPOCH_DIFF_SECS) * 10_000_000) as u64;
    assert(raw / 10_000_000 == t + EPOCH_DIFF_SECS && raw % 10_000_000 == 0) by (nonlinear_arith)
        requires
            raw == (t + EPOCH_DIFF_SECS) * 10_000_000,
    {
    }
}

/// An item deleted `t` seconds after the Unix epoch, as Windows records it, reads back
/// as its path and `t` seconds exactly.
pub proof fn a_deleted_item_reads_back_with_its_time(path: Seq<char>, size: u64, t: u64)
    requires
        path.len() > 0,
        path.last() != '\0',
        crate::text::utf16_encode(path).len() <= u32::MAX,
        (t + EPOCH_DIFF_SECS) * 10_000_000 <= u64::MAX,
    ensures
        recycled_metadata_spec(metadata_v2(path, size, ((t + EPOCH_DIFF_SECS) * 10_000_000) as u64))
            == Some((path, (t, 0u32))),
{
    let raw = ((t + EPOCH_DIFF_SECS) * 10_000_000) as u64;
    a_written_metadata_file_reads_back(path, size, raw);
    the_deletion_time_reads_back(t);
}

} // verus!
