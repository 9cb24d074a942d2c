//! Icons already resolved, per path, and what a batch still has to resolve.
//!
//! A resolved icon is kept with a stamp of the file it came from (its modification time
//! and length), so a replaced or re-downloaded file refreshes instead of serving the old
//! icon for ever. Reading the stamps and running the resolvers are the caller's.

use vstd::prelude::*;
use crate::overlays::{has_key, key_index, key_pos, keyed_map, keys_distinct, lemma_key_index, lemma_keyed_push, lemma_keyed_update};
use crate::exchange::{lines_of, lines_spec};
use crate::text::{chars_eq, chars_of, ends_with, find_char, first_index_of, string_of_range, to_string, trim, trim_spec};

verus! {

broadcast use vstd::seq_lib::group_seq_properties;

/// A file's stamp: seconds since the epoch it was modified, and its length. Nothing when
/// the file could not be looked at.
pub type Stamp = Option<(u64, u64)>;

/// A resolved icon and the stamp of the file it came from.
pub struct CachedIcon {
    pub data: String,
    pub stamp: Stamp,
}

pub open spec fn cached_view(c: CachedIcon) -> (Seq<char>, Stamp) {
    (c.data@, c.stamp)
}

/// The icons resolved so far, by path.
pub struct IconCache {
    entries: Vec<(String, CachedIcon)>,
}

impl View for IconCache {
    type V = Map<Seq<char>, (Seq<char>, Stamp)>;

    closed spec fn view(&self) -> Map<Seq<char>, (Seq<char>, Stamp)> {
        keyed_map(self.entries@, |c: CachedIcon| cached_view(c))
    }
}

/// The icon cached for `path`, while the file is the one it came from.
pub open spec fn cached_spec(cache: Map<Seq<char>, (Seq<char>, Stamp)>, path: Seq<char>, stamp: Stamp) -> Option<Seq<char>> {
    if cache.contains_key(path) && cache[path].1 == stamp { Some(cache[path].0) } else { None }
}

impl IconCache {
    pub closed spec fn wf(&self) -> bool {
        keys_distinct(self.entries@)
    }

    pub fn new() -> (r: Self)
        ensures
            r.wf(),
            r@ == Map::<Seq<char>, (Seq<char>, Stamp)>::empty(),
    {
        let r = IconCache { entries: Vec::new() };
        assert(r@ =~= Map::<Seq<char>, (Seq<char>, Stamp)>::empty());
        r
    }

    /// Remember the icon resolved for `path`, with the stamp its file has now.
    pub fn cache_icon(&mut self, path: &str, data: &str, stamp: Stamp)
        requires
            old(self).wf(),
        ensures
            final(self).wf(),
            final(self)@ == old(self)@.insert(path@, (data@, stamp)),
    {
        let ghost f = |c: CachedIcon| cached_view(c);
        let entry = CachedIcon { data: to_string(data), stamp };
        match key_pos(&self.entries, path) {
            Some(i) => {
                let ghost before = self.entries@;
                let name = self.entries[i].0.clone();
                self.entries.set(i, (name, entry));
                proof {
                    lemma_keyed_update(before, i as int, self.entries@[i as int], f);
                }
            },
            None => {
                let ghost before = self.entries@;
                self.entries.push((to_string(path), entry));
                proof {
                    lemma_keyed_push(before, self.entries@.last(), f);
                }
            },
        }
    }

    /// The icon cached for `path`, if the file still has the stamp it had then.
    pub fn cached(&self, path: &str, stamp: Stamp) -> (r: Option<String>)
        requires
            self.wf(),
        ensures
            r matches Some(d) ==> cached_spec(self@, path@, stamp) == Some(d@),
            r is None <==> cached_spec(self@, path@, stamp) is None,
    {
        match key_pos(&self.entries, path) {
            Some(i) => {
                proof {
                    lemma_key_index(self.entries@, i as int);
                }
                let same = match (self.entries[i].1.stamp, stamp) {
                    (Some((a, b)), Some((c, d))) => a == c && b == d,
                    (None, None) => true,
                    _ => false,
                };
                if same {
                    Some(self.entries[i].1.data.clone())
                } else {
                    None
                }
            },
            None => None,
        }
    }
}

/// Split a batch into the icons the cache can answer and the paths still to resolve, in
/// order. `force` skips the cache, so an upgrade pass can really try for a crisper icon
/// instead of being handed back the one it wants to replace.
pub fn split_cached(cache: &IconCache, paths: &[String], stamps: &[Stamp], force: bool) -> (r: (Vec<(String, String)>, Vec<String>))
    requires
        cache.wf(),
        stamps@.len() == paths@.len(),
    ensures
        r.0@.map_values(|h: (String, String)| (h.0@, h.1@)) == hits_spec(cache@, paths@, stamps@, force, paths@.len() as int),
        r.1@.map_values(|p: String| p@) == needed_spec(cache@, paths@, stamps@, force, paths@.len() as int),
{
    let mut hits: Vec<(String, String)> = Vec::new();
    let mut needed: Vec<String> = Vec::new();
    let mut i: usize = 0;
    while i < paths.len()
        invariant
            i <= paths.len() == stamps.len(),
            cache.wf(),
            hits@.map_values(|h: (String, String)| (h.0@, h.1@)) == hits_spec(cache@, paths@, stamps@, force, i as int),
            needed@.map_values(|p: String| p@) == needed_spec(cache@, paths@, stamps@, force, i as int),
        decreases paths.len() - i,
    {
        let ghost hb = hits@;
        let ghost nb = needed@;
        let hit = if force { None } else { cache.cached(paths[i].as_str(), stamps[i]) };
        match hit {
            Some(d) => {
                let p = paths[i].clone();
                hits.push((p, d));
                assert(hits@.map_values(|h: (String, String)| (h.0@, h.1@)) =~= hb.map_values(|h: (String, String)| (h.0@, h.1@)).push((paths@[i as int]@, d@)));
            },
            None => {
                let p = paths[i].clone();
                needed.push(p);
                assert(needed@.map_values(|p: String| p@) =~= nb.map_values(|p: String| p@).push(paths@[i as int]@));
            },
        }
        i += 1;
    }
    (hits, needed)
}

/// The icons of the first `n` paths the cache answers.
pub open spec fn hits_spec(cache: Map<Seq<char>, (Seq<char>, Stamp)>, paths: Seq<String>, stamps: Seq<Stamp>, force: bool, n: int) -> Seq<(Seq<char>, Seq<char>)>
    decreases n,
{
    if n <= 0 {
        seq![]
    } else {
        let prev = hits_spec(cache, paths, stamps, force, n - 1);
        match (if force { None } else { cached_spec(cache, paths[n - 1]@, stamps[n - 1]) }) {
            Some(d) => prev.push((paths[n - 1]@, d)),
            None => prev,
        }
    }
}

/// The first `n` paths the cache cannot answer.
pub open spec fn needed_spec(cache: Map<Seq<char>, (Seq<char>, Stamp)>, paths: Seq<String>, stamps: Seq<Stamp>, force: bool, n: int) -> Seq<Seq<char>>
    decreases n,
{
    if n <= 0 {
        seq![]
    } else {
        let prev = needed_spec(cache, paths, stamps, force, n - 1);
        match (if force { None } else { cached_spec(cache, paths[n - 1]@, stamps[n - 1]) }) {
            Some(_) => prev,
            None => prev.push(paths[n - 1]@),
        }
    }
}

/// How an icon can be had without a shell round trip.
#[derive(Clone, Copy, Debug, PartialEq, Eq, Structural)]
pub enum FastRoute {
    /// An internet shortcut: its `IconFile=` entry.
    Url,
    /// An icon file itself.
    Ico,
    /// Neither: the shell has to be asked.
    Shell,
}

/// The fast route for a path, by its extension as the shell writes it (`.url`/`.URL`,
/// `.ico`/`.ICO`).
pub fn fast_route(path: &str) -> (r: FastRoute)
    ensures
        (crate::text::has_suffix(path@, ".url"@) || crate::text::has_suffix(path@, ".URL"@)) ==> r is Url,
        !(crate::text::has_suffix(path@, ".url"@) || crate::text::has_suffix(path@, ".URL"@))
            && (crate::text::has_suffix(path@, ".ico"@) || crate::text::has_suffix(path@, ".ICO"@)) ==> r is Ico,
        !(crate::text::has_suffix(path@, ".url"@) || crate::text::has_suffix(path@, ".URL"@))
            && !(crate::text::has_suffix(path@, ".ico"@) || crate::text::has_suffix(path@, ".ICO"@)) ==> r is Shell,
{
    let v = chars_of(path);
    if ends_with(&v, &chars_of(".url")) || ends_with(&v, &chars_of(".URL")) {
        FastRoute::Url
    } else if ends_with(&v, &chars_of(".ico")) || ends_with(&v, &chars_of(".ICO")) {
        FastRoute::Ico
    } else {
        FastRoute::Shell
    }
}

/// What a resolution gave for one path: nothing when there was no answer, or when the
/// answer was that there is no icon.
pub fn resolve_icon_url(resolved: Option<&str>) -> (r: Option<String>)
    ensures
        (match resolved { Some(s) => s@ != "none"@, None => false }) ==> (r matches Some(u) && u@ == resolved->0@),
        !(match resolved { Some(s) => s@ != "none"@, None => false }) ==> r is None,
{
    match resolved {
        Some(s) => {
            if chars_eq(&chars_of(s), &chars_of("none")) {
                None
            } else {
                Some(to_string(s))
            }
        },
        None => None,
    }
}

/// A cached icon is served while the file keeps its stamp, and a changed file misses.
pub proof fn a_cached_icon_lasts_while_the_file_does(cache: Map<Seq<char>, (Seq<char>, Stamp)>, path: Seq<char>, data: Seq<char>, stamp: Stamp, now: Stamp)
    ensures
        cached_spec(cache.insert(path, (data, stamp)), path, stamp) == Some(data),
        now != stamp ==> cached_spec(cache.insert(path, (data, stamp)), path, now) is None,
{
}

// ------------------------------------------------------------------------------------
// The resolver's reply
// ------------------------------------------------------------------------------------

/// One line of the resolver's reply: without surrounding white space, the path before
/// the first `|` and the answer after it (`none`, or the icon's base64); nothing for a
/// line without a `|`.
pub open spec fn reply_line(line: Seq<char>) -> Option<(Seq<char>, Seq<char>)> {
    let t = trim_spec(line);
    match first_index_of(t, '|') {
        Some(i) => Some((t.take(i), t.skip(i + 1))),
        None => None,
    }
}

/// The answers in the resolver's reply, in order.
pub open spec fn reply_spec(lines: Seq<Seq<char>>) -> Seq<(Seq<char>, Seq<char>)>
    decreases lines.len(),
{
    if lines.len() == 0 {
        seq![]
    } else {
        let prev = reply_spec(lines.drop_last());
        match reply_line(lines.last()) {
            Some(a) => prev.push(a),
            None => prev,
        }
    }
}

pub open spec fn pairs_view(v: Seq<(String, String)>) -> Seq<(Seq<char>, Seq<char>)> {
    Seq::new(v.len(), |i: int| (v[i].0@, v[i].1@))
}

/// Read the resolver's reply: (path, answer) for every line that has one.
pub fn parse_icon_reply(raw: &str) -> (r: Vec<(String, String)>)
    ensures
        pairs_view(r@) == reply_spec(lines_spec(raw@)),
{
    let lines = lines_of(raw);
    let ghost ls = lines@.map_values(|l: String| l@);
    let mut out: Vec<(String, String)> = Vec::new();
    let mut k: usize = 0;
    while k < lines.len()
        invariant
            k <= lines@.len(),
            ls == lines@.map_values(|l: String| l@),
            ls == lines_spec(raw@),
            pairs_view(out@) == reply_spec(ls.take(k as int)),
        decreases lines.len() - k,
    {
        proof {
            assert(ls.take(k + 1).drop_last() =~= ls.take(k as int));
            assert(ls.take(k + 1).last() == lines@[k as int]@);
        }
        let t = trim(lines[k].as_str());
        match find_char(&t, '|') {
            Some(i) => {
                let path = string_of_range(&t, 0, i);
                let answer = string_of_range(&t, i + 1, t.len());
                let ghost before = out@;
                proof {
                    assert(t@.take(i as int) =~= t@.subrange(0, i as int));
                    assert(t@.skip(i + 1) =~= t@.subrange(i + 1, t@.len() as int));
                }
                out.push((path, answer));
                assert(pairs_view(out@) =~= pairs_view(before).push((out@.last().0@, out@.last().1@)));
            },
            None => {},
        }
        k += 1;
    }
    assert(ls.take(lines@.len() as int) =~= ls);
    out
}

} // verus!
