//! What the launcher searches, and what a search gives back.
//!
//! Three sources: every floatie's record, so a note or a clock is reachable by name; the
//! entries of the pointed root; and the applications a scan of the Start Menu found. One
//! desktop entry, one row: a floatie claims its own path and caption first, and the same
//! thing found another way is skipped rather than drawn twice. Listing the root,
//! scanning for apps and resolving icons are the caller's.

use vstd::prelude::*;
use crate::folders::{field, field_spec, WidgetRecord};
use crate::icons::{is_stored_url, is_stored_url_spec};
use crate::palette::{bucket, caption_spec, palette_caption, rank, rank_spec, ranked, scores_of, PaletteHit, MAX_HITS};
use crate::plugins::{builtin_index, builtin_names, def_matches, desktop_facts, find, path_key, plugins, strings, InstalledPlugin};
use crate::text::{chars_eq, chars_of, lowercase, to_lowercase, to_string, trim, trim_spec};

verus! {

broadcast use vstd::seq_lib::group_seq_properties;

/// An application a scan found: its name and the shortcut that starts it.
#[derive(Clone, Debug)]
pub struct DiscoveredApp {
    pub name: String,
    pub path: String,
}

/// One entry of the pointed root.
pub struct Listed {
    pub name: String,
    pub path: String,
    pub is_dir: bool,
}

pub open spec fn opt_string(o: Option<String>) -> Option<Seq<char>> {
    match o {
        Some(s) => Some(s@),
        None => None,
    }
}

pub type HitView = (Seq<char>, Seq<char>, Seq<char>, Seq<char>, Option<Seq<char>>, Option<Seq<char>>);

pub open spec fn hit_view(h: PaletteHit) -> HitView {
    (h.kind@, h.title@, h.subtitle@, h.icon@, opt_string(h.id), opt_string(h.path))
}

/// The rows gathered so far, each with the text it is ranked by, and the paths and
/// captions already claimed (lower-cased).
pub struct Gather {
    pub rows: Seq<(Seq<char>, HitView)>,
    pub paths: Seq<Seq<char>>,
    pub titles: Seq<Seq<char>>,
}

/// The name a kind goes by: a built-in's own name, else the kind itself.
pub open spec fn kind_label(kind: Seq<char>) -> Seq<char> {
    match builtin_index(kind) {
        Some(i) => builtin_names()[i],
        None => kind,
    }
}

/// The path a record stands for, as its data holds it.
pub open spec fn record_key_path(installed: Seq<InstalledPlugin>, r: WidgetRecord) -> Option<Seq<char>> {
    match desktop_facts(installed, r.kind@) {
        Some((key, _)) => field_spec(r.text@, key),
        None => None,
    }
}

/// A floatie's row, unless its kind is switched off or its path is already claimed.
pub open spec fn record_step(installed: Seq<InstalledPlugin>, disabled: Seq<Seq<char>>, g: Gather, r: WidgetRecord) -> Gather {
    let path = record_key_path(installed, r);
    if disabled.contains(r.kind@) || (path matches Some(p) && g.paths.contains(lowercase(p))) {
        g
    } else {
        let label = kind_label(r.kind@);
        let name = match field_spec(r.text@, "name"@) {
            Some(n) => if trim_spec(n).len() > 0 { n } else { label },
            None => label,
        };
        let icon = match field_spec(r.text@, "icon"@) {
            Some(i) => if is_stored_url_spec(i) { i } else { ""@ },
            None => ""@,
        };
        let title = caption_spec(name, r.kind@ == "folder"@);
        let subtitle = if label.len() == 0 { "on your desktop"@ } else { label };
        Gather {
            rows: g.rows.push((title, ("floatie"@, title, subtitle, icon, Some(r.id@), path))),
            paths: g.paths.push(lowercase(match path { Some(p) => p, None => ""@ })),
            titles: g.titles.push(lowercase(title)),
        }
    }
}

/// An entry of the root's row, unless its path or caption is already claimed. It is
/// ranked by its file name.
pub open spec fn listed_step(root: Seq<char>, g: Gather, e: Listed) -> Gather {
    let title = caption_spec(e.name@, e.is_dir);
    if g.paths.contains(lowercase(e.path@)) || g.titles.contains(lowercase(title)) {
        g
    } else {
        Gather {
            rows: g.rows.push((e.name@, (if e.is_dir { "folder"@ } else { "file"@ }, title, root, ""@, None, Some(e.path@)))),
            paths: g.paths.push(lowercase(e.path@)),
            titles: g.titles.push(lowercase(title)),
        }
    }
}

/// An application's row, unless its path or caption is already claimed.
pub open spec fn app_step(g: Gather, a: DiscoveredApp) -> Gather {
    let title = caption_spec(a.name@, false);
    if g.paths.contains(lowercase(a.path@)) || g.titles.contains(lowercase(title)) {
        g
    } else {
        Gather {
            rows: g.rows.push((title, ("app"@, title, a.path@, ""@, None, Some(a.path@)))),
            titles: g.titles.push(lowercase(title)),
            ..g
        }
    }
}

pub open spec fn records_fold(installed: Seq<InstalledPlugin>, disabled: Seq<Seq<char>>, g: Gather, rs: Seq<WidgetRecord>) -> Gather
    decreases rs.len(),
{
    if rs.len() == 0 {
        g
    } else {
        record_step(installed, disabled, records_fold(installed, disabled, g, rs.drop_last()), rs.last())
    }
}

pub open spec fn listed_fold(root: Seq<char>, g: Gather, es: Seq<Listed>) -> Gather
    decreases es.len(),
{
    if es.len() == 0 {
        g
    } else {
        listed_step(root, listed_fold(root, g, es.drop_last()), es.last())
    }
}

pub open spec fn apps_fold(g: Gather, apps: Seq<DiscoveredApp>) -> Gather
    decreases apps.len(),
{
    if apps.len() == 0 {
        g
    } else {
        app_step(apps_fold(g, apps.drop_last()), apps.last())
    }
}

pub open spec fn empty_gather() -> Gather {
    Gather { rows: seq![], paths: seq![], titles: seq![] }
}

/// Every row the launcher can offer, in the order the desktop lists them: the floaties,
/// then the root's entries (when a root is pointed at, with its display name), then the
/// applications.
pub open spec fn candidates_spec(
    installed: Seq<InstalledPlugin>,
    disabled: Seq<Seq<char>>,
    records: Seq<WidgetRecord>,
    root: Option<(Seq<char>, Seq<Listed>)>,
    apps: Seq<DiscoveredApp>,
) -> Seq<(Seq<char>, HitView)> {
    let g1 = records_fold(installed, disabled, empty_gather(), records);
    let g2 = match root {
        Some((display, es)) => listed_fold(display, g1, es),
        None => g1,
    };
    apps_fold(g2, apps).rows
}

/// The claimed captions are the rows' captions, lower-cased, and no row that is not a
/// floatie repeats the caption of a row before it.
pub open spec fn captions_once(g: Gather) -> bool {
    &&& g.titles.len() == g.rows.len()
    &&& forall|j: int| 0 <= j < g.rows.len() ==> g.titles[j] == lowercase((#[trigger] g.rows[j]).1.1)
    &&& forall|j: int, k: int| 0 <= j < k < g.rows.len() && g.rows[k].1.0 != "floatie"@
        ==> lowercase((#[trigger] g.rows[j]).1.1) != lowercase((#[trigger] g.rows[k]).1.1)
}

proof fn lemma_push_keeps_captions(g: Gather, row: (Seq<char>, HitView), h: Gather)
    requires
        captions_once(g),
        h.rows == g.rows.push(row),
        h.titles == g.titles.push(lowercase(row.1.1)),
        row.1.0 != "floatie"@ ==> !g.titles.contains(lowercase(row.1.1)),
    ensures
        captions_once(h),
{
    let n = g.rows.len() as int;
    assert forall|j: int| 0 <= j < h.rows.len() implies h.titles[j] == lowercase((#[trigger] h.rows[j]).1.1) by {
        if j < n {
            assert(h.rows[j] == g.rows[j]);
        }
    }
    assert forall|j: int, k: int| 0 <= j < k < h.rows.len() && h.rows[k].1.0 != "floatie"@
        implies lowercase((#[trigger] h.rows[j]).1.1) != lowercase((#[trigger] h.rows[k]).1.1) by {
        assert(h.rows[j] == g.rows[j]);
        if k == n {
            assert(g.titles[j] == lowercase(g.rows[j].1.1));
        } else {
            assert(h.rows[k] == g.rows[k]);
        }
    }
}

proof fn lemma_records_captions(installed: Seq<InstalledPlugin>, disabled: Seq<Seq<char>>, g: Gather, rs: Seq<WidgetRecord>)
    requires
        captions_once(g),
    ensures
        captions_once(records_fold(installed, disabled, g, rs)),
    decreases rs.len(),
{
    if rs.len() > 0 {
        lemma_records_captions(installed, disabled, g, rs.drop_last());
        let p = records_fold(installed, disabled, g, rs.drop_last());
        let h = record_step(installed, disabled, p, rs.last());
        if h != p {
            lemma_push_keeps_captions(p, h.rows.last(), h);
        }
    }
}

proof fn lemma_listed_captions(root: Seq<char>, g: Gather, es: Seq<Listed>)
    requires
        captions_once(g),
    ensures
        captions_once(listed_fold(root, g, es)),
    decreases es.len(),
{
    if es.len() > 0 {
        lemma_listed_captions(root, g, es.drop_last());
        let p = listed_fold(root, g, es.drop_last());
        let h = listed_step(root, p, es.last());
        if h != p {
            lemma_push_keeps_captions(p, h.rows.last(), h);
        }
    }
}

proof fn lemma_apps_captions(g: Gather, apps: Seq<DiscoveredApp>)
    requires
        captions_once(g),
    ensures
        captions_once(apps_fold(g, apps)),
    decreases apps.len(),
{
    if apps.len() > 0 {
        lemma_apps_captions(g, apps.drop_last());
        let p = apps_fold(g, apps.drop_last());
        let h = app_step(p, apps.last());
        if h != p {
            lemma_push_keeps_captions(p, h.rows.last(), h);
        }
    }
}

/// One desktop entry, one row: an entry of the root or an application is offered only
/// under a caption (compared lower-cased) that no row before it has, so the same thing
/// found a second way is not drawn twice.
pub proof fn no_caption_is_offered_twice(
    installed: Seq<InstalledPlugin>,
    disabled: Seq<Seq<char>>,
    records: Seq<WidgetRecord>,
    root: Option<(Seq<char>, Seq<Listed>)>,
    apps: Seq<DiscoveredApp>,
)
    ensures
        ({
            let rows = candidates_spec(installed, disabled, records, root, apps);
            forall|j: int, k: int| 0 <= j < k < rows.len() && rows[k].1.0 != "floatie"@
                ==> lowercase((#[trigger] rows[j]).1.1) != lowercase((#[trigger] rows[k]).1.1)
        }),
{
    assert(captions_once(empty_gather()));
    lemma_records_captions(installed, disabled, empty_gather(), records);
    let g1 = records_fold(installed, disabled, empty_gather(), records);
    match root {
        Some((display, es)) => lemma_listed_captions(display, g1, es),
        None => {},
    }
    let g2 = match root {
        Some((display, es)) => listed_fold(display, g1, es),
        None => g1,
    };
    lemma_apps_captions(g2, apps);
}

// ------------------------------------------------------------------------------------

pub(crate) fn claimed(list: &Vec<String>, s: &String) -> (r: bool)
    ensures
        r == strings(list@).contains(s@),
{
    let mut i: usize = 0;
    while i < list.len()
        invariant
            i <= list.len(),
            forall|j: int| 0 <= j < i ==> strings(list@)[j] != s@,
        decreases list.len() - i,
    {
        if list[i] == *s {
            assert(strings(list@)[i as int] == s@);
            return true;
        }
        i += 1;
    }
    false
}

/// A built-in's display name.
fn builtin_name(kind: &str) -> (r: Option<String>)
    ensures
        r matches Some(n) ==> builtin_index(kind@) matches Some(i) && n@ == builtin_names()[i],
        r is None <==> builtin_index(kind@) is None,
{
    match find(kind) {
        Some(i) => {
            let defs = plugins();
            assert(def_matches(defs@[i as int], i as int));
            Some(to_string(defs[i].name))
        },
        None => None,
    }
}

fn copy_hit(h: &PaletteHit) -> (r: PaletteHit)
    ensures
        hit_view(r) == hit_view(*h),
{
    PaletteHit {
        kind: h.kind.clone(),
        title: h.title.clone(),
        subtitle: h.subtitle.clone(),
        icon: h.icon.clone(),
        id: match &h.id {
            Some(s) => Some(s.clone()),
            None => None,
        },
        path: match &h.path {
            Some(s) => Some(s.clone()),
            None => None,
        },
    }
}

pub open spec fn rows_view(rows: Seq<(String, PaletteHit)>) -> Seq<(Seq<char>, HitView)> {
    Seq::new(rows.len(), |i: int| (rows[i].0@, hit_view(rows[i].1)))
}

pub open spec fn gather_of(rows: Seq<(String, PaletteHit)>, paths: Seq<String>, titles: Seq<String>) -> Gather {
    Gather { rows: rows_view(rows), paths: strings(paths), titles: strings(titles) }
}

fn push_row(
    rows: &mut Vec<(String, PaletteHit)>,
    key: String,
    hit: PaletteHit,
)
    ensures
        rows_view(final(rows)@) == rows_view(old(rows)@).push((key@, hit_view(hit))),
{
    let ghost before = rows@;
    let ghost kv = (key@, hit_view(hit));
    rows.push((key, hit));
    assert(rows_view(rows@) =~= rows_view(before).push(kv));
}

fn push_claim(list: &mut Vec<String>, s: String)
    ensures
        strings(final(list)@) == strings(old(list)@).push(s@),
{
    let ghost before = list@;
    let ghost v = s@;
    list.push(s);
    assert(strings(list@) =~= strings(before).push(v));
}

fn record_row(
    installed: &[InstalledPlugin],
    disabled: &[String],
    r: &WidgetRecord,
    rows: &mut Vec<(String, PaletteHit)>,
    paths: &mut Vec<String>,
    titles: &mut Vec<String>,
)
    ensures
        gather_of(final(rows)@, final(paths)@, final(titles)@)
            == record_step(installed@, strings(disabled@), gather_of(old(rows)@, old(paths)@, old(titles)@), *r),
{
    let mut off = false;
    let mut i: usize = 0;
    while i < disabled.len()
        invariant
            i <= disabled@.len(),
            off == strings(disabled@).take(i as int).contains(r.kind@),
        decreases disabled.len() - i,
    {
        proof {
            assert(strings(disabled@).take(i + 1) =~= strings(disabled@).take(i as int).push(disabled@[i as int]@));
        }
        if disabled[i] == r.kind {
            off = true;
        }
        i += 1;
    }
    assert(strings(disabled@).take(disabled@.len() as int) =~= strings(disabled@));
    if off {
        return;
    }
    let path: Option<String> = match path_key(installed, r.kind.as_str()) {
        Some(k) => field(&r.text, k.as_str()),
        None => None,
    };
    let lowered: String = match &path {
        Some(p) => to_lowercase(p.as_str()),
        None => to_lowercase(""),
    };
    let taken = match &path {
        Some(_) => claimed(paths, &lowered),
        None => false,
    };
    if taken {
        return;
    }
    let label = match builtin_name(r.kind.as_str()) {
        Some(n) => n,
        None => r.kind.clone(),
    };
    let name = match field(&r.text, "name") {
        Some(n) => if trim(n.as_str()).len() > 0 { n } else { label.clone() },
        None => label.clone(),
    };
    let icon = match field(&r.text, "icon") {
        Some(i) => if is_stored_url(i.as_str()) { i } else { to_string("") },
        None => to_string(""),
    };
    let is_folder = chars_eq(&chars_of(r.kind.as_str()), &chars_of("folder"));
    let title = palette_caption(name.as_str(), is_folder);
    let subtitle = if chars_of(label.as_str()).len() == 0 { to_string("on your desktop") } else { label };
    let lowered_title = to_lowercase(title.as_str());
    let hit = PaletteHit {
        kind: to_string("floatie"),
        title: title.clone(),
        subtitle,
        icon,
        id: Some(r.id.clone()),
        path,
    };
    push_row(rows, title, hit);
    push_claim(paths, lowered);
    push_claim(titles, lowered_title);
}

fn listed_row(
    root: &str,
    e: &Listed,
    rows: &mut Vec<(String, PaletteHit)>,
    paths: &mut Vec<String>,
    titles: &mut Vec<String>,
)
    ensures
        gather_of(final(rows)@, final(paths)@, final(titles)@)
            == listed_step(root@, gather_of(old(rows)@, old(paths)@, old(titles)@), *e),
{
    let title = palette_caption(e.name.as_str(), e.is_dir);
    let lp = to_lowercase(e.path.as_str());
    let lt = to_lowercase(title.as_str());
    if claimed(paths, &lp) || claimed(titles, &lt) {
        return;
    }
    let hit = PaletteHit {
        kind: to_string(if e.is_dir { "folder" } else { "file" }),
        title,
        subtitle: to_string(root),
        icon: to_string(""),
        id: None,
        path: Some(e.path.clone()),
    };
    push_row(rows, e.name.clone(), hit);
    push_claim(paths, lp);
    push_claim(titles, lt);
}

fn app_row(
    a: &DiscoveredApp,
    rows: &mut Vec<(String, PaletteHit)>,
    paths: &Vec<String>,
    titles: &mut Vec<String>,
)
    ensures
        gather_of(final(rows)@, paths@, final(titles)@) == app_step(gather_of(old(rows)@, paths@, old(titles)@), *a),
{
    let title = palette_caption(a.name.as_str(), false);
    let lp = to_lowercase(a.path.as_str());
    let lt = to_lowercase(title.as_str());
    if claimed(paths, &lp) || claimed(titles, &lt) {
        return;
    }
    let hit = PaletteHit {
        kind: to_string("app"),
        title: title.clone(),
        subtitle: a.path.clone(),
        icon: to_string(""),
        id: None,
        path: Some(a.path.clone()),
    };
    push_row(rows, title, hit);
    push_claim(titles, lt);
}

/// Every row the launcher can offer, each with the text it is ranked by.
#[verifier::rlimit(40)]
pub fn candidates(
    installed: &[InstalledPlugin],
    disabled: &[String],
    records: &Vec<WidgetRecord>,
    root: Option<(&str, &Vec<Listed>)>,
    apps: &Vec<DiscoveredApp>,
) -> (r: Vec<(String, PaletteHit)>)
    ensures
        rows_view(r@) == candidates_spec(
            installed@,
            strings(disabled@),
            records@,
            match root { Some((d, es)) => Some((d@, es@)), None => None },
            apps@,
        ),
{
    let ghost dis = strings(disabled@);
    let mut rows: Vec<(String, PaletteHit)> = Vec::new();
    let mut paths: Vec<String> = Vec::new();
    let mut titles: Vec<String> = Vec::new();
    assert(gather_of(rows@, paths@, titles@) =~= empty_gather()) by {
        assert(rows_view(rows@) =~= Seq::<(Seq<char>, HitView)>::empty());
        assert(strings(paths@) =~= Seq::<Seq<char>>::empty());
        assert(strings(titles@) =~= Seq::<Seq<char>>::empty());
    }
    let mut i: usize = 0;
    while i < records.len()
        invariant
            i <= records@.len(),
            dis == strings(disabled@),
            gather_of(rows@, paths@, titles@) == records_fold(installed@, dis, empty_gather(), records@.take(i as int)),
        decreases records.len() - i,
    {
        proof {
            assert(records@.take(i + 1).drop_last() =~= records@.take(i as int));
        }
        record_row(installed, disabled, &records[i], &mut rows, &mut paths, &mut titles);
        i += 1;
    }
    assert(records@.take(records@.len() as int) =~= records@);
    let ghost g1 = gather_of(rows@, paths@, titles@);
    match root {
        Some((display, es)) => {
            let mut k: usize = 0;
            while k < es.len()
                invariant
                    k <= es@.len(),
                    gather_of(rows@, paths@, titles@) == listed_fold(display@, g1, es@.take(k as int)),
                decreases es.len() - k,
            {
                proof {
                    assert(es@.take(k + 1).drop_last() =~= es@.take(k as int));
                }
                listed_row(display, &es[k], &mut rows, &mut paths, &mut titles);
                k += 1;
            }
            assert(es@.take(es@.len() as int) =~= es@);
        },
        None => {},
    }
    let ghost g2 = gather_of(rows@, paths@, titles@);
    let mut j: usize = 0;
    while j < apps.len()
        invariant
            j <= apps@.len(),
            gather_of(rows@, paths@, titles@) == apps_fold(g2, apps@.take(j as int)),
        decreases apps.len() - j,
    {
        proof {
            assert(apps@.take(j + 1).drop_last() =~= apps@.take(j as int));
        }
        app_row(&apps[j], &mut rows, &paths, &mut titles);
        j += 1;
    }
    assert(apps@.take(apps@.len() as int) =~= apps@);
    rows
}

// ------------------------------------------------------------------------------------
// The answer to a search
// ------------------------------------------------------------------------------------

pub open spec fn hits_view(hits: Seq<PaletteHit>) -> Seq<HitView> {
    Seq::new(hits.len(), |i: int| hit_view(hits[i]))
}

pub open spec fn keys_of(rows: Seq<(String, PaletteHit)>) -> Seq<String> {
    Seq::new(rows.len(), |i: int| rows[i].0)
}

/// The rows a search returns, best first, at most [`MAX_HITS`].
pub open spec fn ranked_hits_spec(query: Seq<char>, rows: Seq<(String, PaletteHit)>) -> Seq<HitView> {
    let order = rank_spec(query, keys_of(rows), MAX_HITS as nat);
    Seq::new(order.len(), |i: int| hit_view(rows[order[i] as int].1))
}

proof fn lemma_bucket_bound(scores: Seq<Option<u8>>, s: u8, n: int)
    requires
        0 <= n <= scores.len(),
    ensures
        forall|k: int| 0 <= k < bucket(scores, s, n).len() ==> #[trigger] bucket(scores, s, n)[k] < n,
    decreases n,
{
    if n > 0 {
        lemma_bucket_bound(scores, s, n - 1);
        let prev = bucket(scores, s, n - 1);
        let b = bucket(scores, s, n);
        assert forall|k: int| 0 <= k < b.len() implies #[trigger] b[k] < n by {
            if scores[n - 1] == Some(s) {
                assert(b == prev.push((n - 1) as usize));
                if k < prev.len() {
                    assert(b[k] == prev[k]);
                }
            } else {
                assert(b == prev);
            }
        }
    }
}

proof fn lemma_rank_bound(query: Seq<char>, keys: Seq<String>, limit: nat)
    ensures
        forall|k: int| 0 <= k < rank_spec(query, keys, limit).len() ==> #[trigger] rank_spec(query, keys, limit)[k] < keys.len(),
{
    let sc = scores_of(query, keys);
    let n = sc.len() as int;
    lemma_bucket_bound(sc, 0, n);
    lemma_bucket_bound(sc, 1, n);
    lemma_bucket_bound(sc, 2, n);
    lemma_bucket_bound(sc, 3, n);
    lemma_bucket_bound(sc, 4, n);
    let all = ranked(sc);
    assert forall|k: int| 0 <= k < all.len() implies #[trigger] all[k] < keys.len() by {
        let b0 = bucket(sc, 0, n);
        let b1 = bucket(sc, 1, n);
        let b2 = bucket(sc, 2, n);
        let b3 = bucket(sc, 3, n);
        let b4 = bucket(sc, 4, n);
        if k < b0.len() {
            assert(all[k] == b0[k]);
        } else if k < b0.len() + b1.len() {
            assert(all[k] == b1[k - b0.len()]);
        } else if k < b0.len() + b1.len() + b2.len() {
            assert(all[k] == b2[k - b0.len() - b1.len()]);
        } else if k < b0.len() + b1.len() + b2.len() + b3.len() {
            assert(all[k] == b3[k - b0.len() - b1.len() - b2.len()]);
        } else {
            assert(all[k] == b4[k - b0.len() - b1.len() - b2.len() - b3.len()]);
        }
    }
}

/// The rows that answer `query`, best first, at most [`MAX_HITS`].
pub fn ranked_hits(query: &str, rows: &Vec<(String, PaletteHit)>) -> (r: Vec<PaletteHit>)
    ensures
        hits_view(r@) == ranked_hits_spec(query@, rows@),
{
    let mut keys: Vec<String> = Vec::new();
    let mut i: usize = 0;
    while i < rows.len()
        invariant
            i <= rows@.len(),
            keys@.len() == i,
            forall|j: int| 0 <= j < i ==> (#[trigger] keys@[j])@ == rows@[j].0@,
        decreases rows.len() - i,
    {
        keys.push(rows[i].0.clone());
        i += 1;
    }
    let order = rank(query, keys.as_slice(), MAX_HITS);
    proof {
        assert(scores_of(query@, keys@) =~= scores_of(query@, keys_of(rows@)));
        lemma_rank_bound(query@, keys_of(rows@), MAX_HITS as nat);
    }
    let ghost want = ranked_hits_spec(query@, rows@);
    let mut out: Vec<PaletteHit> = Vec::new();
    let mut k: usize = 0;
    while k < order.len()
        invariant
            k <= order@.len(),
            order@ == rank_spec(query@, keys_of(rows@), MAX_HITS as nat),
            forall|j: int| 0 <= j < order@.len() ==> #[trigger] order@[j] < rows@.len(),
            want == ranked_hits_spec(query@, rows@),
            hits_view(out@) =~= want.take(k as int),
        decreases order.len() - k,
    {
        let idx = order[k];
        assert(order@[k as int] < rows@.len());
        let h = copy_hit(&rows[idx].1);
        let ghost before = out@;
        out.push(h);
        assert(hits_view(out@) =~= hits_view(before).push(hit_view(h)));
        assert(want.take(k + 1) =~= want.take(k as int).push(want[k as int]));
        k += 1;
    }
    assert(want.take(order@.len() as int) =~= want);
    out
}

/// The paths whose icons a search still has to resolve: those of the rows drawn without
/// one.
pub open spec fn wanted_spec(hits: Seq<HitView>) -> Seq<Seq<char>>
    decreases hits.len(),
{
    if hits.len() == 0 {
        seq![]
    } else {
        let h = hits.last();
        let prev = wanted_spec(hits.drop_last());
        match h.5 {
            Some(p) => if h.3.len() == 0 { prev.push(p) } else { prev },
            None => prev,
        }
    }
}

pub fn wanted_icons(hits: &Vec<PaletteHit>) -> (r: Vec<String>)
    ensures
        strings(r@) == wanted_spec(hits_view(hits@)),
{
    let mut out: Vec<String> = Vec::new();
    let mut i: usize = 0;
    while i < hits.len()
        invariant
            i <= hits@.len(),
            strings(out@) == wanted_spec(hits_view(hits@).take(i as int)),
        decreases hits.len() - i,
    {
        proof {
            assert(hits_view(hits@).take(i + 1).drop_last() =~= hits_view(hits@).take(i as int));
        }
        let h = &hits[i];
        if chars_of(h.icon.as_str()).len() == 0 {
            match &h.path {
                Some(p) => {
                    push_claim(&mut out, p.clone());
                },
                None => {},
            }
        }
        i += 1;
    }
    assert(hits_view(hits@).take(hits@.len() as int) =~= hits_view(hits@));
    out
}

/// The icon resolved for `path`, among `icons` (path, icon): the first pairing.
pub open spec fn icon_for(icons: Seq<(String, String)>, path: Seq<char>) -> Option<Seq<char>> {
    if exists|i: int| 0 <= i < icons.len() && (#[trigger] icons[i]).0@ == path {
        Some(icons[choose|i: int| 0 <= i < icons.len() && (#[trigger] icons[i]).0@ == path
            && forall|j: int| 0 <= j < i ==> icons[j].0@ != path].1@)
    } else {
        None
    }
}

fn icon_lookup(icons: &Vec<(String, String)>, path: &String) -> (r: Option<String>)
    ensures
        r matches Some(s) ==> icon_for(icons@, path@) == Some(s@),
        r is None <==> icon_for(icons@, path@) is None,
{
    let mut i: usize = 0;
    while i < icons.len()
        invariant
            i <= icons@.len(),
            forall|j: int| 0 <= j < i ==> icons@[j].0@ != path@,
        decreases icons.len() - i,
    {
        if icons[i].0 == *path {
            proof {
                let w = choose|w: int| 0 <= w < icons@.len() && (#[trigger] icons@[w]).0@ == path@
                    && forall|j: int| 0 <= j < w ==> icons@[j].0@ != path@;
                assert(icons@[i as int].0@ == path@);
                assert(w == i) by {
                    if w > i {
                        assert(icons@[i as int].0@ != path@);
                    }
                }
            }
            return Some(icons[i].1.clone());
        }
        i += 1;
    }
    None
}

/// A row drawn without an icon takes the one resolved for its path, unless the answer
/// was that there is none.
pub open spec fn with_resolved(icons: Seq<(String, String)>, h: HitView) -> HitView {
    if h.3.len() == 0 {
        match h.5 {
            Some(p) => match icon_for(icons, p) {
                Some(i) => if i != "none"@ { (h.0, h.1, h.2, i, h.4, h.5) } else { h },
                None => h,
            },
            None => h,
        }
    } else {
        h
    }
}

/// Give the rows the icons resolved for them.
pub fn apply_icons(hits: &mut Vec<PaletteHit>, icons: &Vec<(String, String)>)
    ensures
        hits_view(final(hits)@) == Seq::new(old(hits)@.len(), |i: int| with_resolved(icons@, hit_view(old(hits)@[i]))),
{
    let ghost want = Seq::new(hits@.len(), |i: int| with_resolved(icons@, hit_view(hits@[i])));
    let mut out: Vec<PaletteHit> = Vec::new();
    let mut i: usize = 0;
    while i < hits.len()
        invariant
            i <= hits@.len(),
            want == Seq::new(hits@.len(), |i: int| with_resolved(icons@, hit_view(hits@[i]))),
            hits_view(out@) =~= want.take(i as int),
        decreases hits.len() - i,
    {
        let mut h = copy_hit(&hits[i]);
        if chars_of(h.icon.as_str()).len() == 0 {
            let found = match &h.path {
                Some(p) => icon_lookup(icons, p),
                None => None,
            };
            match found {
                Some(icon) => {
                    if !chars_eq(&chars_of(icon.as_str()), &chars_of("none")) {
                        h.icon = icon;
                    }
                },
                None => {},
            }
        }
        let ghost before = out@;
        out.push(h);
        assert(hits_view(out@) =~= hits_view(before).push(hit_view(h)));
        assert(want.take(i + 1) =~= want.take(i as int).push(want[i as int]));
        i += 1;
    }
    assert(want.take(hits@.len() as int) =~= want);
    *hits = out;
}

} // verus!
