//! The icons a record's data mentions: which stored files they keep alive, moving the
//! icons still inlined as data urls into files, and which files in the icon directory
//! can go.
//!
//! A record's `data` is free-form JSON, and an icon may sit at any depth of it (a
//! folder's items carry their own). Any object field named `icon` whose value is a
//! string is an icon. Parsing the JSON, writing the files and listing the directory are
//! the caller's.

use vstd::prelude::*;
use crate::icons::{
    asset_prefix, asset_prefix_tls, is_stored_url_spec, migrate_one, path_from_url, path_from_url_spec,
    png_data_body, png_data_prefix,
};
use crate::paths::{comps, extension_spec};
use crate::text::{chars_eq, chars_of, has_prefix, to_string};

verus! {

broadcast use vstd::seq_lib::group_seq_properties;

/// A JSON value: an object's fields in order, an array, a string, or any other scalar
/// (a number, `true`, `false`, `null`) kept as its JSON text.
pub enum JsonTree {
    Object(Vec<(String, JsonTree)>),
    Array(Vec<JsonTree>),
    Text(String),
    Scalar(String),
}

/// What a `JsonTree` holds, as mathematical values.
pub enum JsonModel {
    Object(Seq<(Seq<char>, JsonModel)>),
    Array(Seq<JsonModel>),
    Text(Seq<char>),
    Scalar(Seq<char>),
}

pub open spec fn model(t: JsonTree) -> JsonModel
    decreases t, 0nat,
{
    match t {
        JsonTree::Object(es) => JsonModel::Object(entries_model(es@)),
        JsonTree::Array(xs) => JsonModel::Array(items_model(xs@)),
        JsonTree::Text(s) => JsonModel::Text(s@),
        JsonTree::Scalar(s) => JsonModel::Scalar(s@),
    }
}

pub open spec fn entries_model(es: Seq<(String, JsonTree)>) -> Seq<(Seq<char>, JsonModel)>
    decreases es, 0nat,
{
    if es.len() == 0 {
        seq![]
    } else {
        entries_model(es.drop_last()).push((es.last().0@, model(es.last().1)))
    }
}

pub open spec fn items_model(xs: Seq<JsonTree>) -> Seq<JsonModel>
    decreases xs, 0nat,
{
    if xs.len() == 0 {
        seq![]
    } else {
        items_model(xs.drop_last()).push(model(xs.last()))
    }
}

impl View for JsonTree {
    type V = JsonModel;

    open spec fn view(&self) -> JsonModel {
        model(*self)
    }
}

/// The field name that holds an icon.
pub open spec fn icon_key() -> Seq<char> {
    "icon"@
}

/// Every icon string in `m`, in document order. An `icon` field that is not a string is
/// no icon, and nothing under it is looked at.
pub open spec fn icons_in(m: JsonModel) -> Seq<Seq<char>>
    decreases m, 0nat,
{
    match m {
        JsonModel::Object(es) => icons_in_entries(es),
        JsonModel::Array(xs) => icons_in_items(xs),
        _ => seq![],
    }
}

pub open spec fn icons_in_entries(es: Seq<(Seq<char>, JsonModel)>) -> Seq<Seq<char>>
    decreases es, 0nat,
{
    if es.len() == 0 {
        seq![]
    } else {
        icons_in_entries(es.drop_last()) + (if es.last().0 == icon_key() {
            match es.last().1 {
                JsonModel::Text(s) => seq![s],
                _ => seq![],
            }
        } else {
            icons_in(es.last().1)
        })
    }
}

pub open spec fn icons_in_items(xs: Seq<JsonModel>) -> Seq<Seq<char>>
    decreases xs, 0nat,
{
    if xs.len() == 0 {
        seq![]
    } else {
        icons_in_items(xs.drop_last()) + icons_in(xs.last())
    }
}

/// The files the icons in `m` are stored in: every icon that is a stored url, as the
/// path it names.
pub open spec fn referenced_paths(m: JsonModel) -> Seq<Seq<char>> {
    icons_in(m).filter_map(|s: Seq<char>| path_from_url_spec(s))
}

spec fn object_entries(t: JsonTree) -> Vec<(String, JsonTree)> {
    match t {
        JsonTree::Object(v) => v,
        _ => arbitrary(),
    }
}

spec fn array_items(t: JsonTree) -> Vec<JsonTree> {
    match t {
        JsonTree::Array(v) => v,
        _ => arbitrary(),
    }
}

pub open spec fn views(v: Seq<String>) -> Seq<Seq<char>> {
    v.map_values(|s: String| s@)
}

fn is_icon_key(k: &String) -> (r: bool)
    ensures
        r == (k@ == icon_key()),
{
    proof {
        reveal_strlit("icon");
    }
    let a = chars_of(k.as_str());
    let b = chars_of("icon");
    chars_eq(&a, &b)
}

proof fn lemma_views_append(a: Seq<String>, b: Seq<String>)
    ensures
        views(a + b) == views(a) + views(b),
{
    assert(views(a + b) =~= views(a) + views(b));
}

/// Every icon string in `t`, in document order.
pub fn icon_texts(t: &JsonTree) -> (r: Vec<String>)
    ensures
        views(r@) == icons_in(t@),
    decreases t,
{
    match t {
        JsonTree::Object(es) => {
            let mut out: Vec<String> = Vec::new();
            let mut i: usize = 0;
            while i < es.len()
                invariant
                    i <= es.len(),
                    *t == JsonTree::Object(*es),
                    views(out@) == icons_in_entries(entries_model(es@.take(i as int))),
                decreases es.len() - i,
            {
                proof {
                    assert(es@.take(i + 1).drop_last() =~= es@.take(i as int));
                    assert(entries_model(es@.take(i + 1)) == entries_model(es@.take(i as int)).push(
                        (es@[i as int].0@, model(es@[i as int].1)),
                    ));
                    assert(entries_model(es@.take(i + 1)).drop_last() =~= entries_model(es@.take(i as int)));
                }
                let ghost before = out@;
                if is_icon_key(&es[i].0) {
                    match &es[i].1 {
                        JsonTree::Text(s) => {
                            let c = to_string(s.as_str());
                            out.push(c);
                            assert(views(out@) =~= views(before) + seq![s@]);
                        },
                        _ => {
                            assert(icons_in_entries(entries_model(es@.take(i + 1)))
                                =~= icons_in_entries(entries_model(es@.take(i as int))));
                        },
                    }
                } else {
                    proof {
                        let v0 = object_entries(*t);
                        assert(v0 == *es);
                        assert(decreases_to!(*t => v0));
                        assert(decreases_to!(v0 => v0@));
                        assert(decreases_to!(es@ => es@[i as int]));
                        assert(decreases_to!(es@[i as int] => es@[i as int].1));
                    }
                    let mut sub = icon_texts(&es[i].1);
                    let ghost sv = sub@;
                    out.append(&mut sub);
                    proof {
                        lemma_views_append(before, sv);
                    }
                }
                i += 1;
            }
            assert(es@.take(es.len() as int) =~= es@);
            out
        },
        JsonTree::Array(xs) => {
            let mut out: Vec<String> = Vec::new();
            let mut i: usize = 0;
            while i < xs.len()
                invariant
                    i <= xs.len(),
                    *t == JsonTree::Array(*xs),
                    views(out@) == icons_in_items(items_model(xs@.take(i as int))),
                decreases xs.len() - i,
            {
                proof {
                    assert(xs@.take(i + 1).drop_last() =~= xs@.take(i as int));
                    assert(items_model(xs@.take(i + 1)) == items_model(xs@.take(i as int)).push(model(xs@[i as int])));
                    assert(items_model(xs@.take(i + 1)).drop_last() =~= items_model(xs@.take(i as int)));
                    let v0 = array_items(*t);
                    assert(v0 == *xs);
                    assert(decreases_to!(*t => v0));
                    assert(decreases_to!(v0 => v0@));
                    assert(decreases_to!(xs@ => xs@[i as int]));
                }
                let ghost before = out@;
                let mut sub = icon_texts(&xs[i]);
                let ghost sv = sub@;
                out.append(&mut sub);
                proof {
                    lemma_views_append(before, sv);
                }
                i += 1;
            }
            assert(xs@.take(xs.len() as int) =~= xs@);
            out
        },
        _ => Vec::new(),
    }
}

/// Adds to `out` the path of every icon file `data` mentions, in document order (a
/// file mentioned twice is added twice). An icon that is not a stored url names no file.
pub fn collect_referenced(data: &JsonTree, out: &mut Vec<String>)
    ensures
        views(final(out)@) == views(old(out)@) + referenced_paths(data@),
{
    let texts = icon_texts(data);
    let ghost ts = icons_in(data@);
    let ghost start = out@;
    let mut i: usize = 0;
    while i < texts.len()
        invariant
            i <= texts.len(),
            views(texts@) == ts,
            views(out@) == views(start) + ts.take(i as int).filter_map(|s: Seq<char>| path_from_url_spec(s)),
        decreases texts.len() - i,
    {
        proof {
            assert(ts[i as int] == texts@[i as int]@);
            assert(ts.take(i + 1).drop_last() =~= ts.take(i as int));
            assert(ts.take(i + 1).last() == ts[i as int]);
        }
        let ghost before = out@;
        match path_from_url(texts[i].as_str()) {
            Some(p) => {
                let ghost pv = p@;
                out.push(p);
                assert(ts.take(i + 1).filter_map(|s: Seq<char>| path_from_url_spec(s))
                    == ts.take(i as int).filter_map(|s: Seq<char>| path_from_url_spec(s)) + seq![pv]);
                assert(views(out@) =~= views(before) + seq![pv]);
            },
            None => {
                assert(ts.take(i + 1).filter_map(|s: Seq<char>| path_from_url_spec(s))
                    == ts.take(i as int).filter_map(|s: Seq<char>| path_from_url_spec(s)));
            },
        }
        i += 1;
    }
    assert(ts.take(texts.len() as int) =~= ts);
}

// ------------------------------------------------------------------------------------
// Moving inlined icons into files
// ------------------------------------------------------------------------------------

/// What the store did with an icon string: the url it wrote the string's PNG for (the
/// first entry for that string), or nothing, when it was not asked or could not.
pub open spec fn stored_for(stored: Seq<(String, Option<String>)>, text: Seq<char>) -> Option<Seq<char>>
    decreases stored.len(),
{
    if stored.len() == 0 {
        None
    } else if stored[0].0@ == text {
        match stored[0].1 {
            Some(u) => Some(u@),
            None => None,
        }
    } else {
        stored_for(stored.skip(1), text)
    }
}

/// The stored url an icon string moves to: only a PNG data url moves, and only to a url
/// the store wrote; a data url the store could not take stays as it is, never dropped.
pub open spec fn moved_icon(text: Seq<char>, stored: Seq<(String, Option<String>)>) -> Option<Seq<char>> {
    match png_data_body(text) {
        None => None,
        Some(body) => {
            let url = match stored_for(stored, text) {
                Some(u) => u,
                None => png_data_prefix() + body,
            };
            if is_stored_url_spec(url) { Some(url) } else { None }
        },
    }
}

/// An icon string after the move.
pub open spec fn icon_after(text: Seq<char>, stored: Seq<(String, Option<String>)>) -> Seq<char> {
    match moved_icon(text, stored) {
        Some(u) => u,
        None => text,
    }
}

/// `m` with every icon string moved.
pub open spec fn migrated(m: JsonModel, stored: Seq<(String, Option<String>)>) -> JsonModel
    decreases m, 0nat,
{
    match m {
        JsonModel::Object(es) => JsonModel::Object(migrated_entries(es, stored)),
        JsonModel::Array(xs) => JsonModel::Array(migrated_items(xs, stored)),
        other => other,
    }
}

pub open spec fn migrated_entries(es: Seq<(Seq<char>, JsonModel)>, stored: Seq<(String, Option<String>)>) -> Seq<(Seq<char>, JsonModel)>
    decreases es, 0nat,
{
    if es.len() == 0 {
        seq![]
    } else {
        let k = es.last().0;
        let v = es.last().1;
        migrated_entries(es.drop_last(), stored).push((k, if k == icon_key() {
            match v {
                JsonModel::Text(s) => JsonModel::Text(icon_after(s, stored)),
                other => other,
            }
        } else {
            migrated(v, stored)
        }))
    }
}

pub open spec fn migrated_items(xs: Seq<JsonModel>, stored: Seq<(String, Option<String>)>) -> Seq<JsonModel>
    decreases xs, 0nat,
{
    if xs.len() == 0 {
        seq![]
    } else {
        migrated_items(xs.drop_last(), stored).push(migrated(xs.last(), stored))
    }
}

/// How many of `texts` move.
pub open spec fn moving(texts: Seq<Seq<char>>, stored: Seq<(String, Option<String>)>) -> nat
    decreases texts.len(),
{
    if texts.len() == 0 {
        0
    } else {
        moving(texts.drop_last(), stored) + (if moved_icon(texts.last(), stored) is Some { 1nat } else { 0nat })
    }
}

proof fn lemma_moving_add(a: Seq<Seq<char>>, b: Seq<Seq<char>>, stored: Seq<(String, Option<String>)>)
    ensures
        moving(a + b, stored) == moving(a, stored) + moving(b, stored),
        moving(b, stored) <= b.len(),
    decreases b.len(),
{
    if b.len() == 0 {
        assert(a + b =~= a);
    } else {
        lemma_moving_add(a, b.drop_last(), stored);
        assert((a + b).drop_last() =~= a + b.drop_last());
    }
}

proof fn lemma_icons_entries_add(a: Seq<(Seq<char>, JsonModel)>, b: Seq<(Seq<char>, JsonModel)>)
    ensures
        icons_in_entries(a + b) == icons_in_entries(a) + icons_in_entries(b),
    decreases b.len(),
{
    if b.len() == 0 {
        assert(a + b =~= a);
        assert(icons_in_entries(a) + icons_in_entries(b) =~= icons_in_entries(a));
    } else {
        lemma_icons_entries_add(a, b.drop_last());
        assert((a + b).drop_last() =~= a + b.drop_last());
        assert(icons_in_entries(a + b) =~= icons_in_entries(a) + icons_in_entries(b));
    }
}

proof fn lemma_icons_items_add(a: Seq<JsonModel>, b: Seq<JsonModel>)
    ensures
        icons_in_items(a + b) == icons_in_items(a) + icons_in_items(b),
    decreases b.len(),
{
    if b.len() == 0 {
        assert(a + b =~= a);
        assert(icons_in_items(a) + icons_in_items(b) =~= icons_in_items(a));
    } else {
        lemma_icons_items_add(a, b.drop_last());
        assert((a + b).drop_last() =~= a + b.drop_last());
        assert(icons_in_items(a + b) =~= icons_in_items(a) + icons_in_items(b));
    }
}

proof fn lemma_entries_model_take(es: Seq<(String, JsonTree)>, k: int)
    requires
        0 <= k <= es.len(),
    ensures
        entries_model(es.take(k)) == entries_model(es).take(k),
        entries_model(es).len() == es.len(),
    decreases es.len(),
{
    if es.len() > 0 {
        if k == es.len() {
            assert(es.take(k) =~= es);
            lemma_entries_model_take(es.drop_last(), k - 1);
        } else {
            lemma_entries_model_take(es.drop_last(), k);
            assert(es.drop_last().take(k) =~= es.take(k));
        }
        assert(entries_model(es).take(k) =~= entries_model(es.drop_last()).take(k) || k == es.len());
    } else {
        assert(es.take(k) =~= es);
    }
}

proof fn lemma_items_model_take(xs: Seq<JsonTree>, k: int)
    requires
        0 <= k <= xs.len(),
    ensures
        items_model(xs.take(k)) == items_model(xs).take(k),
        items_model(xs).len() == xs.len(),
    decreases xs.len(),
{
    if xs.len() > 0 {
        if k == xs.len() {
            assert(xs.take(k) =~= xs);
            lemma_items_model_take(xs.drop_last(), k - 1);
        } else {
            lemma_items_model_take(xs.drop_last(), k);
            assert(xs.drop_last().take(k) =~= xs.take(k));
        }
        assert(items_model(xs).take(k) =~= items_model(xs.drop_last()).take(k) || k == xs.len());
    } else {
        assert(xs.take(k) =~= xs);
    }
}

/// What the store did with `text`, looked up.
fn stored_url_for(stored: &Vec<(String, Option<String>)>, text: &str) -> (r: Option<String>)
    ensures
        (match r { Some(u) => Some(u@), None => None }) == stored_for(stored@, text@),
{
    let t = chars_of(text);
    let mut i: usize = 0;
    while i < stored.len()
        invariant
            i <= stored.len(),
            t@ == text@,
            stored_for(stored@, text@) == stored_for(stored@.skip(i as int), text@),
        decreases stored.len() - i,
    {
        let k = chars_of(stored[i].0.as_str());
        assert(stored@.skip(i as int)[0] == stored@[i as int]);
        if chars_eq(&k, &t) {
            return match &stored[i].1 {
                Some(u) => Some(to_string(u.as_str())),
                None => None,
            };
        }
        assert(stored@.skip(i as int).skip(1) =~= stored@.skip(i + 1));
        i += 1;
    }
    None
}

fn migrate_tree(t: &mut JsonTree, stored: &Vec<(String, Option<String>)>) -> (moved: usize)
    requires
        icons_in(old(t)@).len() <= usize::MAX,
    ensures
        final(t)@ == migrated(old(t)@, stored@),
        moved == moving(icons_in(old(t)@), stored@),
    decreases *old(t),
{
    match t {
        JsonTree::Object(es) => {
            let ghost orig = es@;
            let ghost v0 = object_entries(*old(t));
            assert(v0@ == orig);
            proof {
                lemma_entries_model_take(orig, orig.len() as int);
            }
            let mut moved: usize = 0;
            let mut i: usize = 0;
            while i < es.len()
                invariant
                    i <= es.len() == orig.len(),
                    v0@ == orig,
                    *old(t) == JsonTree::Object(v0),
                    icons_in_entries(entries_model(orig)).len() <= usize::MAX,
                    forall|j: int| i <= j < orig.len() ==> es@[j] == orig[j],
                    entries_model(es@.take(i as int)) == migrated_entries(entries_model(orig.take(i as int)), stored@),
                    moved == moving(icons_in_entries(entries_model(orig.take(i as int))), stored@),
                decreases es.len() - i,
            {
                proof {
                    let w = match *old(t) { JsonTree::Object(v) => v, _ => arbitrary() };
                    assert(w == v0);
                    assert(decreases_to!(*old(t) => w));
                    assert(decreases_to!(w => w@));
                    assert(decreases_to!(w@ => w@[i as int]));
                    assert(decreases_to!(w@[i as int] => w@[i as int].1));
                    assert(orig.take(i + 1).drop_last() =~= orig.take(i as int));
                    let e0 = entries_model(orig.take(i as int));
                    let e1 = entries_model(orig.take(i + 1));
                    assert(e1 == e0.push((orig[i as int].0@, model(orig[i as int].1))));
                    assert(e1.drop_last() =~= e0);
                    // the icons so far are a prefix of all of them
                    lemma_entries_model_take(orig, i + 1);
                    let all = entries_model(orig);
                    assert(all =~= all.take(i + 1) + all.skip(i + 1));
                    lemma_icons_entries_add(all.take(i + 1), all.skip(i + 1));
                    lemma_icons_entries_add(e0, seq![(orig[i as int].0@, model(orig[i as int].1))]);
                    assert(e0 + seq![(orig[i as int].0@, model(orig[i as int].1))] =~= e1);
                    let one = seq![(orig[i as int].0@, model(orig[i as int].1))];
                    assert(one.drop_last() =~= Seq::<(Seq<char>, JsonModel)>::empty());
                    lemma_moving_add(icons_in_entries(e0), icons_in_entries(one), stored@);
                }
                let ghost before = es@;
                let ghost e1 = entries_model(orig.take(i + 1));
                let ghost one = seq![(orig[i as int].0@, model(orig[i as int].1))];
                let ghost part = icons_in_entries(one);
                proof {
                    lemma_moving_add(seq![], icons_in_entries(e1), stored@);
                    assert(Seq::<Seq<char>>::empty() + icons_in_entries(e1) =~= icons_in_entries(e1));
                    assert(icons_in_entries(e1).len() <= icons_in_entries(entries_model(orig)).len());
                    assert(moving(icons_in_entries(e1), stored@) == moved + moving(part, stored@));
                }
                if is_icon_key(&es[i].0) {
                    let mut c: usize = 0;
                    let ghost mut nv: JsonModel = model(orig[i as int].1);
                    match &mut es[i].1 {
                        JsonTree::Text(s) => {
                            let ghost sv = s@;
                            let found = stored_url_for(stored, s.as_str());
                            match migrate_one(s.as_str(), found) {
                                Some(url) => {
                                    *s = url;
                                    c = 1;
                                },
                                None => {},
                            }
                            proof {
                                assert(part =~= seq![sv]);
                                assert(seq![sv].drop_last() =~= Seq::<Seq<char>>::empty());
                                assert(s@ == icon_after(sv, stored@));
                                nv = JsonModel::Text(s@);
                            }
                        },
                        _ => {
                            assert(part =~= Seq::<Seq<char>>::empty());
                        },
                    }
                    proof {
                        assert(model(es@[i as int].1) == nv);
                        assert(es@[i as int].0 == orig[i as int].0);
                        assert(es@.take(i + 1).drop_last() =~= before.take(i as int));
                        assert(es@.take(i + 1).drop_last() =~= es@.take(i as int));
                        assert(es@.take(i + 1).last() == es@[i as int]);
                    }
                    moved = moved + c;
                } else {
                    let c = migrate_tree(&mut es[i].1, stored);
                    proof {
                        assert(part =~= icons_in(model(orig[i as int].1)));
                        assert(es@.take(i as int) =~= before.take(i as int));
                        assert(es@.take(i + 1).drop_last() =~= es@.take(i as int));
                    }
                    moved = moved + c;
                }
                i += 1;
            }
            proof {
                assert(es@.take(es.len() as int) =~= es@);
                assert(orig.take(orig.len() as int) =~= orig);
            }
            moved
        },
        JsonTree::Array(xs) => {
            let ghost orig = xs@;
            let ghost v0 = array_items(*old(t));
            assert(v0@ == orig);
            proof {
                lemma_items_model_take(orig, orig.len() as int);
            }
            let mut moved: usize = 0;
            let mut i: usize = 0;
            while i < xs.len()
                invariant
                    i <= xs.len() == orig.len(),
                    v0@ == orig,
                    *old(t) == JsonTree::Array(v0),
                    icons_in_items(items_model(orig)).len() <= usize::MAX,
                    forall|j: int| i <= j < orig.len() ==> xs@[j] == orig[j],
                    items_model(xs@.take(i as int)) == migrated_items(items_model(orig.take(i as int)), stored@),
                    moved == moving(icons_in_items(items_model(orig.take(i as int))), stored@),
                decreases xs.len() - i,
            {
                proof {
                    let w = match *old(t) { JsonTree::Array(v) => v, _ => arbitrary() };
                    assert(w == v0);
                    assert(decreases_to!(*old(t) => w));
                    assert(decreases_to!(w => w@));
                    assert(decreases_to!(w@ => w@[i as int]));
                    assert(orig.take(i + 1).drop_last() =~= orig.take(i as int));
                    let e0 = items_model(orig.take(i as int));
                    let e1 = items_model(orig.take(i + 1));
                    assert(e1 == e0.push(model(orig[i as int])));
                    assert(e1.drop_last() =~= e0);
                    lemma_items_model_take(orig, i + 1);
                    let all = items_model(orig);
                    assert(all =~= all.take(i + 1) + all.skip(i + 1));
                    lemma_icons_items_add(all.take(i + 1), all.skip(i + 1));
                    lemma_moving_add(icons_in_items(e0), icons_in(model(orig[i as int])), stored@);
                }
                let ghost before = xs@;
                proof {
                    let e1 = items_model(orig.take(i + 1));
                    lemma_moving_add(seq![], icons_in_items(e1), stored@);
                    assert(Seq::<Seq<char>>::empty() + icons_in_items(e1) =~= icons_in_items(e1));
                    assert(icons_in_items(e1).len() <= icons_in_items(items_model(orig)).len());
                }
                let c = migrate_tree(&mut xs[i], stored);
                proof {
                    assert(xs@.take(i as int) =~= before.take(i as int));
                    assert(xs@.take(i + 1).drop_last() =~= xs@.take(i as int));
                }
                moved = moved + c;
                i += 1;
            }
            proof {
                assert(xs@.take(xs.len() as int) =~= xs@);
                assert(orig.take(orig.len() as int) =~= orig);
            }
            moved
        },
        _ => 0,
    }
}

/// Moves every icon in `data` that is still an inlined PNG data url into the file the
/// store wrote for it, and counts what moved. `stored` is what the store did with each
/// icon string it was handed: the url of the file it wrote, or nothing when it could
/// not; an icon it could not take stays inlined, never dropped. A stored url is left
/// alone, so running this again changes nothing.
pub fn migrate_json(data: &mut JsonTree, stored: &Vec<(String, Option<String>)>) -> (moved: usize)
    ensures
        final(data)@ == migrated(old(data)@, stored@),
        moved == moving(icons_in(old(data)@), stored@),
{
    let texts = icon_texts(data);
    assert(views(texts@).len() == texts@.len());
    assert(icons_in(data@).len() == texts.len());
    migrate_tree(data, stored)
}

// ------------------------------------------------------------------------------------
// Laws
// ------------------------------------------------------------------------------------

/// An icon string that moved is a stored url, which is no data url: it does not move
/// again.
proof fn lemma_moved_icon_settles(text: Seq<char>, stored: Seq<(String, Option<String>)>)
    ensures
        moved_icon(icon_after(text, stored), stored) is None,
        icon_after(icon_after(text, stored), stored) == icon_after(text, stored),
{
    if let Some(u) = moved_icon(text, stored) {
        reveal_strlit("http://asset.localhost/");
        reveal_strlit("https://asset.localhost/");
        reveal_strlit("data:image/png;base64,");
        assert(is_stored_url_spec(u));
        assert(u.take(asset_prefix().len() as int)[0] == u[0] || u.take(asset_prefix_tls().len() as int)[0] == u[0]);
        assert(u[0] == 'h');
        if has_prefix(u, png_data_prefix()) {
            assert(u.take(png_data_prefix().len() as int)[0] == u[0]);
        }
        assert(png_data_body(u) is None);
    }
}

proof fn lemma_entries_again(es: Seq<(Seq<char>, JsonModel)>, stored: Seq<(String, Option<String>)>)
    ensures
        migrated_entries(migrated_entries(es, stored), stored) == migrated_entries(es, stored),
        moving(icons_in_entries(migrated_entries(es, stored)), stored) == 0,
    decreases es, 0nat,
{
    if es.len() > 0 {
        lemma_entries_again(es.drop_last(), stored);
        let me = migrated_entries(es, stored);
        let prev = migrated_entries(es.drop_last(), stored);
        assert(me.drop_last() =~= prev);
        let k = es.last().0;
        let v = es.last().1;
        if k == icon_key() {
            match v {
                JsonModel::Text(t) => {
                    lemma_moved_icon_settles(t, stored);
                    let part = seq![icon_after(t, stored)];
                    assert(part.drop_last() =~= Seq::<Seq<char>>::empty());
                    lemma_moving_add(icons_in_entries(prev), part, stored);
                },
                _ => {
                    assert(icons_in_entries(me) =~= icons_in_entries(prev));
                },
            }
        } else {
            migrating_again_changes_nothing(v, stored);
            lemma_moving_add(icons_in_entries(prev), icons_in(migrated(v, stored)), stored);
        }
        assert(migrated_entries(me, stored) =~= migrated_entries(prev, stored).push(me.last()));
    }
}

proof fn lemma_items_again(xs: Seq<JsonModel>, stored: Seq<(String, Option<String>)>)
    ensures
        migrated_items(migrated_items(xs, stored), stored) == migrated_items(xs, stored),
        moving(icons_in_items(migrated_items(xs, stored)), stored) == 0,
    decreases xs, 0nat,
{
    if xs.len() > 0 {
        lemma_items_again(xs.drop_last(), stored);
        let me = migrated_items(xs, stored);
        let prev = migrated_items(xs.drop_last(), stored);
        assert(me.drop_last() =~= prev);
        migrating_again_changes_nothing(xs.last(), stored);
        lemma_moving_add(icons_in_items(prev), icons_in(migrated(xs.last(), stored)), stored);
        assert(migrated_items(me, stored) =~= migrated_items(prev, stored).push(me.last()));
    }
}

/// Moving icons into files is idempotent: a second pass over a record that was moved,
/// with the store answering as it did, changes nothing and moves nothing, since every
/// icon that moved is now a stored url and a stored url never moves.
pub proof fn migrating_again_changes_nothing(m: JsonModel, stored: Seq<(String, Option<String>)>)
    ensures
        migrated(migrated(m, stored), stored) == migrated(m, stored),
        moving(icons_in(migrated(m, stored)), stored) == 0,
    decreases m, 0nat,
{
    match m {
        JsonModel::Object(es) => lemma_entries_again(es, stored),
        JsonModel::Array(xs) => lemma_items_again(xs, stored),
        _ => {},
    }
}

// ------------------------------------------------------------------------------------
// Sweeping the icon directory
// ------------------------------------------------------------------------------------

/// What a sweep does with one file of the icon directory.
#[derive(Clone, Copy, Debug, PartialEq, Eq, Structural)]
pub enum SweepAction {
    /// Not an icon file, or one a record still mentions.
    Keep,
    /// A `.tmp` a kill left behind mid-write: deleted, and not counted.
    ClearTemp,
    /// An icon file nothing mentions any more: deleted, and counted.
    Remove,
}

/// Does `referenced` hold a path naming the same file as `path` (the same components)?
pub open spec fn is_referenced(path: Seq<char>, referenced: Seq<String>) -> bool {
    exists|j: int| 0 <= j < referenced.len() && comps(#[trigger] referenced[j]@) == comps(path)
}

pub open spec fn sweep_action_spec(path: Seq<char>, referenced: Seq<String>) -> SweepAction {
    match extension_spec(path) {
        Some(e) => if e == "png"@ {
            if is_referenced(path, referenced) { SweepAction::Keep } else { SweepAction::Remove }
        } else if e == "tmp"@ {
            SweepAction::ClearTemp
        } else {
            SweepAction::Keep
        },
        None => SweepAction::Keep,
    }
}

/// What to do with the file at `path` when the records mention the files in
/// `referenced`. The caller decides whether sweeping is safe at all: a store that came
/// back empty mentions nothing, and sweeping then would throw every icon away.
pub fn sweep_action(path: &str, referenced: &[String]) -> (r: SweepAction)
    ensures
        r == sweep_action_spec(path@, referenced@),
{
    proof {
        reveal_strlit("png");
        reveal_strlit("tmp");
    }
    let ext = match crate::paths::extension(path) {
        None => return SweepAction::Keep,
        Some(e) => e,
    };
    let png = chars_of("png");
    let tmp = chars_of("tmp");
    if chars_eq(&ext, &tmp) {
        assert(ext@[0] != "png"@[0]);
        return SweepAction::ClearTemp;
    }
    if !chars_eq(&ext, &png) {
        return SweepAction::Keep;
    }
    let mut j: usize = 0;
    while j < referenced.len()
        invariant
            j <= referenced.len(),
            extension_spec(path@) == Some(ext@),
            ext@ == "png"@,
            forall|k: int| 0 <= k < j ==> comps(#[trigger] referenced@[k]@) != comps(path@),
        decreases referenced.len() - j,
    {
        if crate::naming::same_place(referenced[j].as_str(), path) {
            assert(comps(referenced@[j as int]@) == comps(path@));
            return SweepAction::Keep;
        }
        j += 1;
    }
    SweepAction::Remove
}

/// A sweep never deletes a file a record mentions.
pub proof fn a_mentioned_icon_survives_a_sweep(path: Seq<char>, referenced: Seq<String>)
    requires
        is_referenced(path, referenced),
    ensures
        sweep_action_spec(path, referenced) != SweepAction::Remove,
{
}

} // verus!
