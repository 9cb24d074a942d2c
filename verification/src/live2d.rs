//! The Live2D model library: which files are models, what they are called, and which
//! of several copies of one model is listed.
//!
//! Walking the folders and reading the files is the caller's. A model found twice (the
//! same stem in two folders, or a generic `model.json` in two folders of the same name)
//! is listed once: the copy whose folder is named after it wins.

use vstd::prelude::*;
use crate::text::{
    ascii_lower_seq, chars_eq, chars_of, contains, contains_str, ends_with_ignore_ascii_case, eq_ignore_ascii_case,
    eq_ignore_case, is_sorted_order, lowercase, push_str, sorted_order, string_of, string_of_range, to_lowercase, to_string,
    trim, trim_spec,
};

verus! {

/// Model files named after nothing in particular, which take their folder's name
/// instead.
pub open spec fn generic_stems() -> Seq<Seq<char>> {
    seq!["model"@, "index"@, "model3"@, "character"@, "main"@]
}

/// Is this model file stem one that says nothing about the model, compared without
/// ASCII case?
pub fn is_generic_model_stem(stem: &str) -> (r: bool)
    ensures
        r == exists|i: int| 0 <= i < 5 && ascii_lower_seq(stem@) == #[trigger] generic_stems()[i],
{
    let names = ["model", "index", "model3", "character", "main"];
    let lower = crate::text::to_ascii_lowercase(stem);
    let mut i: usize = 0;
    while i < 5
        invariant
            i <= 5,
            lower@ == ascii_lower_seq(stem@),
            forall|j: int| 0 <= j < 5 ==> names@[j]@ == #[trigger] generic_stems()[j],
            forall|j: int| 0 <= j < i ==> ascii_lower_seq(stem@) != #[trigger] generic_stems()[j],
        decreases 5 - i,
    {
        if chars_eq(&lower, &chars_of(names[i])) {
            assert(ascii_lower_seq(stem@) == generic_stems()[i as int]);
            return true;
        }
        i += 1;
    }
    false
}

/// A model file's stem: the name without `.model.json` or `.model3.json`, those
/// compared without ASCII case; nothing for any other file.
pub open spec fn model_stem_spec(file_name: Seq<char>) -> Option<Seq<char>> {
    let n = file_name.len();
    if n >= 11 && eq_ignore_ascii_case(file_name.skip(n - 11), ".model.json"@) {
        Some(file_name.take(n - 11))
    } else if n >= 12 && eq_ignore_ascii_case(file_name.skip(n - 12), ".model3.json"@) {
        Some(file_name.take(n - 12))
    } else {
        None
    }
}

/// A model file's stem, or nothing when the file is not a model.
pub fn extract_model_stem(file_name: &str) -> (r: Option<String>)
    ensures
        r matches Some(s) ==> model_stem_spec(file_name@) == Some(s@),
        r is None <==> model_stem_spec(file_name@) is None,
{
    let v = chars_of(file_name);
    let a = chars_of(".model.json");
    let b = chars_of(".model3.json");
    proof {
        reveal_strlit(".model.json");
        reveal_strlit(".model3.json");
    }
    if ends_with_ignore_ascii_case(&v, &a) {
        return Some(string_of_range(&v, 0, v.len() - a.len()));
    }
    if ends_with_ignore_ascii_case(&v, &b) {
        return Some(string_of_range(&v, 0, v.len() - b.len()));
    }
    None
}

// ------------------------------------------------------------------------------------
// One model file
// ------------------------------------------------------------------------------------

pub open spec fn is_generic_spec(stem: Seq<char>) -> bool {
    exists|i: int| 0 <= i < 5 && ascii_lower_seq(stem) == #[trigger] generic_stems()[i]
}

/// How well a model's folder names it: 100 when the folder is the stem, 50 when one
/// holds the other, 0 otherwise (lower-cased).
pub open spec fn model_score(parent: Seq<char>, stem: Seq<char>) -> i32 {
    let lp = lowercase(parent);
    let ls = lowercase(stem);
    if lp == ls {
        100
    } else if contains_str(lp, ls) || contains_str(ls, lp) {
        50
    } else {
        0
    }
}

/// What makes two model files the same model: the stem, lower-cased; for a generic stem
/// the folder too.
pub open spec fn model_key(parent: Seq<char>, stem: Seq<char>, generic: bool) -> Seq<char> {
    if generic {
        lowercase(parent) + "/"@ + lowercase(stem)
    } else {
        lowercase(stem)
    }
}

/// A file that is a model: its stem, its key, its score, and whether the stem is generic.
pub struct ModelCandidate {
    pub stem: String,
    pub key: String,
    pub score: i32,
    pub generic: bool,
}

/// The model in `file_name`, which lies in a folder named `parent`; nothing for a file
/// that is not a model.
pub fn model_candidate(file_name: &str, parent: &str) -> (r: Option<ModelCandidate>)
    ensures
        r is None <==> model_stem_spec(file_name@) is None,
        r matches Some(c) ==> {
            &&& model_stem_spec(file_name@) == Some(c.stem@)
            &&& c.generic == is_generic_spec(c.stem@)
            &&& c.key@ == model_key(parent@, c.stem@, c.generic)
            &&& c.score == model_score(parent@, c.stem@)
        },
{
    let stem = match extract_model_stem(file_name) {
        Some(s) => s,
        None => return None,
    };
    let generic = is_generic_model_stem(stem.as_str());
    let lp = to_lowercase(parent);
    let ls = to_lowercase(stem.as_str());
    let key = if generic {
        let mut k = lp.clone();
        push_str(&mut k, "/");
        push_str(&mut k, ls.as_str());
        k
    } else {
        ls.clone()
    };
    let (pv, sv) = (chars_of(lp.as_str()), chars_of(ls.as_str()));
    let score: i32 = if chars_eq(&pv, &sv) {
        100
    } else if contains(&pv, &sv) || contains(&sv, &pv) {
        50
    } else {
        0
    };
    Some(ModelCandidate { stem, key, score, generic })
}

/// The text at `key` of the JSON object that `content` is, as `serde_json` reads it:
/// nothing when it does not parse, is not an object, or has no text there.
pub uninterp spec fn json_text(content: Seq<char>, key: Seq<char>) -> Option<Seq<char>>;

/// Calls `serde_json::from_str` for a `serde_json::Value`, then `Value::get` and
/// `Value::as_str`: the result is named by `json_text`, and nothing more is claimed of
/// it.
#[verifier::external_body]
pub(crate) fn json_text_field(content: &str, key: &str) -> (r: Option<String>)
    ensures
        match r {
            Some(s) => json_text(content@, key@) == Some(s@),
            None => json_text(content@, key@) is None,
        },
{
    serde_json::from_str::<serde_json::Value>(content).ok().and_then(|v| v.get(key).and_then(|f| f.as_str()).map(|s| s.to_string()))
}

/// A model's display name, from its stem, its folder, and the `name` its file declares
/// (if any). A generic stem goes by its folder; a declared name that says something the
/// stem does not is added in brackets.
pub open spec fn display_name_spec(stem: Seq<char>, parent: Seq<char>, generic: bool, declared: Option<Seq<char>>) -> Seq<char> {
    let base = if generic && parent.len() > 0 { parent } else { stem };
    match declared {
        Some(raw) => {
            let jn = trim_spec(raw);
            if jn.len() > 0 && !eq_ignore_ascii_case(jn, stem) && !is_generic_spec(jn) {
                base + " ("@ + jn + ")"@
            } else {
                base
            }
        },
        None => base,
    }
}

pub fn display_name(stem: &str, parent: &str, generic: bool, declared: Option<&str>) -> (r: String)
    ensures
        r@ == display_name_spec(stem@, parent@, generic, match declared { Some(d) => Some(d@), None => None }),
{
    let base = if generic && chars_of(parent).len() > 0 { to_string(parent) } else { to_string(stem) };
    match declared {
        Some(raw) => {
            let jn = trim(raw);
            if jn.len() > 0 && !eq_ignore_case(&jn, &chars_of(stem)) && !is_generic_model_stem(string_of(&jn).as_str()) {
                let mut out = base;
                push_str(&mut out, " (");
                push_str(&mut out, string_of(&jn).as_str());
                push_str(&mut out, ")");
                out
            } else {
                base
            }
        },
        None => base,
    }
}

/// A model's display name, reading the `name` its file's `content` declares.
pub fn model_display_name(stem: &str, parent: &str, generic: bool, content: Option<&str>) -> (r: String)
    ensures
        r@ == display_name_spec(stem@, parent@, generic, match content { Some(c) => json_text(c@, "name"@), None => None }),
{
    match content {
        Some(c) => match json_text_field(c, "name") {
            Some(n) => display_name(stem, parent, generic, Some(n.as_str())),
            None => display_name(stem, parent, generic, None),
        },
        None => display_name(stem, parent, generic, None),
    }
}

// ------------------------------------------------------------------------------------
// The library
// ------------------------------------------------------------------------------------

/// A model kept so far, under its key.
pub struct ScoredModel {
    pub key: String,
    pub name: String,
    pub path: String,
    pub score: i32,
    pub parent: String,
}

/// No two kept models share a key.
pub open spec fn keys_unique(lib: Seq<ScoredModel>) -> bool {
    forall|i: int, j: int| 0 <= i < j < lib.len() ==> (#[trigger] lib[i]).key@ != (#[trigger] lib[j]).key@
}

/// Does the library take a model with this key and score: unless it keeps one under the
/// same key that scores at least as well?
pub open spec fn takes_spec(lib: Seq<ScoredModel>, key: Seq<char>, score: i32) -> bool {
    !exists|i: int| 0 <= i < lib.len() && (#[trigger] lib[i]).key@ == key && lib[i].score >= score
}

fn key_pos(lib: &Vec<ScoredModel>, key: &String) -> (r: Option<usize>)
    ensures
        r matches Some(i) ==> i < lib@.len() && lib@[i as int].key@ == key@,
        r is None ==> forall|j: int| 0 <= j < lib@.len() ==> (#[trigger] lib@[j]).key@ != key@,
{
    let mut i: usize = 0;
    while i < lib.len()
        invariant
            i <= lib@.len(),
            forall|j: int| 0 <= j < i ==> (#[trigger] lib@[j]).key@ != key@,
        decreases lib.len() - i,
    {
        if lib[i].key == *key {
            return Some(i);
        }
        i += 1;
    }
    None
}

pub fn model_takes(lib: &Vec<ScoredModel>, key: &String, score: i32) -> (r: bool)
    requires
        keys_unique(lib@),
    ensures
        r == takes_spec(lib@, key@, score),
{
    match key_pos(lib, key) {
        Some(i) => {
            proof {
                if exists|j: int| 0 <= j < lib@.len() && (#[trigger] lib@[j]).key@ == key@ && lib@[j].score >= score {
                    let j = choose|j: int| 0 <= j < lib@.len() && (#[trigger] lib@[j]).key@ == key@ && lib@[j].score >= score;
                    if j != i {
                        if j < i {
                            assert(lib@[j].key@ != lib@[i as int].key@);
                        } else {
                            assert(lib@[i as int].key@ != lib@[j].key@);
                        }
                    }
                }
            }
            lib[i].score < score
        },
        None => true,
    }
}

/// Keep a model: in place of the one under its key, or added.
pub fn keep_model(lib: &mut Vec<ScoredModel>, m: ScoredModel)
    requires
        keys_unique(old(lib)@),
    ensures
        keys_unique(final(lib)@),
        (exists|i: int| 0 <= i < old(lib)@.len() && (#[trigger] old(lib)@[i]).key@ == m.key@) ==> {
            let i = choose|i: int| 0 <= i < old(lib)@.len() && (#[trigger] old(lib)@[i]).key@ == m.key@;
            final(lib)@ == old(lib)@.update(i, m)
        },
        !(exists|i: int| 0 <= i < old(lib)@.len() && (#[trigger] old(lib)@[i]).key@ == m.key@) ==> final(lib)@ == old(lib)@.push(m),
{
    match key_pos(lib, &m.key) {
        Some(i) => {
            proof {
                let w = choose|w: int| 0 <= w < lib@.len() && (#[trigger] lib@[w]).key@ == m.key@;
                if w != i {
                    if w < i {
                        assert(lib@[w].key@ != lib@[i as int].key@);
                    } else {
                        assert(lib@[i as int].key@ != lib@[w].key@);
                    }
                }
            }
            let ghost before = lib@;
            lib.set(i, m);
            assert forall|a: int, b: int| 0 <= a < b < lib@.len() implies (#[trigger] lib@[a]).key@ != (#[trigger] lib@[b]).key@ by {
                if a != i && b != i {
                    assert(lib@[a] == before[a] && lib@[b] == before[b]);
                } else if a == i {
                    assert(lib@[b] == before[b]);
                    assert(before[a].key@ != before[b].key@);
                } else {
                    assert(lib@[a] == before[a]);
                    assert(before[a].key@ != before[b].key@);
                }
            }
        },
        None => {
            let ghost before = lib@;
            lib.push(m);
            assert forall|a: int, b: int| 0 <= a < b < lib@.len() implies (#[trigger] lib@[a]).key@ != (#[trigger] lib@[b]).key@ by {
                assert(lib@[a] == before[a]);
                if b < before.len() {
                    assert(lib@[b] == before[b]);
                }
            }
        },
    }
}

// ------------------------------------------------------------------------------------
// The list the picker shows
// ------------------------------------------------------------------------------------

/// One row of the model picker.
pub struct Live2dModelEntry {
    pub name: String,
    pub path: String,
}

/// How many kept models are called `name`.
pub open spec fn name_count(lib: Seq<ScoredModel>, name: Seq<char>) -> nat
    decreases lib.len(),
{
    if lib.len() == 0 {
        0
    } else {
        name_count(lib.drop_last(), name) + if lib.last().name@ == name { 1nat } else { 0nat }
    }
}

/// A model's name in the list: a name two models share says which folder it is in,
/// unless it already does or there is no folder to say.
pub open spec fn listed_name(lib: Seq<ScoredModel>, m: ScoredModel) -> Seq<char> {
    if name_count(lib, m.name@) > 1 && m.parent@.len() > 0 && !contains_str(m.name@, m.parent@) {
        m.name@ + " ("@ + m.parent@ + ")"@
    } else {
        m.name@
    }
}

fn count_name(lib: &Vec<ScoredModel>, name: &String) -> (r: usize)
    ensures
        r == name_count(lib@, name@),
{
    let mut n: usize = 0;
    let mut i: usize = 0;
    while i < lib.len()
        invariant
            i <= lib@.len(),
            n == name_count(lib@.take(i as int), name@),
            n <= i,
        decreases lib.len() - i,
    {
        assert(lib@.take(i + 1).drop_last() =~= lib@.take(i as int));
        if lib[i].name == *name {
            n += 1;
        }
        i += 1;
    }
    assert(lib@.take(lib@.len() as int) =~= lib@);
    n
}

/// How many rows the picker lists at most.
pub const MAX_MODELS: usize = 1000;

pub open spec fn listed_rows(lib: Seq<ScoredModel>) -> Seq<(Seq<char>, Seq<char>)> {
    Seq::new(lib.len(), |i: int| (listed_name(lib, lib[i]), lib[i].path@))
}

/// What the picker's rows are ordered by: their listed names, lower-cased.
pub open spec fn listing_keys(lib: Seq<ScoredModel>) -> Seq<Seq<char>> {
    Seq::new(lib.len(), |i: int| lowercase(listed_rows(lib)[i].0))
}

/// The picker's list: every kept model under its listed name, by lower-cased name (ties
/// in the order kept), at most [`MAX_MODELS`]. The order is the one `is_sorted_order`
/// describes, of which there is exactly one.
pub fn finish_library(lib: &Vec<ScoredModel>) -> (r: Vec<Live2dModelEntry>)
    ensures
        r@.len() == if lib@.len() < MAX_MODELS { lib@.len() } else { MAX_MODELS as nat },
        exists|order: Seq<usize>| {
            &&& #[trigger] is_sorted_order(listing_keys(lib@), order)
            &&& forall|k: int| 0 <= k < r@.len() ==> (#[trigger] r@[k]).name@ == listed_rows(lib@)[order[k] as int].0
                && r@[k].path@ == listed_rows(lib@)[order[k] as int].1
        },
{
    let ghost rows = listed_rows(lib@);
    let mut names: Vec<String> = Vec::new();
    let mut keys: Vec<Vec<char>> = Vec::new();
    let mut i: usize = 0;
    while i < lib.len()
        invariant
            i <= lib@.len(),
            rows == listed_rows(lib@),
            names@.len() == i,
            keys@.len() == i,
            forall|j: int| 0 <= j < i ==> (#[trigger] names@[j])@ == rows[j].0,
            forall|j: int| 0 <= j < i ==> (#[trigger] keys@[j])@ == lowercase(rows[j].0),
        decreases lib.len() - i,
    {
        let m = &lib[i];
        let shared = count_name(lib, &m.name) > 1;
        let name = if shared && chars_of(m.parent.as_str()).len() > 0
            && !contains(&chars_of(m.name.as_str()), &chars_of(m.parent.as_str())) {
            let mut n = m.name.clone();
            push_str(&mut n, " (");
            push_str(&mut n, m.parent.as_str());
            push_str(&mut n, ")");
            n
        } else {
            m.name.clone()
        };
        let key = chars_of(to_lowercase(name.as_str()).as_str());
        names.push(name);
        keys.push(key);
        i += 1;
    }
    let order = sorted_order(&keys);
    let ghost ks = Seq::new(keys@.len(), |i: int| keys@[i]@);
    assert(ks =~= listing_keys(lib@));
    let n = if lib.len() < MAX_MODELS { lib.len() } else { MAX_MODELS };
    let mut out: Vec<Live2dModelEntry> = Vec::new();
    let mut k: usize = 0;
    while k < n
        invariant
            k <= n <= order@.len(),
            order@.len() == lib@.len(),
            names@.len() == lib@.len(),
            rows == listed_rows(lib@),
            forall|j: int| 0 <= j < order@.len() ==> #[trigger] order@[j] < lib@.len(),
            forall|j: int| 0 <= j < lib@.len() ==> (#[trigger] names@[j])@ == rows[j].0,
            out@.len() == k,
            forall|j: int| 0 <= j < k ==> (#[trigger] out@[j]).name@ == rows[order@[j] as int].0
                && out@[j].path@ == rows[order@[j] as int].1,
        decreases n - k,
    {
        let idx = order[k];
        assert(order@[k as int] < lib@.len());
        out.push(Live2dModelEntry { name: names[idx].clone(), path: lib[idx].path.clone() });
        k += 1;
    }
    assert(is_sorted_order(listing_keys(lib@), order@));
    out
}

/// Points a Live2D floatie at another model: its record's `model` entry becomes `model`.
/// Refused, with the record untouched, when the record is another kind of floatie.
pub fn set_widget_model(rec: &mut crate::folders::WidgetRecord, model: &str) -> (r: Result<(), String>)
    ensures
        old(rec).kind@ != "live2d"@ ==> (r matches Err(e) && e@ == "not a live2d widget"@ && *final(rec) == *old(rec)),
        old(rec).kind@ == "live2d"@ ==> {
            &&& r is Ok
            &&& crate::folders::pairs_of(final(rec).text@) == crate::folders::set_pair(crate::folders::pairs_of(old(rec).text@), "model"@, model@)
            &&& final(rec).id == old(rec).id && final(rec).kind == old(rec).kind
            &&& final(rec).x == old(rec).x && final(rec).y == old(rec).y && final(rec).items == old(rec).items
        },
{
    proof {
        reveal_strlit("live2d");
    }
    let kind = crate::text::chars_of(rec.kind.as_str());
    let want = crate::text::chars_of("live2d");
    if !crate::text::chars_eq(&kind, &want) {
        return Err(crate::text::to_string("not a live2d widget"));
    }
    crate::folders::set_field(&mut rec.text, "model", model);
    Ok(())
}

// ------------------------------------------------------------------------------------
// The whole scan
// ------------------------------------------------------------------------------------

/// One file the walk of the models folder found: its name, the name of the folder it lies
/// in, its path, and its text when it could be read.
pub struct FoundFile {
    pub file_name: String,
    pub parent: String,
    pub path: String,
    pub content: Option<String>,
}

/// A kept model as plain values: (key, name, path, score, folder).
pub type ModelView = (Seq<char>, Seq<char>, Seq<char>, i32, Seq<char>);

pub open spec fn model_view(m: ScoredModel) -> ModelView {
    (m.key@, m.name@, m.path@, m.score, m.parent@)
}

pub open spec fn lib_view(lib: Seq<ScoredModel>) -> Seq<ModelView> {
    Seq::new(lib.len(), |i: int| model_view(lib[i]))
}

/// Does a library of views take a model with this key and score?
pub open spec fn takes_view(lib: Seq<ModelView>, key: Seq<char>, score: i32) -> bool {
    !exists|i: int| 0 <= i < lib.len() && (#[trigger] lib[i]).0 == key && lib[i].3 >= score
}

/// A model kept: in place of the one under its key, or added.
pub open spec fn keep_view(lib: Seq<ModelView>, m: ModelView) -> Seq<ModelView> {
    if exists|i: int| 0 <= i < lib.len() && (#[trigger] lib[i]).0 == m.0 {
        lib.update(choose|i: int| 0 <= i < lib.len() && (#[trigger] lib[i]).0 == m.0, m)
    } else {
        lib.push(m)
    }
}

/// One file applied to the library: a model it takes replaces the one under its key, or
/// is added; a file that is no model, or a model no better than the one kept, changes
/// nothing.
pub open spec fn found_step(lib: Seq<ModelView>, f: FoundFile) -> Seq<ModelView> {
    match model_stem_spec(f.file_name@) {
        None => lib,
        Some(stem) => {
            let generic = is_generic_spec(stem);
            let key = model_key(f.parent@, stem, generic);
            let score = model_score(f.parent@, stem);
            if takes_view(lib, key, score) {
                let declared = match f.content { Some(c) => json_text(c@, "name"@), None => None };
                keep_view(lib, (key, display_name_spec(stem, f.parent@, generic, declared), f.path@, score, f.parent@))
            } else {
                lib
            }
        },
    }
}

/// The library after the files, in the order found.
pub open spec fn library_fold(found: Seq<FoundFile>) -> Seq<ModelView>
    decreases found.len(),
{
    if found.len() == 0 {
        seq![]
    } else {
        found_step(library_fold(found.drop_last()), found.last())
    }
}

/// The picker's list: `out` is the first `MAX_MODELS` rows of `lib`, ordered by their
/// lower-cased listed names.
pub open spec fn listed_from(lib: Seq<ScoredModel>, out: Seq<Live2dModelEntry>) -> bool {
    &&& out.len() == if lib.len() < MAX_MODELS { lib.len() } else { MAX_MODELS as nat }
    &&& exists|order: Seq<usize>| {
        &&& #[trigger] is_sorted_order(listing_keys(lib), order)
        &&& forall|k: int| 0 <= k < out.len() ==> (#[trigger] out[k]).name@ == listed_rows(lib)[order[k] as int].0
            && out[k].path@ == listed_rows(lib)[order[k] as int].1
    }
}

/// The model library of the files a walk of the models folder found: one model per key
/// (the stem, and the folder for a generic stem), the best-scoring file of it (the first
/// found on a tie), named after its stem or folder and the name its file declares, then
/// listed by name, at most [`MAX_MODELS`].
pub fn library_of(found: &Vec<FoundFile>) -> (r: Vec<Live2dModelEntry>)
    ensures
        exists|lib: Seq<ScoredModel>| #[trigger] lib_view(lib) == library_fold(found@) && listed_from(lib, r@),
{
    let mut lib: Vec<ScoredModel> = Vec::new();
    let mut i: usize = 0;
    assert(lib_view(lib@) =~= library_fold(found@.take(0)));
    while i < found.len()
        invariant
            i <= found@.len(),
            keys_unique(lib@),
            lib_view(lib@) == library_fold(found@.take(i as int)),
        decreases found.len() - i,
    {
        let f = &found[i];
        proof {
            assert(found@.take(i + 1).drop_last() =~= found@.take(i as int));
            assert(found@.take(i + 1).last() == *f);
        }
        let ghost before = lib@;
        match model_candidate(f.file_name.as_str(), f.parent.as_str()) {
            None => {},
            Some(c) => {
                let takes = model_takes(&lib, &c.key, c.score);
                proof {
                    assert(takes == takes_view(lib_view(lib@), c.key@, c.score)) by {
                        if exists|j: int| 0 <= j < lib@.len() && (#[trigger] lib@[j]).key@ == c.key@ && lib@[j].score >= c.score {
                            let j = choose|j: int| 0 <= j < lib@.len() && (#[trigger] lib@[j]).key@ == c.key@ && lib@[j].score >= c.score;
                            assert(lib_view(lib@)[j].0 == c.key@);
                        }
                        if exists|j: int| 0 <= j < lib_view(lib@).len() && (#[trigger] lib_view(lib@)[j]).0 == c.key@ && lib_view(lib@)[j].3 >= c.score {
                            let j = choose|j: int| 0 <= j < lib_view(lib@).len() && (#[trigger] lib_view(lib@)[j]).0 == c.key@ && lib_view(lib@)[j].3 >= c.score;
                            assert(lib@[j].key@ == c.key@);
                        }
                    }
                }
                if takes {
                    let content = match &f.content {
                        Some(t) => Some(t.as_str()),
                        None => None,
                    };
                    let name = model_display_name(c.stem.as_str(), f.parent.as_str(), c.generic, content);
                    let m = ScoredModel { key: c.key, name, path: f.path.clone(), score: c.score, parent: f.parent.clone() };
                    let ghost mv = model_view(m);
                    keep_model(&mut lib, m);
                    proof {
                        let v = lib_view(before);
                        if exists|j: int| 0 <= j < before.len() && (#[trigger] before[j]).key@ == mv.0 {
                            let j = choose|j: int| 0 <= j < before.len() && (#[trigger] before[j]).key@ == mv.0;
                            assert(v[j].0 == mv.0);
                            let w = choose|w: int| 0 <= w < v.len() && (#[trigger] v[w]).0 == mv.0;
                            assert(before[w].key@ == mv.0);
                            assert(w == j) by {
                                if w < j {
                                    assert(before[w].key@ != before[j].key@);
                                } else if w > j {
                                    assert(before[j].key@ != before[w].key@);
                                }
                            }
                            assert(lib_view(lib@) =~= v.update(w, mv));
                        } else {
                            assert forall|w: int| 0 <= w < v.len() implies (#[trigger] v[w]).0 != mv.0 by {
                                assert(before[w].key@ != mv.0);
                            }
                            assert(lib_view(lib@) =~= v.push(mv));
                        }
                    }
                }
            },
        }
        i += 1;
    }
    assert(found@.take(found@.len() as int) =~= found@);
    let r = finish_library(&lib);
    assert(listed_from(lib@, r@));
    r
}

} // verus!
