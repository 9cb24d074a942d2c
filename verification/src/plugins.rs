//! The plugin manifest: one descriptor per widget kind, built in or installed, and the
//! questions the backend asks of a kind.
//!
//! The installed plugins are the ones `install_from` accepted at startup; every query
//! asks them first, so a plugin answers exactly like a built-in. Sizes and default data
//! are numbers and JSON, and stay with the caller.

use vstd::prelude::*;
use crate::text::{
    split_on, lemma_split_push, lemma_split_prefix,
    all_digits, chars_eq, chars_of, concat, dec_digits, digits_value, is_digit, lead_len,
    push_dec, push_str, string_of, string_of_range, to_ascii_lowercase, to_string, trim,
    trim_spec, trim_start_by, ascii_lower_seq, trimmed,
};
use crate::paths::{comps, components, has_root, has_root_exec, seqs};

verus! {

broadcast use vstd::seq_lib::group_seq_properties;

/// What a widget kind needs when it stands for a file, folder or shortcut on disk.
pub struct DesktopItem {
    /// Record key holding the path: "target" for one item, "path" for a group.
    pub path_key: &'static str,
    /// Noun for the removal dialog ("app floatie", "folder floatie", ...).
    pub noun: &'static str,
    /// True for a folder-like group of items, false for a single path.
    pub group: bool,
}

/// The same facts for an installed plugin, read from its manifest.
#[derive(Debug)]
pub struct PluginDesktopItem {
    pub path_key: String,
    pub noun: String,
    pub group: bool,
}

/// One built-in widget kind, as the backend sees it.
pub struct PluginDef {
    pub id: &'static str,
    pub name: &'static str,
    pub description: &'static str,
    pub resizable: bool,
    /// Set for kinds that stand for something on disk.
    pub desktop_item: Option<DesktopItem>,
    /// Quick-add button label in "+ New floatie".
    pub add_label: Option<&'static str>,
    /// Overlay placement order, lower first.
    pub layout_priority: i32,
}

/// A plugin installed by the user, as its manifest described it.
#[derive(Debug)]
pub struct InstalledPlugin {
    pub id: String,
    pub name: String,
    pub description: String,
    pub version: String,
    pub author: String,
    /// The `apiVersion` the manifest declared.
    pub api_version: u32,
    pub resizable: bool,
    pub desktop_item: Option<PluginDesktopItem>,
    pub add_label: Option<String>,
    pub layout_priority: i32,
    /// Absolute path of the module the windows import.
    pub entry: String,
}

/// The plugin format this build understands; `apiVersion` in `plugin.json`.
pub const PLUGIN_API_VERSION: u32 = 2;

/// The oldest `apiVersion` still accepted.
pub const PLUGIN_API_MIN: u32 = 1;

/// Priority of the icon/folder grid: anything hand-placed sorts before it.
pub const DEFAULT_LAYOUT_PRIORITY: i32 = 10;

// ------------------------------------------------------------------------------------
// The built-ins
// ------------------------------------------------------------------------------------

/// The built-in kinds, in declaration order.
pub open spec fn builtin_ids() -> Seq<Seq<char>> {
    seq!["note"@, "clock"@, "pet"@, "app"@, "file"@, "folder"@, "live2d"@, "visualizer"@, "sysmon"@]
}

/// The built-ins' display names, in the same order.
pub open spec fn builtin_names() -> Seq<Seq<char>> {
    seq!["Note"@, "Clock"@, "Pet"@, "App launcher"@, "File"@, "Folder"@, "Live2D"@, "Audio visualizer"@, "System monitor"@]
}

/// Which built-ins can be resized.
pub open spec fn builtin_resizable(i: int) -> bool {
    i == 0 || i == 1 || i == 7 || i == 8
}

/// The desktop-item facts of built-in `i`: (path key, group) for the kinds on disk.
pub open spec fn builtin_desktop(i: int) -> Option<(Seq<char>, bool)> {
    if i == 3 || i == 4 {
        Some(("target"@, false))
    } else if i == 5 {
        Some(("path"@, true))
    } else {
        None
    }
}

pub open spec fn def_matches(d: PluginDef, i: int) -> bool {
    &&& d.id@ == builtin_ids()[i]
    &&& d.name@ == builtin_names()[i]
    &&& d.resizable == builtin_resizable(i)
    &&& match (d.desktop_item, builtin_desktop(i)) {
        (Some(item), Some((key, group))) => item.path_key@ == key && item.group == group,
        (None, None) => true,
        _ => false,
    }
}

/// Every built-in widget kind, in declaration order.
pub fn plugins() -> (r: Vec<PluginDef>)
    ensures
        r@.len() == builtin_ids().len(),
        forall|i: int| 0 <= i < r@.len() ==> def_matches(#[trigger] r@[i], i),
{
    let v = vec![
        PluginDef {
            id: "note",
            name: "Note",
            description: "Sticky notes with autosave. Drag by the top bar, resize by the corner.",
            resizable: true,
            desktop_item: None,
            add_label: Some("+ note"),
            layout_priority: 2,
        },
        PluginDef {
            id: "clock",
            name: "Clock",
            description: "Clock plus pomodoro timer. Tap the timer to edit lengths.",
            resizable: true,
            desktop_item: None,
            add_label: Some("+ clock"),
            layout_priority: 3,
        },
        PluginDef {
            id: "pet",
            name: "Pet",
            description: "A wandering blob. Hover to calm it, double-click to freeze it.",
            resizable: false,
            desktop_item: None,
            add_label: Some("+ pet"),
            layout_priority: 4,
        },
        PluginDef {
            id: "app",
            name: "App launcher",
            description: "Gravity icons for real apps. Pin, drop, launch; icons group into folders.",
            resizable: false,
            desktop_item: Some(DesktopItem { path_key: "target", noun: "app floatie", group: false }),
            add_label: None,
            layout_priority: 10,
        },
        PluginDef {
            id: "file",
            name: "File",
            description: "Loose desktop files (documents, images, archives). Double-click opens them with their default app.",
            resizable: false,
            desktop_item: Some(DesktopItem { path_key: "target", noun: "file floatie", group: false }),
            add_label: None,
            layout_priority: 10,
        },
        PluginDef {
            id: "folder",
            name: "Folder",
            description: "Groups of launchers. Click to expand into a launch grid.",
            resizable: false,
            desktop_item: Some(DesktopItem { path_key: "path", noun: "folder floatie", group: true }),
            add_label: Some("+ folder"),
            layout_priority: 10,
        },
        PluginDef {
            id: "live2d",
            name: "Live2D",
            description: "Animated Live2D companion. Drag it around, click it for motions.",
            resizable: false,
            desktop_item: None,
            add_label: Some("+ live2d"),
            layout_priority: 1,
        },
        PluginDef {
            id: "visualizer",
            name: "Audio visualizer",
            description: "Spectrum bars for whatever the machine is playing (system audio, not the mic). Click it to switch bars/wave/dots.",
            resizable: true,
            desktop_item: None,
            add_label: Some("+ visualizer"),
            layout_priority: 5,
        },
        PluginDef {
            id: "sysmon",
            name: "System monitor",
            description: "Live CPU, 3D-GPU and RAM load with a scrolling graph. Click it to graph a different metric.",
            resizable: true,
            desktop_item: None,
            add_label: Some("+ system monitor"),
            layout_priority: 5,
        },
    ];
    assert(v@.len() == 9);
    assert(def_matches(v@[0], 0));
    assert(def_matches(v@[1], 1));
    assert(def_matches(v@[2], 2));
    assert(def_matches(v@[3], 3));
    assert(def_matches(v@[4], 4));
    assert(def_matches(v@[5], 5));
    assert(def_matches(v@[6], 6));
    assert(def_matches(v@[7], 7));
    assert(def_matches(v@[8], 8));
    v
}

/// The first built-in named `kind`.
pub open spec fn builtin_index(kind: Seq<char>) -> Option<int> {
    if exists|i: int| 0 <= i < builtin_ids().len() && builtin_ids()[i] == kind {
        Some(choose|i: int| 0 <= i < builtin_ids().len() && builtin_ids()[i] == kind)
    } else {
        None
    }
}

proof fn lemma_builtin_ids_distinct()
    ensures
        forall|i: int, j: int| 0 <= i < 9 && 0 <= j < 9 && i != j ==> builtin_ids()[i] != builtin_ids()[j],
{
    reveal_strlit("note");
    reveal_strlit("clock");
    reveal_strlit("pet");
    reveal_strlit("app");
    reveal_strlit("file");
    reveal_strlit("folder");
    reveal_strlit("live2d");
    reveal_strlit("visualizer");
    reveal_strlit("sysmon");
    assert forall|i: int, j: int| 0 <= i < 9 && 0 <= j < 9 && i != j implies builtin_ids()[i] != builtin_ids()[j] by {
        let a = builtin_ids()[i];
        let b = builtin_ids()[j];
        if a == b {
            assert(a.len() == b.len());
            assert(a[0] == b[0]);
            assert(a[a.len() - 1] == b[b.len() - 1]);
        }
    }
}

/// The index of the built-in named `kind`.
pub fn find(kind: &str) -> (r: Option<usize>)
    ensures
        r matches Some(i) ==> builtin_index(kind@) == Some(i as int) && i < 9,
        r is None <==> builtin_index(kind@) is None,
{
    let defs = plugins();
    let k = chars_of(kind);
    let mut i: usize = 0;
    while i < defs.len()
        invariant
            i <= defs.len() == 9,
            k@ == kind@,
            forall|j: int| 0 <= j < defs@.len() ==> def_matches(#[trigger] defs@[j], j),
            forall|j: int| 0 <= j < i ==> builtin_ids()[j] != kind@,
        decreases defs.len() - i,
    {
        assert(def_matches(defs@[i as int], i as int));
        if chars_eq(&chars_of(defs[i].id), &k) {
            proof {
                lemma_builtin_ids_distinct();
                let w = choose|w: int| 0 <= w < builtin_ids().len() && builtin_ids()[w] == kind@;
                assert(w == i);
            }
            return Some(i);
        }
        i += 1;
    }
    None
}

// ------------------------------------------------------------------------------------
// Queries over built-ins and installed plugins
// ------------------------------------------------------------------------------------

/// The first installed plugin with this id.
pub open spec fn installed_index(installed: Seq<InstalledPlugin>, kind: Seq<char>) -> Option<int> {
    if exists|i: int| 0 <= i < installed.len() && installed[i].id@ == kind {
        Some(choose|i: int| 0 <= i < installed.len() && installed[i].id@ == kind
            && forall|j: int| 0 <= j < i ==> installed[j].id@ != kind)
    } else {
        None
    }
}

fn installed_pos(installed: &[InstalledPlugin], kind: &str) -> (r: Option<usize>)
    ensures
        r matches Some(i) ==> installed_index(installed@, kind@) == Some(i as int) && i < installed.len(),
        r is None <==> installed_index(installed@, kind@) is None,
{
    let k = chars_of(kind);
    let mut i: usize = 0;
    while i < installed.len()
        invariant
            i <= installed.len(),
            k@ == kind@,
            forall|j: int| 0 <= j < i ==> installed@[j].id@ != kind@,
        decreases installed.len() - i,
    {
        if chars_eq(&chars_of(installed[i].id.as_str()), &k) {
            proof {
                let w = choose|w: int| 0 <= w < installed@.len() && installed@[w].id@ == kind@
                    && forall|j: int| 0 <= j < w ==> installed@[j].id@ != kind@;
                assert(w == i) by {
                    if w > i {
                        assert(installed@[i as int].id@ == kind@);
                    }
                }
            }
            return Some(i);
        }
        i += 1;
    }
    None
}

/// Is there a kind by this name, built in or installed?
pub open spec fn exists_spec(installed: Seq<InstalledPlugin>, kind: Seq<char>) -> bool {
    builtin_index(kind) is Some || installed_index(installed, kind) is Some
}

/// Is there a kind by this name, built in or installed?
pub fn kind_exists(installed: &[InstalledPlugin], kind: &str) -> (r: bool)
    ensures
        r == exists_spec(installed@, kind@),
{
    find(kind).is_some() || installed_pos(installed, kind).is_some()
}

pub open spec fn resizable_spec(installed: Seq<InstalledPlugin>, kind: Seq<char>) -> bool {
    match installed_index(installed, kind) {
        Some(i) => installed[i].resizable,
        None => match builtin_index(kind) {
            Some(i) => builtin_resizable(i),
            None => false,
        },
    }
}

/// Can a widget of this kind be resized? An installed plugin answers first; an unknown
/// kind cannot.
pub fn resizable(installed: &[InstalledPlugin], kind: &str) -> (r: bool)
    ensures
        r == resizable_spec(installed@, kind@),
{
    if let Some(i) = installed_pos(installed, kind) {
        return installed[i].resizable;
    }
    match find(kind) {
        Some(i) => {
            let defs = plugins();
            assert(def_matches(defs@[i as int], i as int));
            defs[i].resizable
        },
        None => false,
    }
}

pub open spec fn desktop_facts(installed: Seq<InstalledPlugin>, kind: Seq<char>) -> Option<(Seq<char>, bool)> {
    match installed_index(installed, kind) {
        Some(i) => match installed[i].desktop_item {
            Some(d) => Some((d.path_key@, d.group)),
            None => None,
        },
        None => match builtin_index(kind) {
            Some(i) => builtin_desktop(i),
            None => None,
        },
    }
}

fn desktop_of(installed: &[InstalledPlugin], kind: &str) -> (r: Option<(String, bool)>)
    ensures
        r matches Some((key, group)) ==> desktop_facts(installed@, kind@) == Some((key@, group)),
        r is None <==> desktop_facts(installed@, kind@) is None,
{
    if let Some(i) = installed_pos(installed, kind) {
        return match &installed[i].desktop_item {
            Some(d) => Some((d.path_key.clone(), d.group)),
            None => None,
        };
    }
    match find(kind) {
        Some(i) => {
            let defs = plugins();
            assert(def_matches(defs@[i as int], i as int));
            match &defs[i].desktop_item {
                Some(d) => Some((to_string(d.path_key), d.group)),
                None => None,
            }
        },
        None => None,
    }
}

/// True when the kind points at a single path on disk (an app or a loose file).
pub fn is_path_kind(installed: &[InstalledPlugin], kind: &str) -> (r: bool)
    ensures
        r == (match desktop_facts(installed@, kind@) { Some((_, group)) => !group, None => false }),
{
    match desktop_of(installed, kind) {
        Some((_, group)) => !group,
        None => false,
    }
}

/// True when the kind stands for something on disk at all: those get the shell verbs
/// and a Recycle Bin delete.
pub fn is_desktop_item(installed: &[InstalledPlugin], kind: &str) -> (r: bool)
    ensures
        r == (desktop_facts(installed@, kind@) is Some),
{
    desktop_of(installed, kind).is_some()
}

/// The record key a desktop item keeps its path in, or nothing for other kinds.
pub fn path_key(installed: &[InstalledPlugin], kind: &str) -> (r: Option<String>)
    ensures
        r matches Some(k) ==> desktop_facts(installed@, kind@) matches Some((key, _)) && key == k@,
        r is None <==> desktop_facts(installed@, kind@) is None,
{
    match desktop_of(installed, kind) {
        Some((key, _)) => Some(key),
        None => None,
    }
}

// ------------------------------------------------------------------------------------
// Versions
// ------------------------------------------------------------------------------------

/// A piece's leading digits as a `u64`, if there are any and they fit.
pub open spec fn piece_number(p: Seq<char>) -> Option<u64> {
    let n = lead_len(p, |c: char| is_digit(c));
    let d = p.take(n as int);
    if n == 0 || digits_value(d) > u64::MAX {
        None
    } else {
        Some(digits_value(d) as u64)
    }
}

/// A version's numeric fields: white space and leading `v`s dropped, then every
/// `.`-separated field read by its leading digits; nothing when the text is empty or any
/// field has no digits (or more than a `u64` holds).
pub open spec fn version_fields(text: Seq<char>) -> Option<Seq<u64>> {
    let s = trim_start_by(trim_spec(text), |c: char| c == 'v');
    if s.len() == 0 {
        None
    } else {
        fields_spec(s)
    }
}

/// Lexicographic order, a prefix first: how `Vec<u64>` compares.
pub open spec fn lex_less(a: Seq<u64>, b: Seq<u64>) -> bool
    decreases a.len(),
{
    if a.len() == 0 {
        b.len() > 0
    } else if b.len() == 0 {
        false
    } else if a[0] != b[0] {
        a[0] < b[0]
    } else {
        lex_less(a.skip(1), b.skip(1))
    }
}

/// How `incoming` compares to what is installed.
pub open spec fn version_relation_spec(installed: Option<Seq<char>>, incoming: Seq<char>) -> Seq<char> {
    match installed {
        None => "new"@,
        Some(inst) => match (version_fields(inst), version_fields(incoming)) {
            (Some(a), Some(b)) => if a == b {
                "same"@
            } else if lex_less(a, b) {
                "upgrade"@
            } else {
                "downgrade"@
            },
            _ => "unknown"@,
        },
    }
}

/// The number of leading digits of `v[from..to]`.
fn leading_digits(v: &Vec<char>, from: usize, to: usize) -> (n: usize)
    requires
        from <= to <= v.len(),
    ensures
        n as nat == lead_len(v@.subrange(from as int, to as int), |c: char| is_digit(c)),
        from + n <= to,
    decreases to - from,
{
    if from < to && '0' <= v[from] && v[from] <= '9' {
        let n = leading_digits(v, from + 1, to);
        assert(v@.subrange(from as int, to as int).skip(1) =~= v@.subrange(from + 1, to as int));
        n + 1
    } else {
        0
    }
}

proof fn lemma_lead_digits(p: Seq<char>)
    ensures
        all_digits(p.take(lead_len(p, |c: char| is_digit(c)) as int)),
        lead_len(p, |c: char| is_digit(c)) <= p.len(),
{
    crate::text::lemma_lead_len_bound(p, |c: char| is_digit(c));
}

/// A field's value: its leading digits as a `u64`.
fn piece_value(v: &Vec<char>, from: usize, to: usize) -> (r: Option<u64>)
    requires
        from <= to <= v.len(),
    ensures
        r == piece_number(v@.subrange(from as int, to as int)),
{
    let n = leading_digits(v, from, to);
    if n == 0 {
        return None;
    }
    let ghost p = v@.subrange(from as int, to as int);
    proof {
        lemma_lead_digits(p);
    }
    let digits = string_of_range(v, from, from + n);
    let dc = chars_of(digits.as_str());
    assert(dc@ =~= p.take(n as int));
    match crate::text::parse_unsigned_exec(&dc, u64::MAX) {
        Some(x) => {
            assert(dc@.len() == 0 || dc@[0] != '+') by {
                if dc@.len() > 0 {
                    assert(is_digit(dc@[0]));
                }
            }
            Some(x)
        },
        None => {
            assert(dc@.len() > 0 && dc@[0] != '+') by {
                assert(is_digit(dc@[0]));
            }
            None
        },
    }
}

/// Read a version's numeric fields.
fn parse_version(text: &str) -> (r: Option<Vec<u64>>)
    ensures
        r matches Some(v) ==> version_fields(text@) == Some(v@),
        r is None <==> version_fields(text@) is None,
{
    let t = trim(text);
    let mut start: usize = 0;
    while start < t.len() && t[start] == 'v'
        invariant
            start <= t.len(),
            forall|j: int| 0 <= j < start ==> t@[j] == 'v',
        decreases t.len() - start,
    {
        start += 1;
    }
    proof {
        lemma_lead_v(t@, start as int);
        assert(trim_start_by(trim_spec(text@), |c: char| c == 'v') =~= t@.skip(start as int));
    }
    if start == t.len() {
        return None;
    }
    fields_of(&t, start)
}

/// The numeric fields of `s`, when every `.`-separated field has some.
pub open spec fn fields_spec(s: Seq<char>) -> Option<Seq<u64>> {
    let pieces = split_on(s, '.');
    if forall|i: int| 0 <= i < pieces.len() ==> (#[trigger] piece_number(pieces[i])) is Some {
        Some(Seq::new(pieces.len(), |i: int| piece_number(pieces[i])->0))
    } else {
        None
    }
}

/// The fields of `t[start..]`.
fn fields_of(t: &Vec<char>, start: usize) -> (r: Option<Vec<u64>>)
    requires
        start < t.len(),
    ensures
        r matches Some(v) ==> fields_spec(t@.skip(start as int)) == Some(v@),
        r is None <==> fields_spec(t@.skip(start as int)) is None,
{
    let ghost s = t@.skip(start as int);
    let mut out: Vec<u64> = Vec::new();
    let mut piece_start: usize = start;
    let mut i: usize = start;
    assert(t@.subrange(start as int, start as int) =~= Seq::<char>::empty());
    while i < t.len()
        invariant
            start <= piece_start <= i <= t.len(),
            s == t@.skip(start as int),
            ({
                let pieces = split_on(t@.subrange(start as int, i as int), '.');
                &&& pieces.len() == out@.len() + 1
                &&& pieces.last() == t@.subrange(piece_start as int, i as int)
                &&& forall|k: int| 0 <= k < out@.len() ==> piece_number(#[trigger] pieces[k]) == Some(out@[k])
            }),
        decreases t.len() - i,
    {
        let ghost before = t@.subrange(start as int, i as int);
        proof {
            assert(t@.subrange(start as int, i + 1) =~= before.push(t@[i as int]));
            lemma_split_push(before, t@[i as int], '.');
        }
        if t[i] == '.' {
            match piece_value(t, piece_start, i) {
                None => {
                    proof {
                        let k = i - start;
                        assert(s.take(k) =~= before);
                        assert(s.take(k + 1) =~= t@.subrange(start as int, i + 1));
                        lemma_split_prefix(s, k + 1, '.');
                        let m = out@.len() as int;
                        assert(split_on(s, '.')[m] == split_on(s.take(k + 1), '.')[m]);
                        assert(piece_number(split_on(s, '.')[m]) is None);
                    }
                    return None;
                },
                Some(x) => {
                    out.push(x);
                },
            }
            piece_start = i + 1;
        }
        i += 1;
        assert(t@.subrange(piece_start as int, i as int) =~= (if t@[i - 1] == '.' {
            Seq::<char>::empty()
        } else {
            t@.subrange(piece_start as int, i - 1).push(t@[i - 1])
        }));
    }
    assert(t@.subrange(start as int, t.len() as int) =~= s);
    match piece_value(t, piece_start, t.len()) {
        None => {
            proof {
                let pieces = split_on(s, '.');
                assert(piece_number(pieces[pieces.len() - 1]) is None);
            }
            None
        },
        Some(x) => {
            out.push(x);
            proof {
                let pieces = split_on(s, '.');
                assert forall|k: int| 0 <= k < pieces.len() implies (#[trigger] piece_number(pieces[k])) is Some by {
                    if k < out@.len() - 1 {
                        assert(piece_number(pieces[k]) == Some(out@[k]));
                    }
                }
                assert(out@ =~= Seq::new(pieces.len(), |k: int| piece_number(pieces[k])->0));
            }
            Some(out)
        },
    }
}

proof fn lemma_lead_v(t: Seq<char>, start: int)
    requires
        0 <= start <= t.len(),
        forall|j: int| 0 <= j < start ==> t[j] == 'v',
        start == t.len() || t[start] != 'v',
    ensures
        lead_len(t, |c: char| c == 'v') == start,
    decreases start,
{
    if start > 0 {
        lemma_lead_v(t.skip(1), start - 1);
    }
}

fn lex_less_exec(a: &Vec<u64>, b: &Vec<u64>) -> (r: bool)
    ensures
        r == lex_less(a@, b@),
{
    let mut i: usize = 0;
    while i < a.len() && i < b.len() && a[i] == b[i]
        invariant
            i <= a.len(),
            i <= b.len(),
            lex_less(a@, b@) == lex_less(a@.skip(i as int), b@.skip(i as int)),
        decreases a.len() - i,
    {
        assert(a@.skip(i as int).skip(1) =~= a@.skip(i + 1));
        assert(b@.skip(i as int).skip(1) =~= b@.skip(i + 1));
        i += 1;
    }
    if i == a.len() {
        i < b.len()
    } else if i == b.len() {
        false
    } else {
        a[i] < b[i]
    }
}

fn vec_eq(a: &Vec<u64>, b: &Vec<u64>) -> (r: bool)
    ensures
        r == (a@ == b@),
{
    if a.len() != b.len() {
        return false;
    }
    let mut i: usize = 0;
    while i < a.len()
        invariant
            i <= a.len() == b.len(),
            forall|j: int| 0 <= j < i ==> a@[j] == b@[j],
        decreases a.len() - i,
    {
        if a[i] != b[i] {
            return false;
        }
        i += 1;
    }
    assert(a@ =~= b@);
    true
}

/// How `incoming` compares to what is already installed: `new`, `same`, `upgrade`,
/// `downgrade`, or `unknown` when either is not a version. Numeric fields, so 1.10 is
/// newer than 1.9.
pub fn version_relation(installed: Option<&str>, incoming: &str) -> (r: &'static str)
    ensures
        r@ == version_relation_spec(match installed { Some(s) => Some(s@), None => None }, incoming@),
{
    let inst = match installed {
        None => return "new",
        Some(s) => s,
    };
    match (parse_version(inst), parse_version(incoming)) {
        (Some(a), Some(b)) => {
            if vec_eq(&a, &b) {
                "same"
            } else if lex_less_exec(&a, &b) {
                "upgrade"
            } else {
                "downgrade"
            }
        },
        _ => "unknown",
    }
}

// ------------------------------------------------------------------------------------
// Reading a plugin's manifest
// ------------------------------------------------------------------------------------

/// `{:?}` of a string: quoted, with quotes, backslashes and what does not print escaped.
pub uninterp spec fn debug_str(s: Seq<char>) -> Seq<char>;

/// Formats `s` with `{:?}`; the result is named, not stated.
#[verifier::external_body]
pub(crate) fn debug_quoted(s: &str) -> (r: String)
    ensures
        r@ == debug_str(s@),
{
    format!("{:?}", s)
}

/// The chars a plugin id is made of.
pub open spec fn id_char(c: char) -> bool {
    ('a' <= c && c <= 'z') || ('0' <= c && c <= '9') || c == '-' || c == '_'
}

/// A usable plugin id: 2-32 characters of `a-z`, `0-9`, `-` and `_`, starting with a
/// letter or a digit.
pub open spec fn valid_id_spec(id: Seq<char>) -> bool {
    &&& 2 <= id.len() <= 32
    &&& (('a' <= id[0] && id[0] <= 'z') || ('0' <= id[0] && id[0] <= '9'))
    &&& forall|i: int| 0 <= i < id.len() ==> id_char(#[trigger] id[i])
}

/// Is `id` a usable plugin id?
pub fn valid_id(id: &[char]) -> (r: bool)
    ensures
        r == valid_id_spec(id@),
{
    if id.len() < 2 || id.len() > 32 {
        return false;
    }
    let c = id[0];
    if !(('a' <= c && c <= 'z') || ('0' <= c && c <= '9')) {
        return false;
    }
    let mut i: usize = 0;
    while i < id.len()
        invariant
            i <= id.len(),
            forall|j: int| 0 <= j < i ==> id_char(#[trigger] id@[j]),
        decreases id.len() - i,
    {
        let c = id[i];
        if !(('a' <= c && c <= 'z') || ('0' <= c && c <= '9') || c == '-' || c == '_') {
            assert(!id_char(id@[i as int]));
            return false;
        }
        i += 1;
    }
    true
}

/// The id a manifest declares, trimmed and lowered.
pub open spec fn declared_id(field: Option<Seq<char>>) -> Seq<char> {
    ascii_lower_seq(trim_spec(match field { Some(s) => s, None => seq![] }))
}

/// The plugin's id, or why it is not usable. Built-ins are refused here rather than
/// merged over later, because a plugin sharing a built-in's id would have its records
/// read as the built-in's.
pub fn validate_plugin_id(field: Option<&str>) -> (r: Result<String, String>)
    ensures
        ({
            let id = declared_id(match field { Some(s) => Some(s@), None => None });
            if !valid_id_spec(id) {
                r matches Err(e) && e@ == "id "@ + debug_str(id) + " must be 2-32 chars of a-z, 0-9, '-' or '_'"@
            } else if builtin_index(id) is Some {
                r matches Err(e) && e@ == "id \""@ + id + "\" is a built-in plugin"@
            } else {
                r matches Ok(v) && v@ == id
            }
        }),
{
    let raw = match field {
        Some(s) => s,
        None => "",
    };
    proof {
        reveal_strlit("");
    }
    let t = trimmed(raw);
    let id_chars = to_ascii_lowercase(t.as_str());
    let id = string_of(&id_chars);
    if !valid_id(&id_chars) {
        let mut e = to_string("id ");
        push_str(&mut e, debug_quoted(id.as_str()).as_str());
        push_str(&mut e, " must be 2-32 chars of a-z, 0-9, '-' or '_'");
        return Err(e);
    }
    if find(id.as_str()).is_some() {
        let mut e = to_string("id \"");
        push_str(&mut e, id.as_str());
        push_str(&mut e, "\" is a built-in plugin");
        return Err(e);
    }
    Ok(id)
}

/// The `apiVersion` a manifest declares: 0 when it is missing or not a whole number.
pub open spec fn declared_api(field: Option<u64>) -> u64 {
    match field { Some(v) => v, None => 0 }
}

/// The API version, or why this build cannot load the plugin. A range, not an equality:
/// the format is additive, so every older version still loads, and only a newer (or a
/// missing) one is refused; a number too large for any version is newer too.
pub fn check_api_version(field: Option<u64>) -> (r: Result<u32, String>)
    ensures
        PLUGIN_API_MIN <= declared_api(field) <= PLUGIN_API_VERSION ==> r == Ok::<u32, String>(declared_api(field) as u32),
        !(PLUGIN_API_MIN <= declared_api(field) <= PLUGIN_API_VERSION) ==> (r matches Err(e) && e@
            == "apiVersion "@ + dec_digits(declared_api(field) as nat) + " is not supported (this build speaks "@
            + dec_digits(PLUGIN_API_MIN as nat) + ".."@ + dec_digits(PLUGIN_API_VERSION as nat) + ")"@),
{
    let api: u64 = match field {
        Some(v) => v,
        None => 0,
    };
    if PLUGIN_API_MIN as u64 <= api && api <= PLUGIN_API_VERSION as u64 {
        return Ok(api as u32);
    }
    let mut e = to_string("apiVersion ");
    push_dec(&mut e, api);
    push_str(&mut e, " is not supported (this build speaks ");
    push_dec(&mut e, PLUGIN_API_MIN as u64);
    push_str(&mut e, "..");
    push_dec(&mut e, PLUGIN_API_VERSION as u64);
    push_str(&mut e, ")");
    Err(e)
}

/// The plugin's name, which it must have.
pub fn check_name(field: Option<&str>) -> (r: Result<String, String>)
    ensures
        ({
            let name = trim_spec(match field { Some(s) => s@, None => seq![] });
            if name.len() == 0 {
                r matches Err(e) && e@ == "name is required"@
            } else {
                r matches Ok(n) && n@ == name
            }
        }),
{
    let raw = match field {
        Some(s) => s,
        None => "",
    };
    proof {
        reveal_strlit("");
    }
    let name = trimmed(raw);
    if name.as_str().unicode_len() == 0 {
        return Err(to_string("name is required"));
    }
    Ok(name)
}

/// What a manifest's `desktopItem` says, as plain values: the path key, the noun and the
/// group flag, each when it is there and of the right type.
pub struct DesktopItemFields {
    pub path_key: Option<String>,
    pub noun: Option<String>,
    pub group: Option<bool>,
}

/// The desktop item a manifest declares: the path under "target" unless it says
/// otherwise, the removal dialog's noun after the plugin's name, a single item.
pub fn desktop_item_from(fields: &DesktopItemFields, name: &str) -> (r: PluginDesktopItem)
    ensures
        r.path_key@ == (match fields.path_key { Some(k) => k@, None => "target"@ }),
        r.noun@ == (match fields.noun { Some(n) => n@, None => name@ + " floatie"@ }),
        r.group == (match fields.group { Some(g) => g, None => false }),
{
    let path_key = match &fields.path_key {
        Some(k) => k.clone(),
        None => to_string("target"),
    };
    let noun = match &fields.noun {
        Some(n) => n.clone(),
        None => {
            let mut n = to_string(name);
            push_str(&mut n, " floatie");
            n
        },
    };
    let group = match fields.group {
        Some(g) => g,
        None => false,
    };
    PluginDesktopItem { path_key, noun, group }
}

/// Does the entry point leave the plugin folder: a root, or a `..` among its parts?
pub open spec fn escapes_folder(entry: Seq<char>) -> bool {
    has_root(entry) || exists|i: int| 0 <= i < comps(entry).len() && #[trigger] comps(entry)[i] == ".."@
}

/// The module a manifest names, `index.js` unless it says otherwise, or why it cannot be
/// used: it has to be a relative path inside the plugin folder. Whether the file is
/// there is the disk's to say.
pub fn check_entry(field: Option<&str>) -> (r: Result<String, String>)
    ensures
        ({
            let entry = match field { Some(s) => s@, None => "index.js"@ };
            if escapes_folder(entry) {
                r matches Err(e) && e@ == "entry "@ + debug_str(entry) + " must be a relative path inside the plugin folder"@
            } else {
                r matches Ok(v) && v@ == entry
            }
        }),
{
    let entry = match field {
        Some(s) => s,
        None => "index.js",
    };
    let v = chars_of(entry);
    let escapes = if has_root_exec(&v) {
        true
    } else {
        let parts = components(&v);
        let dd = chars_of("..");
        let mut found = false;
        let mut i: usize = 0;
        while i < parts.len()
            invariant
                i <= parts.len(),
                seqs(parts@) == comps(entry@),
                dd@ == ".."@,
                found == exists|j: int| 0 <= j < i && #[trigger] comps(entry@)[j] == ".."@,
            decreases parts.len() - i,
        {
            if chars_eq(&parts[i], &dd) {
                found = true;
            }
            assert(seqs(parts@)[i as int] == parts@[i as int]@);
            i += 1;
        }
        found
    };
    if escapes {
        let mut e = to_string("entry ");
        push_str(&mut e, debug_quoted(entry).as_str());
        push_str(&mut e, " must be a relative path inside the plugin folder");
        return Err(e);
    }
    Ok(to_string(entry))
}

// ------------------------------------------------------------------------------------
// Loading the plugins folder
// ------------------------------------------------------------------------------------

/// What loading the plugins folder did: a line per accepted plugin, a line per folder
/// refused, and the plugins now installed (nothing when the folder could not be read,
/// in which case the ones installed before stay).
pub struct InstallOutcome {
    pub accepted: Vec<String>,
    pub rejected: Vec<String>,
    pub loaded: Option<Vec<InstalledPlugin>>,
}

/// One plugin folder as the reader found it: its name, and the plugin or why not.
pub type FolderRead = (String, Result<InstalledPlugin, String>);

/// The bookkeeping of a load, as plain values.
pub struct LoadState {
    pub accepted: Seq<Seq<char>>,
    pub rejected: Seq<Seq<char>>,
    pub ids: Seq<Seq<char>>,
    /// The plugins loaded, as the reader gave them.
    pub plugins: Seq<InstalledPlugin>,
}

pub open spec fn accepted_line(p: InstalledPlugin) -> Seq<char> {
    if p.version@.len() == 0 { p.id@ } else { p.id@ + " v"@ + p.version@ }
}

/// One folder applied: a plugin whose id is already loaded is a duplicate, a good one is
/// accepted, a bad one is reported with its folder's name.
pub open spec fn load_step(s: LoadState, e: FolderRead) -> LoadState {
    match e.1 {
        Ok(p) => if s.ids.contains(p.id@) {
            LoadState { rejected: s.rejected.push(p.id@ + ": duplicate id"@), ..s }
        } else {
            LoadState { accepted: s.accepted.push(accepted_line(p)), ids: s.ids.push(p.id@), plugins: s.plugins.push(p), ..s }
        },
        Err(reason) => LoadState { rejected: s.rejected.push(e.0@ + ": "@ + reason@), ..s },
    }
}

pub open spec fn load_all(es: Seq<FolderRead>) -> LoadState
    decreases es.len(),
{
    if es.len() == 0 {
        LoadState { accepted: seq![], rejected: seq![], ids: seq![], plugins: seq![] }
    } else {
        load_step(load_all(es.drop_last()), es.last())
    }
}

pub open spec fn strings(v: Seq<String>) -> Seq<Seq<char>> {
    Seq::new(v.len(), |i: int| v[i]@)
}

pub open spec fn ids_of(v: Seq<InstalledPlugin>) -> Seq<Seq<char>> {
    Seq::new(v.len(), |i: int| v[i].id@)
}

fn loaded_has(loaded: &Vec<InstalledPlugin>, id: &String) -> (r: bool)
    ensures
        r == ids_of(loaded@).contains(id@),
{
    let mut i: usize = 0;
    while i < loaded.len()
        invariant
            i <= loaded.len(),
            forall|j: int| 0 <= j < i ==> loaded@[j].id@ != id@,
        decreases loaded.len() - i,
    {
        if loaded[i].id == *id {
            assert(ids_of(loaded@)[i as int] == id@);
            return true;
        }
        i += 1;
    }
    false
}

/// Load the plugin folders the reader went through, in order. A broken plugin is
/// reported, never fatal: one bad folder must not cost the user their desktop. A
/// folder list that could not be read is the one rejection, and leaves the installed
/// plugins as they were.
pub fn install_from(listing: Result<Vec<FolderRead>, String>) -> (r: InstallOutcome)
    ensures
        listing matches Err(e) ==> strings(r.accepted@) == Seq::<Seq<char>>::empty()
            && strings(r.rejected@) == seq![e@] && r.loaded is None,
        listing matches Ok(es) ==> ({
            let s = load_all(es@);
            &&& strings(r.accepted@) == s.accepted
            &&& strings(r.rejected@) == s.rejected
            &&& r.loaded matches Some(l) && l@ == s.plugins && ids_of(l@) == s.ids
        }),
{
    let mut listing = match listing {
        Err(e) => {
            let mut rejected: Vec<String> = Vec::new();
            rejected.push(e);
            assert(strings(rejected@) =~= seq![rejected@[0]@]);
            let accepted: Vec<String> = Vec::new();
            assert(strings(accepted@) =~= Seq::<Seq<char>>::empty());
            return InstallOutcome { accepted, rejected, loaded: None };
        },
        Ok(l) => l,
    };
    let ghost all = listing@;
    assert(all.len() == listing.len());
    assert(all.take(0) =~= Seq::<FolderRead>::empty());
    assert(all.skip(0) =~= all);
    let mut accepted: Vec<String> = Vec::new();
    let mut rejected: Vec<String> = Vec::new();
    let mut loaded: Vec<InstalledPlugin> = Vec::new();
    let mut k: usize = 0;
    while listing.len() > 0
        invariant
            k + listing@.len() == all.len(),
            all.len() <= usize::MAX,
            listing@ == all.skip(k as int),
            ({
                let s = load_all(all.take(k as int));
                &&& strings(accepted@) == s.accepted
                &&& strings(rejected@) == s.rejected
                &&& ids_of(loaded@) == s.ids
                &&& loaded@ == s.plugins
            }),
        decreases listing@.len(),
    {
        let (name, result) = listing.remove(0);
        proof {
            assert(all.take(k + 1).drop_last() =~= all.take(k as int));
            assert(all.take(k + 1).last() == all[k as int]);
            assert(all[k as int] == (name, result));
        }
        match result {
            Ok(plugin) => {
                if loaded_has(&loaded, &plugin.id) {
                    let mut line = plugin.id.clone();
                    push_str(&mut line, ": duplicate id");
                    let ghost before = rejected@;
                    rejected.push(line);
                    assert(strings(rejected@) =~= strings(before).push(line@));
                } else {
                    let mut line = plugin.id.clone();
                    if plugin.version.as_str().unicode_len() > 0 {
                        push_str(&mut line, " v");
                        push_str(&mut line, plugin.version.as_str());
                    }
                    let ghost before = accepted@;
                    let ghost before_ids = loaded@;
                    accepted.push(line);
                    loaded.push(plugin);
                    assert(strings(accepted@) =~= strings(before).push(line@));
                    assert(ids_of(loaded@) =~= ids_of(before_ids).push(loaded@.last().id@));
                }
            },
            Err(reason) => {
                let mut line = name;
                push_str(&mut line, ": ");
                push_str(&mut line, reason.as_str());
                let ghost before = rejected@;
                rejected.push(line);
                assert(strings(rejected@) =~= strings(before).push(line@));
            },
        }
        k += 1;
        assert(listing@ =~= all.skip(k as int));
    }
    assert(all.take(k as int) =~= all);
    InstallOutcome { accepted, rejected, loaded: Some(loaded) }
}

/// Loading never installs two plugins with one id: the first folder with an id wins and
/// every later one is reported as a duplicate.
pub proof fn loaded_ids_are_distinct(es: Seq<FolderRead>)
    ensures
        forall|i: int, j: int| 0 <= i < j < load_all(es).ids.len() ==> load_all(es).ids[i] != load_all(es).ids[j],
    decreases es.len(),
{
    if es.len() > 0 {
        loaded_ids_are_distinct(es.drop_last());
        let s = load_all(es.drop_last());
        let t = load_all(es);
        let grew = es.last().1 matches Ok(p) && !s.ids.contains(p.id@);
        if grew {
            let p = es.last().1->Ok_0;
            assert(t.ids == s.ids.push(p.id@));
            assert forall|i: int, j: int| 0 <= i < j < t.ids.len() implies t.ids[i] != t.ids[j] by {
                if j == t.ids.len() - 1 {
                    assert(s.ids[i] == t.ids[i]);
                    if t.ids[i] == t.ids[j] {
                        assert(s.ids.contains(p.id@));
                    }
                } else {
                    assert(s.ids[i] == t.ids[i]);
                    assert(s.ids[j] == t.ids[j]);
                }
            }
        } else {
            assert(t.ids == s.ids);
        }
    }
}

/// Every folder is accounted for, once: it is either accepted or rejected, and the
/// plugins loaded are exactly the accepted ones, in order, as the reader gave them. A folder whose plugin reuses an id loaded before it is
/// rejected as `<id>: duplicate id`.
pub proof fn every_folder_is_accounted_for(es: Seq<FolderRead>)
    ensures
        load_all(es).accepted.len() + load_all(es).rejected.len() == es.len(),
        load_all(es).ids.len() == load_all(es).accepted.len(),
        load_all(es).plugins.len() == load_all(es).ids.len(),
        forall|i: int| 0 <= i < load_all(es).plugins.len() ==> (#[trigger] load_all(es).plugins[i]).id@ == load_all(es).ids[i]
            && accepted_line(load_all(es).plugins[i]) == load_all(es).accepted[i],
        es.len() > 0 ==> (es.last().1 matches Ok(p) ==> (load_all(es.drop_last()).ids.contains(p.id@) ==> {
            &&& load_all(es).rejected == load_all(es.drop_last()).rejected.push(p.id@ + ": duplicate id"@)
            &&& load_all(es).ids == load_all(es.drop_last()).ids
            &&& load_all(es).plugins == load_all(es.drop_last()).plugins
        })),
    decreases es.len(),
{
    if es.len() > 0 {
        every_folder_is_accounted_for(es.drop_last());
    }
}

/// Versions compare field by field: where two versions first differ, the smaller field
/// is the older version, and a version that runs out first, the rest being equal, is
/// older.
pub proof fn versions_compare_at_their_first_difference(a: Seq<u64>, b: Seq<u64>, k: int)
    requires
        0 <= k <= a.len(),
        k <= b.len(),
        a.take(k) == b.take(k),
    ensures
        k < a.len() && k < b.len() && a[k] != b[k] ==> (lex_less(a, b) <==> a[k] < b[k]),
        k == a.len() && k < b.len() ==> lex_less(a, b) && !lex_less(b, a),
        k == a.len() && k == b.len() ==> a == b,
    decreases k,
{
    if k == a.len() && k == b.len() {
        assert(a =~= a.take(k));
        assert(b =~= b.take(k));
    }
    if k > 0 {
        assert(a[0] == a.take(k)[0] && b[0] == b.take(k)[0]);
        assert(a.skip(1).take(k - 1) =~= b.skip(1).take(k - 1)) by {
            assert forall|j: int| 0 <= j < k - 1 implies #[trigger] a.skip(1).take(k - 1)[j] == b.skip(1).take(k - 1)[j] by {
                assert(a[j + 1] == a.take(k)[j + 1]);
                assert(b[j + 1] == b.take(k)[j + 1]);
                assert(a.skip(1).take(k - 1)[j] == a[j + 1]);
                assert(b.skip(1).take(k - 1)[j] == b[j + 1]);
            }
        }
        versions_compare_at_their_first_difference(a.skip(1), b.skip(1), k - 1);
        if k == a.len() && k == b.len() {
        } else {
            assert(a.len() > 0 && b.len() > 0);
        }
    }
}

/// The first index where two versions differ, or where the shorter one ends.
proof fn first_difference(a: Seq<u64>, b: Seq<u64>) -> (k: int)
    ensures
        0 <= k <= a.len(),
        k <= b.len(),
        a.take(k) == b.take(k),
        k == a.len() || k == b.len() || a[k] != b[k],
    decreases a.len(),
{
    if a.len() == 0 || b.len() == 0 || a[0] != b[0] {
        assert(a.take(0) =~= b.take(0));
        0
    } else {
        let k = first_difference(a.skip(1), b.skip(1));
        assert(a.take(k + 1) =~= seq![a[0]] + a.skip(1).take(k));
        assert(b.take(k + 1) =~= seq![b[0]] + b.skip(1).take(k));
        k + 1
    }
}

proof fn lemma_not_older_than_itself(a: Seq<u64>)
    ensures
        !lex_less(a, a),
    decreases a.len(),
{
    if a.len() > 0 {
        lemma_not_older_than_itself(a.skip(1));
    }
}

/// Of two different versions exactly one is the older: the order is a strict total order.
pub proof fn one_of_two_versions_is_older(a: Seq<u64>, b: Seq<u64>)
    ensures
        !lex_less(a, a),
        a != b ==> (lex_less(a, b) <==> !lex_less(b, a)),
{
    let k = first_difference(a, b);
    versions_compare_at_their_first_difference(a, b, k);
    versions_compare_at_their_first_difference(b, a, k);
    lemma_not_older_than_itself(a);
}

/// Swapping what is installed and what comes in turns an upgrade into a downgrade and
/// back, and leaves `same` and `unknown` as they are.
pub proof fn swapping_the_versions_swaps_upgrade_and_downgrade(x: Seq<char>, y: Seq<char>)
    ensures
        version_relation_spec(Some(x), y) == "upgrade"@ <==> version_relation_spec(Some(y), x) == "downgrade"@,
        version_relation_spec(Some(x), y) == "same"@ <==> version_relation_spec(Some(y), x) == "same"@,
        version_relation_spec(Some(x), y) == "unknown"@ <==> version_relation_spec(Some(y), x) == "unknown"@,
{
    reveal_strlit("upgrade");
    reveal_strlit("downgrade");
    reveal_strlit("same");
    reveal_strlit("unknown");
    assert("upgrade"@.len() == 7 && "downgrade"@.len() == 9 && "same"@.len() == 4 && "unknown"@.len() == 7);
    assert("upgrade"@[0] == 'u' && "unknown"@[1] == 'n' && "upgrade"@[1] == 'p');
    assert("upgrade"@ != "downgrade"@ && "upgrade"@ != "same"@ && "upgrade"@ != "unknown"@);
    assert("downgrade"@ != "same"@ && "downgrade"@ != "unknown"@ && "same"@ != "unknown"@);
    match (version_fields(x), version_fields(y)) {
        (Some(a), Some(b)) => {
            one_of_two_versions_is_older(a, b);
        },
        _ => {},
    }
}

/// `folder` is the sixth built-in, and its items are grouped.
pub(crate) proof fn lemma_folder_is_builtin_five()
    ensures
        builtin_index("folder"@) == Some(5int),
        builtin_desktop(5) == Some(("path"@, true)),
{
    lemma_builtin_ids_distinct();
    assert(builtin_ids()[5] == "folder"@);
    let i = choose|i: int| 0 <= i < builtin_ids().len() && builtin_ids()[i] == "folder"@;
    assert(i == 5);
}

} // verus!
