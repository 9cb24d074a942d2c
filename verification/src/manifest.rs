//! Reading one plugin folder's `plugin.json`.
//!
//! The manifest is JSON, read with `serde_json`; every field the checks look at is taken
//! out of the text through the small readers below. The checks then run in a fixed
//! order, and the first that fails is the plugin's refusal: the id, the API version, the
//! name, the sizes, the entry point (inside the folder, then present), the default data.
//! Reading the file, the sizes (which are floating point) and whether the entry file is
//! there are the caller's.

use vstd::prelude::*;
use crate::live2d::{json_text, json_text_field};
use crate::paths::{join, join_spec};
use crate::plugins::{
    builtin_index, check_api_version, check_entry, check_name, declared_api, declared_id, debug_str,
    desktop_item_from, escapes_folder, validate_plugin_id, valid_id_spec, DesktopItemFields, InstalledPlugin,
    PluginDesktopItem, DEFAULT_LAYOUT_PRIORITY, PLUGIN_API_MIN, PLUGIN_API_VERSION,
};
use crate::text::{dec_digits, push_str, to_string, trim_spec};

verus! {

// ------------------------------------------------------------------------------------
// Fields of the manifest, as serde_json reads them
// ------------------------------------------------------------------------------------

/// Why `content` is not JSON, in serde_json's words; nothing when it parses.
pub uninterp spec fn json_error(content: Seq<char>) -> Option<Seq<char>>;

/// The whole number (`u64`) at `key` of the JSON object `content` is.
pub uninterp spec fn json_u64(content: Seq<char>, key: Seq<char>) -> Option<u64>;

/// The whole number (`i64`) at `key` of the JSON object `content` is.
pub uninterp spec fn json_i64(content: Seq<char>, key: Seq<char>) -> Option<i64>;

/// The boolean at `key` of the JSON object `content` is.
pub uninterp spec fn json_bool(content: Seq<char>, key: Seq<char>) -> Option<bool>;

/// Whether the value at `key` of the JSON object `content` is an object; nothing when
/// there is no value there.
pub uninterp spec fn json_object_at(content: Seq<char>, key: Seq<char>) -> Option<bool>;

/// The text at `key` of the object at `outer` of the JSON object `content` is.
pub uninterp spec fn json_inner_text(content: Seq<char>, outer: Seq<char>, key: Seq<char>) -> Option<Seq<char>>;

/// The boolean at `key` of the object at `outer` of the JSON object `content` is.
pub uninterp spec fn json_inner_bool(content: Seq<char>, outer: Seq<char>, key: Seq<char>) -> Option<bool>;

/// Calls `serde_json::from_str` for a `serde_json::Value` and, when it fails, turns the
/// `serde_json::Error` into its message with `to_string`. Named by `json_error`.
#[verifier::external_body]
fn json_error_of(content: &str) -> (r: Option<String>)
    ensures
        match r {
            Some(e) => json_error(content@) == Some(e@),
            None => json_error(content@) is None,
        },
{
    serde_json::from_str::<serde_json::Value>(content).err().map(|e| e.to_string())
}

/// Calls `serde_json::from_str` for a `serde_json::Value`, then `Value::get` and
/// `Value::as_u64`. Named by `json_u64`.
#[verifier::external_body]
fn json_u64_field(content: &str, key: &str) -> (r: Option<u64>)
    ensures
        r == json_u64(content@, key@),
{
    serde_json::from_str::<serde_json::Value>(content).ok().and_then(|v| v.get(key).and_then(|f| f.as_u64()))
}

/// Calls `serde_json::from_str` for a `serde_json::Value`, then `Value::get` and
/// `Value::as_i64`. Named by `json_i64`.
#[verifier::external_body]
fn json_i64_field(content: &str, key: &str) -> (r: Option<i64>)
    ensures
        r == json_i64(content@, key@),
{
    serde_json::from_str::<serde_json::Value>(content).ok().and_then(|v| v.get(key).and_then(|f| f.as_i64()))
}

/// Calls `serde_json::from_str` for a `serde_json::Value`, then `Value::get` and
/// `Value::as_bool`. Named by `json_bool`.
#[verifier::external_body]
fn json_bool_field(content: &str, key: &str) -> (r: Option<bool>)
    ensures
        r == json_bool(content@, key@),
{
    serde_json::from_str::<serde_json::Value>(content).ok().and_then(|v| v.get(key).and_then(|f| f.as_bool()))
}

/// Calls `serde_json::from_str` for a `serde_json::Value`, then `Value::get` and
/// `Value::is_object`. Named by `json_object_at`.
#[verifier::external_body]
fn json_object_field(content: &str, key: &str) -> (r: Option<bool>)
    ensures
        r == json_object_at(content@, key@),
{
    serde_json::from_str::<serde_json::Value>(content).ok().and_then(|v| v.get(key).map(|f| f.is_object()))
}

/// Calls `serde_json::from_str` for a `serde_json::Value`, then `Value::get` of `outer`,
/// `Value::as_object`, `Map::get` of `key` and `Value::as_str`. Named by
/// `json_inner_text`.
#[verifier::external_body]
fn json_inner_text_field(content: &str, outer: &str, key: &str) -> (r: Option<String>)
    ensures
        match r {
            Some(s) => json_inner_text(content@, outer@, key@) == Some(s@),
            None => json_inner_text(content@, outer@, key@) is None,
        },
{
    let v = serde_json::from_str::<serde_json::Value>(content).ok()?;
    v.get(outer)?.as_object()?.get(key)?.as_str().map(|s| s.to_string())
}

/// Calls `serde_json::from_str` for a `serde_json::Value`, then `Value::get` of `outer`,
/// `Value::as_object`, `Map::get` of `key` and `Value::as_bool`. Named by
/// `json_inner_bool`.
#[verifier::external_body]
fn json_inner_bool_field(content: &str, outer: &str, key: &str) -> (r: Option<bool>)
    ensures
        r == json_inner_bool(content@, outer@, key@),
{
    let v = serde_json::from_str::<serde_json::Value>(content).ok()?;
    v.get(outer)?.as_object()?.get(key)?.as_bool()
}

// ------------------------------------------------------------------------------------
// The checks, in order
// ------------------------------------------------------------------------------------

/// The text at `key`, or the empty text.
pub open spec fn text_or_empty(content: Seq<char>, key: Seq<char>) -> Seq<char> {
    match json_text(content, key) {
        Some(s) => s,
        None => seq![],
    }
}

/// The plugin's id, as the manifest declares it.
pub open spec fn manifest_id(content: Seq<char>) -> Seq<char> {
    declared_id(json_text(content, "id"@))
}

/// The module the manifest names, relative to the plugin folder: `index.js` unless it
/// says otherwise.
pub open spec fn declared_entry_spec(content: Seq<char>) -> Seq<char> {
    match json_text(content, "entry"@) {
        Some(e) => e,
        None => "index.js"@,
    }
}

/// Why the id is refused, if it is.
pub open spec fn id_refusal(id: Seq<char>) -> Option<Seq<char>> {
    if !valid_id_spec(id) {
        Some("id "@ + debug_str(id) + " must be 2-32 chars of a-z, 0-9, '-' or '_'"@)
    } else if builtin_index(id) is Some {
        Some("id \""@ + id + "\" is a built-in plugin"@)
    } else {
        None
    }
}

/// Why the API version is refused, if it is.
pub open spec fn api_refusal(api: u64) -> Option<Seq<char>> {
    if PLUGIN_API_MIN <= api <= PLUGIN_API_VERSION {
        None
    } else {
        Some("apiVersion "@ + dec_digits(api as nat) + " is not supported (this build speaks "@
            + dec_digits(PLUGIN_API_MIN as nat) + ".."@ + dec_digits(PLUGIN_API_VERSION as nat) + ")"@)
    }
}

/// Why the folder is refused, if it is: the first check that fails, in the order the
/// checks run. `sizes` is what the check of the sizes said, `entry_exists` whether the
/// entry file is in the folder.
pub open spec fn manifest_refusal(content: Seq<char>, entry_exists: bool, sizes: Result<(), Seq<char>>) -> Option<Seq<char>> {
    let entry = declared_entry_spec(content);
    match json_error(content) {
        Some(e) => Some("plugin.json is not valid JSON: "@ + e),
        None => if id_refusal(manifest_id(content)) is Some {
            id_refusal(manifest_id(content))
        } else if api_refusal(declared_api(json_u64(content, "apiVersion"@))) is Some {
            api_refusal(declared_api(json_u64(content, "apiVersion"@)))
        } else if trim_spec(text_or_empty(content, "name"@)).len() == 0 {
            Some("name is required"@)
        } else if let Err(e) = sizes {
            Some(e)
        } else if escapes_folder(entry) {
            Some("entry "@ + debug_str(entry) + " must be a relative path inside the plugin folder"@)
        } else if !entry_exists {
            Some("entry "@ + debug_str(entry) + " does not exist in the plugin folder"@)
        } else if json_object_at(content, "defaultData"@) == Some(false) {
            Some("defaultData must be an object"@)
        } else {
            None
        },
    }
}

/// The desktop item a manifest declares, as (path key, noun, group), for a plugin
/// called `name`; nothing when `desktopItem` is not an object.
pub open spec fn manifest_desktop_item(content: Seq<char>, name: Seq<char>) -> Option<(Seq<char>, Seq<char>, bool)> {
    if json_object_at(content, "desktopItem"@) == Some(true) {
        Some((
            match json_inner_text(content, "desktopItem"@, "pathKey"@) { Some(k) => k, None => "target"@ },
            match json_inner_text(content, "desktopItem"@, "noun"@) { Some(n) => n, None => name + " floatie"@ },
            match json_inner_bool(content, "desktopItem"@, "group"@) { Some(g) => g, None => false },
        ))
    } else {
        None
    }
}

pub open spec fn item_view(d: Option<PluginDesktopItem>) -> Option<(Seq<char>, Seq<char>, bool)> {
    match d {
        Some(i) => Some((i.path_key@, i.noun@, i.group)),
        None => None,
    }
}

/// The module a manifest names, relative to its folder; the caller asks the disk
/// whether it is there.
pub fn declared_entry(content: &str) -> (r: String)
    ensures
        r@ == declared_entry_spec(content@),
{
    proof {
        reveal_strlit("entry");
    }
    match json_text_field(content, "entry") {
        Some(e) => e,
        None => to_string("index.js"),
    }
}

fn str_or_empty(field: Option<String>) -> (r: String)
    ensures
        r@ == (match field { Some(s) => s@, None => Seq::<char>::empty() }),
{
    proof {
        reveal_strlit("");
    }
    match field {
        Some(s) => s,
        None => to_string(""),
    }
}

/// Reads one plugin folder's manifest `content`. The folder is `dir`; `entry_exists`
/// says whether the module the manifest names (see `declared_entry`) is a file in it, and
/// `sizes` what the check of the declared sizes found. The first check that fails is the
/// refusal; a manifest that passes them all is the plugin, with its entry as a path
/// inside `dir`.
pub fn read_plugin(content: &str, dir: &str, entry_exists: bool, sizes: Result<(), String>) -> (r: Result<InstalledPlugin, String>)
    ensures
        ({
            let refusal = manifest_refusal(content@, entry_exists, match sizes { Ok(_) => Ok(()), Err(e) => Err(e@) });
            &&& r is Err <==> refusal is Some
            &&& r matches Err(e) ==> refusal == Some(e@)
            &&& r matches Ok(p) ==> {
                let name = trim_spec(text_or_empty(content@, "name"@));
                &&& p.id@ == manifest_id(content@)
                &&& p.name@ == name
                &&& p.description@ == text_or_empty(content@, "description"@)
                &&& p.version@ == text_or_empty(content@, "version"@)
                &&& p.author@ == text_or_empty(content@, "author"@)
                &&& p.api_version as int == declared_api(json_u64(content@, "apiVersion"@)) as int
                &&& p.resizable == (json_bool(content@, "resizable"@) == Some(true))
                &&& item_view(p.desktop_item) == manifest_desktop_item(content@, name)
                &&& (match p.add_label { Some(l) => Some(l@), None => None }) == json_text(content@, "addLabel"@)
                &&& p.layout_priority == (match json_i64(content@, "layoutPriority"@) {
                    Some(v) => v as i32,
                    None => DEFAULT_LAYOUT_PRIORITY,
                })
                &&& p.entry@ == join_spec(dir@, declared_entry_spec(content@))
            }
        }),
{
    proof {
        reveal_strlit("id");
        reveal_strlit("apiVersion");
        reveal_strlit("name");
    }
    if let Some(e) = json_error_of(content) {
        let mut m = to_string("plugin.json is not valid JSON: ");
        push_str(&mut m, e.as_str());
        return Err(m);
    }
    let id_field = json_text_field(content, "id");
    let id = match validate_plugin_id(match &id_field { Some(s) => Some(s.as_str()), None => None }) {
        Ok(id) => id,
        Err(e) => return Err(e),
    };
    let api = match check_api_version(json_u64_field(content, "apiVersion")) {
        Ok(a) => a,
        Err(e) => return Err(e),
    };
    let name_field = json_text_field(content, "name");
    let name = match check_name(match &name_field { Some(s) => Some(s.as_str()), None => None }) {
        Ok(n) => n,
        Err(e) => return Err(e),
    };
    proof {
        reveal_strlit("");
        assert(trim_spec(text_or_empty(content@, "name"@)) == name@);
    }
    if let Err(e) = sizes {
        return Err(e);
    }
    let rel = declared_entry(content);
    let rel_ok = match check_entry(Some(rel.as_str())) {
        Ok(v) => v,
        Err(e) => return Err(e),
    };
    if !entry_exists {
        let mut m = to_string("entry ");
        push_str(&mut m, crate::plugins::debug_quoted(rel.as_str()).as_str());
        push_str(&mut m, " does not exist in the plugin folder");
        return Err(m);
    }
    if let Some(false) = json_object_field(content, "defaultData") {
        return Err(to_string("defaultData must be an object"));
    }
    let is_item = match json_object_field(content, "desktopItem") {
        Some(b) => b,
        None => false,
    };
    let desktop_item = if is_item {
        let fields = DesktopItemFields {
            path_key: json_inner_text_field(content, "desktopItem", "pathKey"),
            noun: json_inner_text_field(content, "desktopItem", "noun"),
            group: json_inner_bool_field(content, "desktopItem", "group"),
        };
        Some(desktop_item_from(&fields, name.as_str()))
    } else {
        None
    };
    let layout_priority: i32 = match json_i64_field(content, "layoutPriority") {
        Some(v) => #[verifier::truncate] (v as i32),
        None => DEFAULT_LAYOUT_PRIORITY,
    };
    let entry = join(dir, rel_ok.as_str());
    Ok(InstalledPlugin {
        id,
        name,
        description: str_or_empty(json_text_field(content, "description")),
        version: str_or_empty(json_text_field(content, "version")),
        author: str_or_empty(json_text_field(content, "author")),
        api_version: api,
        resizable: match json_bool_field(content, "resizable") {
            Some(b) => b,
            None => false,
        },
        desktop_item,
        add_label: json_text_field(content, "addLabel"),
        layout_priority,
        entry,
    })
}

/// Only an API version this build speaks loads: a manifest whose JSON and id are fine is
/// refused on its `apiVersion` exactly when that is outside the range, and the refusal
/// names the version it read and the range this build speaks.
pub proof fn only_a_spoken_api_version_loads(content: Seq<char>, entry_exists: bool, sizes: Result<(), Seq<char>>)
    requires
        json_error(content) is None,
        id_refusal(manifest_id(content)) is None,
    ensures
        ({
            let v = declared_api(json_u64(content, "apiVersion"@));
            &&& (PLUGIN_API_MIN <= v <= PLUGIN_API_VERSION) <==> api_refusal(v) is None
            &&& !(PLUGIN_API_MIN <= v <= PLUGIN_API_VERSION) ==> {
                &&& manifest_refusal(content, entry_exists, sizes) == api_refusal(v)
                &&& api_refusal(v) matches Some(e) && crate::text::contains_str(e, dec_digits(v as nat))
                    && crate::text::contains_str(e, "1..2"@)
            }
        }),
{
    let v = declared_api(json_u64(content, "apiVersion"@));
    if !(PLUGIN_API_MIN <= v <= PLUGIN_API_VERSION) {
        reveal_strlit("apiVersion ");
        reveal_strlit("1..2");
        reveal_strlit("..");
        reveal_strlit(" is not supported (this build speaks ");
        let e = api_refusal(v)->0;
        let d = dec_digits(v as nat);
        let head = "apiVersion "@;
        assert(e.subrange(head.len() as int, (head.len() + d.len()) as int) =~= d);
        assert(crate::text::occurs_at(e, d, head.len() as int));
        reveal_with_fuel(dec_digits, 2);
        let one = dec_digits(1);
        let two = dec_digits(2);
        assert(one =~= seq!['1']) by {
            assert(one == seq![crate::text::digit_char(1)]);
            assert(((48 + 1nat) as u8) == 49u8);
        }
        assert(two =~= seq!['2']) by {
            assert(two == seq![crate::text::digit_char(2)]);
            assert(((48 + 2nat) as u8) == 50u8);
        }
        let at = head.len() + d.len() + " is not supported (this build speaks "@.len();
        assert(e.subrange(at as int, (at + 4) as int) =~= "1..2"@);
        assert(crate::text::occurs_at(e, "1..2"@, at as int));
    }
}

} // verus!
