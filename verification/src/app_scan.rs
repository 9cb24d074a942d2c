//! The applications the launcher offers: the shortcuts a walk of the Start Menus and the
//! desktops finds.
//!
//! Walking the folders is the caller's. A shortcut is an application unless it is an
//! uninstaller's; one name (without regard to case) is taken once; the list is by name
//! and capped.

use vstd::prelude::*;
use crate::desktop::is_lnk_path;
use crate::launcher::{claimed, DiscoveredApp};
use crate::paths::{extension_spec, file_name, file_name_spec, split_file_name, stem_of};
use crate::plugins::strings;
use crate::text::{
    chars_of, contains, contains_str, eq_ignore_ascii_case, is_sorted_order, lowercase, sorted_order, string_of,
    to_lowercase, to_string,
};

verus! {

broadcast use vstd::seq_lib::group_seq_properties;

/// How long a scan of the Start Menu is good for, in seconds: a program installed a
/// moment ago is findable within five minutes, and the launcher does not hitch on every
/// keystroke.
pub const APP_SCAN_TTL_SECS: u64 = 300;

/// Is a scan this old still good?
pub fn scan_is_fresh(age_secs: u64) -> (r: bool)
    ensures
        r == (age_secs < APP_SCAN_TTL_SECS),
{
    age_secs < APP_SCAN_TTL_SECS
}

/// The application a file is, when it is one: a shortcut (`.lnk`, without regard to
/// case), named by its stem, unless the stem is empty or an uninstaller's.
pub open spec fn shortcut_app_spec(path: Seq<char>) -> Option<Seq<char>> {
    let lnk = extension_spec(path) matches Some(e) && eq_ignore_ascii_case(e, "lnk"@);
    let stem = match file_name_spec(path) {
        Some(f) => stem_of(f),
        None => seq![],
    };
    let lower = lowercase(stem);
    if !lnk || stem.len() == 0 || contains_str(lower, "uninstall"@) || contains_str(lower, "unins0"@) {
        None
    } else {
        Some(stem)
    }
}

pub fn shortcut_app(path: &str) -> (r: Option<DiscoveredApp>)
    ensures
        match shortcut_app_spec(path@) {
            Some(stem) => r matches Some(a) && a.name@ == stem && a.path@ == path@,
            None => r is None,
        },
{
    if !is_lnk_path(path) {
        return None;
    }
    let stem = match file_name(path) {
        Some(f) => split_file_name(&f).0,
        None => Vec::new(),
    };
    let lower = chars_of(to_lowercase(string_of(&stem).as_str()).as_str());
    if stem.len() == 0 || contains(&lower, &chars_of("uninstall")) || contains(&lower, &chars_of("unins0")) {
        return None;
    }
    Some(DiscoveredApp { name: string_of(&stem), path: to_string(path) })
}

/// Take an application the scan found, unless one of the same name (lower-cased) was
/// taken already. `seen` holds the names taken. Says whether it was taken.
pub fn add_discovered(found: &mut Vec<DiscoveredApp>, seen: &mut Vec<String>, app: DiscoveredApp) -> (taken: bool)
    ensures
        taken == !strings(old(seen)@).contains(lowercase(app.name@)),
        taken ==> final(found)@ == old(found)@.push(app) && strings(final(seen)@) == strings(old(seen)@).push(lowercase(app.name@)),
        !taken ==> final(found)@ == old(found)@ && final(seen)@ == old(seen)@,
{
    let lower = to_lowercase(app.name.as_str());
    if claimed(seen, &lower) {
        return false;
    }
    let ghost before = strings(seen@);
    let ghost lv = lower@;
    seen.push(lower);
    assert(strings(seen@) =~= before.push(lv));
    found.push(app);
    true
}

/// How many applications the launcher keeps.
pub const MAX_APPS: usize = 250;

pub open spec fn app_keys(found: Seq<DiscoveredApp>) -> Seq<Seq<char>> {
    Seq::new(found.len(), |i: int| lowercase(found[i].name@))
}

/// The applications found, by lower-cased name (ties in the order found), at most
/// [`MAX_APPS`]. The order is the one `is_sorted_order` describes, of which there is
/// exactly one.
pub fn finish_apps(found: &Vec<DiscoveredApp>) -> (r: Vec<DiscoveredApp>)
    ensures
        r@.len() == if found@.len() < MAX_APPS { found@.len() } else { MAX_APPS as nat },
        exists|order: Seq<usize>| {
            &&& #[trigger] is_sorted_order(app_keys(found@), order)
            &&& forall|k: int| 0 <= k < r@.len() ==> (#[trigger] r@[k]).name@ == found@[order[k] as int].name@
                && r@[k].path@ == found@[order[k] as int].path@
        },
{
    let mut keys: Vec<Vec<char>> = Vec::new();
    let mut i: usize = 0;
    while i < found.len()
        invariant
            i <= found@.len(),
            keys@.len() == i,
            forall|j: int| 0 <= j < i ==> (#[trigger] keys@[j])@ == lowercase(found@[j].name@),
        decreases found.len() - i,
    {
        keys.push(chars_of(to_lowercase(found[i].name.as_str()).as_str()));
        i += 1;
    }
    let order = sorted_order(&keys);
    assert(Seq::new(keys@.len(), |i: int| keys@[i]@) =~= app_keys(found@));
    let n = if found.len() < MAX_APPS { found.len() } else { MAX_APPS };
    let mut out: Vec<DiscoveredApp> = Vec::new();
    let mut k: usize = 0;
    while k < n
        invariant
            k <= n <= order@.len(),
            order@.len() == found@.len(),
            forall|j: int| 0 <= j < order@.len() ==> #[trigger] order@[j] < found@.len(),
            out@.len() == k,
            forall|j: int| 0 <= j < k ==> (#[trigger] out@[j]).name@ == found@[order@[j] as int].name@
                && out@[j].path@ == found@[order@[j] as int].path@,
        decreases n - k,
    {
        let idx = order[k];
        assert(order@[k as int] < found@.len());
        out.push(DiscoveredApp { name: found[idx].name.clone(), path: found[idx].path.clone() });
        k += 1;
    }
    assert(is_sorted_order(app_keys(found@), order@));
    out
}

} // verus!
