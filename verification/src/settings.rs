//! What a settings file that predates a field reads as, and what a save keeps of what
//! the settings form sent.

use vstd::prelude::*;
use crate::text::{chars_eq, chars_of, string_of, to_string, trim, trim_spec};

verus! {

/// The icon pipeline this build writes; a settings file at an older one has its icons
/// refreshed once.
pub const ICON_PIPELINE: u32 = 4;

/// The launcher key. Ctrl+Alt+Space is free on a stock Windows, and unlike Alt+Space
/// (the window menu) or Ctrl+Space (the IME switcher on a CJK install) it is not spoken
/// for.
pub fn default_palette_shortcut() -> (r: String)
    ensures
        r@ == "Ctrl+Alt+Space"@,
{
    to_string("Ctrl+Alt+Space")
}

pub fn default_true() -> (r: bool)
    ensures
        r,
{
    true
}

/// Ten minutes of no input at all.
pub fn default_idle_minutes() -> (r: u32)
    ensures
        r == 10,
{
    10
}

/// Old settings files predate the field; 0 means "resolve everything once".
pub fn default_icon_pipeline() -> (r: u32)
    ensures
        r == 0,
{
    0
}

pub fn default_stay_on_desktop() -> (r: bool)
    ensures
        r,
{
    true
}

/// A settings file without the field means the app does not start with Windows.
pub fn default_start_on_boot() -> (r: bool)
    ensures
        !r,
{
    false
}

pub fn default_confirm_remove() -> (r: bool)
    ensures
        r,
{
    true
}

pub fn default_animation_mode() -> (r: String)
    ensures
        r@ == "wave"@,
{
    to_string("wave")
}

pub fn default_single_click() -> (r: String)
    ensures
        r@ == "drop"@,
{
    to_string("drop")
}

pub fn default_double_click() -> (r: String)
    ensures
        r@ == "launch"@,
{
    to_string("launch")
}

/// Is the icon pipeline a settings file was written at older than this build's?
pub fn icons_need_refresh(pipeline: u32) -> (r: bool)
    ensures
        r == (pipeline < ICON_PIPELINE),
{
    pipeline < ICON_PIPELINE
}

// ------------------------------------------------------------------------------------
// Saving
// ------------------------------------------------------------------------------------

/// What a single click does: `hop` or `nothing` as asked, anything else `drop`.
pub open spec fn single_click_spec(s: Seq<char>) -> Seq<char> {
    if s == "hop"@ || s == "nothing"@ { s } else { "drop"@ }
}

/// What a double click does: `drop` or `nothing` as asked, anything else `launch`.
pub open spec fn double_click_spec(s: Seq<char>) -> Seq<char> {
    if s == "drop"@ || s == "nothing"@ { s } else { "launch"@ }
}

/// How the floaties move: `sync`, `gentle` or `static` as asked, anything else `wave`.
pub open spec fn animation_mode_spec(s: Seq<char>) -> Seq<char> {
    if s == "sync"@ || s == "gentle"@ || s == "static"@ { s } else { "wave"@ }
}

fn is_one_of(s: &str, options: &Vec<&str>) -> (r: bool)
    ensures
        r == exists|i: int| 0 <= i < options@.len() && s@ == (#[trigger] options@[i])@,
{
    let v = chars_of(s);
    let mut i: usize = 0;
    while i < options.len()
        invariant
            i <= options@.len(),
            v@ == s@,
            forall|j: int| 0 <= j < i ==> s@ != (#[trigger] options@[j])@,
        decreases options.len() - i,
    {
        if chars_eq(&v, &chars_of(options[i])) {
            return true;
        }
        i += 1;
    }
    false
}

pub fn single_click_action(s: &str) -> (r: String)
    ensures
        r@ == single_click_spec(s@),
{
    let options = vec!["hop", "nothing"];
    if is_one_of(s, &options) {
        assert(s@ == "hop"@ || s@ == "nothing"@);
        to_string(s)
    } else {
        assert(options@[0]@ == "hop"@ && options@[1]@ == "nothing"@);
        to_string("drop")
    }
}

pub fn double_click_action(s: &str) -> (r: String)
    ensures
        r@ == double_click_spec(s@),
{
    let options = vec!["drop", "nothing"];
    if is_one_of(s, &options) {
        assert(s@ == "drop"@ || s@ == "nothing"@);
        to_string(s)
    } else {
        assert(options@[0]@ == "drop"@ && options@[1]@ == "nothing"@);
        to_string("launch")
    }
}

pub fn animation_mode_of(s: &str) -> (r: String)
    ensures
        r@ == animation_mode_spec(s@),
{
    let options = vec!["sync", "gentle", "static"];
    if is_one_of(s, &options) {
        assert(s@ == "sync"@ || s@ == "gentle"@ || s@ == "static"@);
        to_string(s)
    } else {
        assert(options@[0]@ == "sync"@ && options@[1]@ == "gentle"@ && options@[2]@ == "static"@);
        to_string("wave")
    }
}

/// The launcher key as it should be stored, or `None` when it is not one: the text
/// without surrounding white space, when there is any and the shortcut parser accepts
/// it. `accepted` is what the parser said of that trimmed text.
pub fn parse_shortcut(text: &str, accepted: bool) -> (r: Option<String>)
    ensures
        r is Some <==> trim_spec(text@).len() > 0 && accepted,
        r matches Some(k) ==> k@ == trim_spec(text@),
{
    let t = trim(text);
    if t.len() == 0 || !accepted {
        None
    } else {
        Some(string_of(&t))
    }
}

/// The settings a save settles without floating point.
pub struct Choices {
    pub single_click: String,
    pub double_click: String,
    pub animation_mode: String,
    pub palette_shortcut: String,
    pub idle_minutes: u32,
    pub icon_pipeline: u32,
    pub start_on_boot: bool,
}

/// What a save keeps of what the form sent (`incoming`), against what is on disk
/// (`stored`). Unknown actions and modes fall back to the defaults; a launcher key that
/// does not parse (`shortcut_accepted` is the parser's word on the trimmed text) is not
/// saved, since the launcher could never be opened again; ten hours of idling is a typo,
/// capped at 600 minutes; the icon pipeline is the backend's own and never goes back;
/// and starting with Windows is only what Windows agreed to (`boot_written`, asked only
/// when the choice changed).
pub fn settle_choices(incoming: &Choices, stored: &Choices, shortcut_accepted: bool, boot_written: bool) -> (r: Choices)
    ensures
        r.single_click@ == single_click_spec(incoming.single_click@),
        r.double_click@ == double_click_spec(incoming.double_click@),
        r.animation_mode@ == animation_mode_spec(incoming.animation_mode@),
        r.palette_shortcut@ == (if trim_spec(trim_spec(incoming.palette_shortcut@)).len() > 0 && shortcut_accepted {
            trim_spec(trim_spec(incoming.palette_shortcut@))
        } else {
            stored.palette_shortcut@
        }),
        r.idle_minutes == (if incoming.idle_minutes < 600 { incoming.idle_minutes } else { 600 }),
        r.icon_pipeline == (if stored.icon_pipeline < incoming.icon_pipeline { incoming.icon_pipeline } else { stored.icon_pipeline }),
        r.icon_pipeline >= stored.icon_pipeline,
        r.start_on_boot == (if incoming.start_on_boot != stored.start_on_boot && !boot_written {
            stored.start_on_boot
        } else {
            incoming.start_on_boot
        }),
{
    let once = string_of(&trim(incoming.palette_shortcut.as_str()));
    let palette_shortcut = match parse_shortcut(once.as_str(), shortcut_accepted) {
        Some(k) => k,
        None => stored.palette_shortcut.clone(),
    };
    let start_on_boot = if incoming.start_on_boot != stored.start_on_boot && !boot_written {
        stored.start_on_boot
    } else {
        incoming.start_on_boot
    };
    Choices {
        single_click: single_click_action(incoming.single_click.as_str()),
        double_click: double_click_action(incoming.double_click.as_str()),
        animation_mode: animation_mode_of(incoming.animation_mode.as_str()),
        palette_shortcut,
        idle_minutes: if incoming.idle_minutes < 600 { incoming.idle_minutes } else { 600 },
        icon_pipeline: if stored.icon_pipeline < incoming.icon_pipeline { incoming.icon_pipeline } else { stored.icon_pipeline },
        start_on_boot,
    }
}

/// Do two settings differ once surrounding white space is set aside? A save that changes
/// the root mirrors the new one; one that changes the launcher key registers it.
pub fn trimmed_differ(a: &str, b: &str) -> (r: bool)
    ensures
        r == (trim_spec(a@) != trim_spec(b@)),
{
    !chars_eq(&trim(a), &trim(b))
}

/// A settings file read back: a blank click action, animation mode or launcher key reads
/// as its default, everything else as it was written.
pub fn fill_blank_choices(c: &mut Choices)
    ensures
        final(c).single_click@ == (if old(c).single_click@.len() == 0 { "drop"@ } else { old(c).single_click@ }),
        final(c).double_click@ == (if old(c).double_click@.len() == 0 { "launch"@ } else { old(c).double_click@ }),
        final(c).animation_mode@ == (if old(c).animation_mode@.len() == 0 { "wave"@ } else { old(c).animation_mode@ }),
        final(c).palette_shortcut@ == (if trim_spec(old(c).palette_shortcut@).len() == 0 {
            "Ctrl+Alt+Space"@
        } else {
            old(c).palette_shortcut@
        }),
        final(c).idle_minutes == old(c).idle_minutes,
        final(c).icon_pipeline == old(c).icon_pipeline,
        final(c).start_on_boot == old(c).start_on_boot,
{
    if chars_of(c.single_click.as_str()).len() == 0 {
        c.single_click = default_single_click();
    }
    if chars_of(c.double_click.as_str()).len() == 0 {
        c.double_click = default_double_click();
    }
    if chars_of(c.animation_mode.as_str()).len() == 0 {
        c.animation_mode = default_animation_mode();
    }
    if trim(c.palette_shortcut.as_str()).len() == 0 {
        c.palette_shortcut = default_palette_shortcut();
    }
}

} // verus!
