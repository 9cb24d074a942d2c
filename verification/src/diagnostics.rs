//! What the app can say about itself: the log and its rotation, and the figures a bug
//! report needs.
//!
//! The log rotates: `floaty.log` rolls into `floaty.log.1` .. `.3`, so the last few
//! megabytes survive a busy session instead of being cut. Reading and renaming the
//! files is the caller's; which file goes where is decided here.

use vstd::prelude::*;
use crate::exchange::{lines_of, lines_spec};
use crate::text::{
    chars_of, dec_digits, digit_char, has_prefix, is_sorted_order, push_dec, push_str, sorted_order, starts_with, to_string,
};

verus! {

broadcast use vstd::seq_lib::group_seq_properties;

/// One file's worth of log before it rolls over.
pub const LOG_BYTES: u64 = 1_000_000;
/// How many rolled-over files are kept beside the live one.
pub const LOG_KEEP: usize = 3;
/// How much of the log the report carries back.
pub const TAIL_LINES: usize = 250;

/// The log, as the report carries it.
pub struct LogInfo {
    pub path: String,
    pub bytes: u64,
    /// The most recent lines, oldest first.
    pub lines: Vec<String>,
    /// How many rolled-over files exist beside it.
    pub rotated: u64,
}

/// A file and its backups.
pub struct FileInfo {
    pub path: String,
    pub bytes: u64,
    pub backups: u64,
}

/// A directory's size.
pub struct DirInfo {
    pub path: String,
    pub files: u64,
    pub bytes: u64,
}

/// Where a window is, and what the app last did with it.
pub struct WindowInfo {
    pub label: String,
    /// What the app did with it last: hidden windows are meant to be hidden.
    pub visible: bool,
    /// Where the window is, in physical px.
    pub x: i32,
    pub y: i32,
    pub width: u32,
    pub height: u32,
    pub layer: String,
}

/// A page's last heartbeat.
pub struct BeatInfo {
    pub label: String,
    pub visibility: String,
    pub ms_ago: u64,
}

/// A label the heartbeat repair has tried to fix, and how many times.
pub struct RepairInfo {
    pub label: String,
    pub attempts: u32,
}

/// `<log>.<n>`: the name appended to, not the extension swapped, which would turn
/// `floaty.log` into `floaty.1`.
pub open spec fn rolled_spec(path: Seq<char>, n: nat) -> Seq<char> {
    path + "."@ + dec_digits(n)
}

/// The `n`th rolled-over file beside the log at `path`.
pub fn rolled(path: &str, n: usize) -> (r: String)
    ensures
        r@ == rolled_spec(path@, n as nat),
{
    let mut r = to_string(path);
    push_str(&mut r, ".");
    push_dec(&mut r, n as u64);
    r
}

/// Is the live log big enough to roll?
pub fn should_roll(bytes: u64) -> (r: bool)
    ensures
        r == (bytes > LOG_BYTES),
{
    bytes > LOG_BYTES
}

/// How to push the live log back one: drop the oldest, then move every file one step
/// back, the oldest first, so nothing is renamed onto a file that still has to move.
pub struct RollPlan {
    pub remove: String,
    pub renames: Vec<(String, String)>,
}

/// The renames of a roll, in order: `.2` to `.3`, `.1` to `.2`, the log to `.1`.
pub open spec fn roll_steps(path: Seq<char>) -> Seq<(Seq<char>, Seq<char>)> {
    seq![
        (rolled_spec(path, 2), rolled_spec(path, 3)),
        (rolled_spec(path, 1), rolled_spec(path, 2)),
        (path, rolled_spec(path, 1)),
    ]
}

/// The files a roll removes and renames.
pub fn roll(path: &str) -> (r: RollPlan)
    ensures
        r.remove@ == rolled_spec(path@, LOG_KEEP as nat),
        r.renames@.map_values(|p: (String, String)| (p.0@, p.1@)) == roll_steps(path@),
{
    let remove = rolled(path, LOG_KEEP);
    let mut renames: Vec<(String, String)> = Vec::new();
    renames.push((rolled(path, 2), rolled(path, 3)));
    renames.push((rolled(path, 1), rolled(path, 2)));
    renames.push((to_string(path), rolled(path, 1)));
    assert(renames@.map_values(|p: (String, String)| (p.0@, p.1@)) =~= roll_steps(path@));
    RollPlan { remove, renames }
}

/// How many of the rolled-over files are there, given which of `.1` .. `.3` exist.
pub fn rolled_count(present: &[bool]) -> (r: u64)
    ensures
        r == present@.filter(|b: bool| b).len(),
{
    let mut n: u64 = 0;
    let mut i: usize = 0;
    while i < present.len()
        invariant
            i <= present.len(),
            n == present@.take(i as int).filter(|b: bool| b).len(),
            n <= i,
        decreases present.len() - i,
    {
        proof {
            assert(present@.take(i + 1).drop_last() =~= present@.take(i as int));
            reveal(Seq::filter);
        }
        if present[i] {
            n += 1;
        }
        i += 1;
    }
    assert(present@.take(present.len() as int) =~= present@);
    n
}

/// The last lines of a log's text, oldest first.
pub open spec fn tail_spec(text: Seq<char>) -> Seq<Seq<char>> {
    let lines = lines_spec(text);
    if lines.len() > TAIL_LINES { lines.skip(lines.len() - TAIL_LINES) } else { lines }
}

/// The last lines of a log's text, oldest first: what the report carries back.
pub fn log_tail(text: &str) -> (r: Vec<String>)
    ensures
        r@.map_values(|l: String| l@) == tail_spec(text@),
{
    let all = lines_of(text);
    let skip = if all.len() > TAIL_LINES { all.len() - TAIL_LINES } else { 0 };
    let mut out: Vec<String> = Vec::new();
    let mut i: usize = skip;
    while i < all.len()
        invariant
            skip <= i <= all.len(),
            out@.map_values(|l: String| l@) == all@.map_values(|l: String| l@).subrange(skip as int, i as int),
        decreases all.len() - i,
    {
        let ghost before = out@;
        let line = all[i].clone();
        out.push(line);
        assert(out@.map_values(|l: String| l@) =~= before.map_values(|l: String| l@).push(line@));
        i += 1;
        assert(out@.map_values(|l: String| l@) =~= all@.map_values(|l: String| l@).subrange(skip as int, i as int));
    }
    assert(all@.map_values(|l: String| l@).subrange(skip as int, all.len() as int) =~= tail_spec(text@));
    out
}

// ------------------------------------------------------------------------------------
// Laws
// ------------------------------------------------------------------------------------

proof fn lemma_rolled_distinct(path: Seq<char>, a: nat, b: nat)
    requires
        1 <= a <= 9,
        1 <= b <= 9,
    ensures
        (rolled_spec(path, a) == rolled_spec(path, b)) == (a == b),
        rolled_spec(path, a) != path,
{
    reveal_with_fuel(dec_digits, 2);
    reveal_strlit(".");
    let ra = rolled_spec(path, a);
    let rb = rolled_spec(path, b);
    assert(ra.len() == path.len() + 2);
    assert(ra[ra.len() - 1] == digit_char(a));
    assert(rb[rb.len() - 1] == digit_char(b));
    assert(digit_char(a) as u32 == 48 + a);
    assert(digit_char(b) as u32 == 48 + b);
}

/// Rolling never loses the newest log: the live file ends as `.1`, and no step renames
/// a file onto a name that a later step still has to move away.
pub proof fn rolling_never_loses_the_newest(path: Seq<char>)
    ensures
        roll_steps(path).last().0 == path,
        roll_steps(path).last().1 == rolled_spec(path, 1),
        forall|j: int, k: int| 0 <= j < k < 3 ==> roll_steps(path)[j].1 != roll_steps(path)[k].0,
        forall|k: int| 0 <= k < 3 ==> roll_steps(path)[k].0 != rolled_spec(path, 3),
{
    lemma_rolled_distinct(path, 1, 2);
    lemma_rolled_distinct(path, 1, 3);
    lemma_rolled_distinct(path, 2, 3);
    lemma_rolled_distinct(path, 2, 2);
    lemma_rolled_distinct(path, 3, 3);
    lemma_rolled_distinct(path, 1, 1);
}

// ------------------------------------------------------------------------------------
// The report
// ------------------------------------------------------------------------------------

/// What the display's power state reads as: `on`, `off`, or `unknown` before the system
/// has said.
pub open spec fn display_state_spec(state: i64) -> Seq<char> {
    if state == 1 {
        "on"@
    } else if state == 0 {
        "off"@
    } else {
        "unknown"@
    }
}

pub fn display_state_name(state: i64) -> (r: String)
    ensures
        r@ == display_state_spec(state),
{
    if state == 1 {
        to_string("on")
    } else if state == 0 {
        to_string("off")
    } else {
        to_string("unknown")
    }
}

/// Which way the app runs: on the desktop, or floating above it.
pub fn report_mode(stay_on_desktop: bool) -> (r: String)
    ensures
        r@ == (if stay_on_desktop { "desktop"@ } else { "floating"@ }),
{
    if stay_on_desktop {
        to_string("desktop")
    } else {
        to_string("floating")
    }
}

/// Is this file one the store's atomic writes leave beside it (`floaty-store.json.bak`,
/// `.tmp`)?
pub fn is_store_sibling(name: &str) -> (r: bool)
    ensures
        r == has_prefix(name@, "floaty-store.json."@),
{
    starts_with(&chars_of(name), &chars_of("floaty-store.json."))
}

/// How long ago a heartbeat came, in ms; a clock that went backwards reads as now.
pub fn beat_age(now: u64, at: u64) -> (r: u64)
    ensures
        r == (if at <= now { now - at } else { 0 }),
{
    now.saturating_sub(at)
}

/// The order the report lists things in: by label, ties as they came.
pub fn by_label(labels: &Vec<String>) -> (r: Vec<usize>)
    ensures
        is_sorted_order(Seq::new(labels@.len(), |i: int| labels@[i]@), r@),
{
    let mut keys: Vec<Vec<char>> = Vec::new();
    let mut i: usize = 0;
    while i < labels.len()
        invariant
            i <= labels@.len(),
            keys@.len() == i,
            forall|j: int| 0 <= j < i ==> (#[trigger] keys@[j])@ == labels@[j]@,
        decreases labels.len() - i,
    {
        keys.push(chars_of(labels[i].as_str()));
        i += 1;
    }
    let r = sorted_order(&keys);
    assert(Seq::new(keys@.len(), |i: int| keys@[i]@) =~= Seq::new(labels@.len(), |i: int| labels@[i]@));
    r
}

} // verus!
