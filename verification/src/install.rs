//! Installing a plugin from an archive: the rules, with the unpacking and copying left to
//! the caller.
//!
//! Nothing lands in the plugins folder unvalidated, and replacing a plugin is a move,
//! not a delete-then-write: the installed copy is moved aside first and only dropped
//! once the new one is in place.

use vstd::prelude::*;
use crate::paths::{comps, components, extension, extension_spec, seqs};
use crate::text::{
    ascii_lower_seq, chars_eq, chars_of, dec_digits, eq_ignore_case, push_dec, push_str,
    to_string,
};

verus! {

broadcast use vstd::seq_lib::group_seq_properties;

/// What an install did, so settings can say it rather than guess.
pub struct PluginInstall {
    pub id: String,
    pub name: String,
    pub version: String,
    /// Files written into the plugins folder.
    pub files: usize,
    /// True when an earlier copy of this plugin was replaced.
    pub replaced: bool,
}

/// A plugin folder is small: a manifest and a module, plus maybe some art. Anything
/// past these is not a widget.
pub const MAX_FILES: usize = 4000;
pub const MAX_BYTES: u64 = 128 * 1024 * 1024;

/// The version of the copy already on disk, for the "already installed" message:
/// ` (v1.2.0)`, or nothing when that copy cannot be read or names no version.
pub fn installed_version(version: Option<&str>) -> (r: String)
    ensures
        (match version { Some(v) => v@.len() > 0, None => false }) ==> r@ == " (v"@ + version->0@ + ")"@,
        !(match version { Some(v) => v@.len() > 0, None => false }) ==> r@.len() == 0,
{
    match version {
        Some(v) => {
            if v.unicode_len() > 0 {
                let mut r = to_string(" (v");
                push_str(&mut r, v);
                push_str(&mut r, ")");
                r
            } else {
                proof {
                    reveal_strlit("");
                }
                to_string("")
            }
        },
        None => {
            proof {
                reveal_strlit("");
            }
            to_string("")
        },
    }
}

/// Why an archive whose plugin is installed already is refused when it was not asked to
/// replace it.
pub fn already_installed(id: &str, installed_note: &str, version: &str) -> (r: String)
    ensures
        r@ == id@ + " is already installed"@ + installed_note@ + " \u{2014} the archive holds v"@
            + (if version@.len() == 0 { "?"@ } else { version@ }) + "; install it again to replace that copy"@,
{
    let mut r = to_string(id);
    push_str(&mut r, " is already installed");
    push_str(&mut r, installed_note);
    push_str(&mut r, " \u{2014} the archive holds v");
    if version.unicode_len() == 0 {
        push_str(&mut r, "?");
    } else {
        push_str(&mut r, version);
    }
    push_str(&mut r, "; install it again to replace that copy");
    r
}

/// Where the plugin sits in an unpacked archive: the root itself when it holds the
/// manifest, else the one folder directly inside it that does. `with_manifest` names the
/// folders inside that hold one; `Ok(None)` is the root.
pub fn pick_plugin_dir(root_has_manifest: bool, with_manifest: &[String]) -> (r: Result<Option<usize>, String>)
    ensures
        root_has_manifest ==> r == Ok::<Option<usize>, String>(None),
        !root_has_manifest && with_manifest@.len() == 1 ==> r == Ok::<Option<usize>, String>(Some(0usize)),
        !root_has_manifest && with_manifest@.len() == 0 ==> (r matches Err(e)
            && e@ == "no plugin.json in the archive (or in a folder directly inside it)"@),
        !root_has_manifest && with_manifest@.len() > 1 ==> (r matches Err(e)
            && e@ == "the archive holds "@ + dec_digits(with_manifest@.len()) + " plugins \u{2014} install them one at a time ("@
                + joined(with_manifest@) + ")"@),
{
    if root_has_manifest {
        return Ok(None);
    }
    if with_manifest.len() == 0 {
        return Err(to_string("no plugin.json in the archive (or in a folder directly inside it)"));
    }
    if with_manifest.len() == 1 {
        return Ok(Some(0));
    }
    let mut e = to_string("the archive holds ");
    push_dec(&mut e, with_manifest.len() as u64);
    push_str(&mut e, " plugins \u{2014} install them one at a time (");
    let ghost before = e@;
    let mut i: usize = 0;
    while i < with_manifest.len()
        invariant
            i <= with_manifest.len(),
            e@ == before + joined(with_manifest@.take(i as int)),
        decreases with_manifest.len() - i,
    {
        if i > 0 {
            push_str(&mut e, ", ");
        }
        push_str(&mut e, with_manifest[i].as_str());
        proof {
            assert(with_manifest@.take(i + 1).drop_last() =~= with_manifest@.take(i as int));
        }
        i += 1;
    }
    assert(with_manifest@.take(with_manifest.len() as int) =~= with_manifest@);
    push_str(&mut e, ")");
    Err(e)
}

/// Names joined with `, `.
pub open spec fn joined(names: Seq<String>) -> Seq<char>
    decreases names.len(),
{
    if names.len() == 0 {
        seq![]
    } else if names.len() == 1 {
        names[0]@
    } else {
        joined(names.drop_last()) + ", "@ + names.last()@
    }
}

/// Is this a `.zip`, by its extension and without regard to case?
pub fn is_zip(path: &str) -> (r: bool)
    ensures
        r == (extension_spec(path@) matches Some(e) && ascii_lower_seq(e) == "zip"@),
{
    match extension(path) {
        Some(e) => {
            let lower = crate::text::to_ascii_lowercase(crate::text::string_of(&e).as_str());
            chars_eq(&lower, &chars_of("zip"))
        },
        None => false,
    }
}

/// A path with a `..` among its parts.
pub open spec fn has_parent_part(p: Seq<char>) -> bool {
    exists|i: int| 0 <= i < comps(p).len() && #[trigger] comps(p)[i] == ".."@
}

fn has_parent_part_exec(p: &str) -> (r: bool)
    ensures
        r == has_parent_part(p@),
{
    let parts = components(&chars_of(p));
    let dd = chars_of("..");
    let mut i: usize = 0;
    while i < parts.len()
        invariant
            i <= parts.len(),
            seqs(parts@) == comps(p@),
            dd@ == ".."@,
            forall|j: int| 0 <= j < i ==> #[trigger] comps(p@)[j] != ".."@,
        decreases parts.len() - i,
    {
        assert(seqs(parts@)[i as int] == parts@[i as int]@);
        if chars_eq(&parts[i], &dd) {
            return true;
        }
        i += 1;
    }
    false
}

/// After an extraction nothing may sit outside the scratch folder, whatever the archive
/// claimed: the first path with a `..` in it is refused.
pub fn refuse_traversal(paths: &[String]) -> (r: Result<(), String>)
    ensures
        (forall|i: int| 0 <= i < paths@.len() ==> !has_parent_part(#[trigger] paths@[i]@)) <==> r is Ok,
        r matches Err(e) ==> exists|i: int| 0 <= i < paths@.len() && has_parent_part(#[trigger] paths@[i]@)
            && (forall|j: int| 0 <= j < i ==> !has_parent_part(#[trigger] paths@[j]@))
            && e@ == "the archive tried to write outside itself ("@ + paths@[i]@ + ")"@,
{
    let mut i: usize = 0;
    while i < paths.len()
        invariant
            i <= paths.len(),
            forall|j: int| 0 <= j < i ==> !has_parent_part(#[trigger] paths@[j]@),
        decreases paths.len() - i,
    {
        if has_parent_part_exec(paths[i].as_str()) {
            let mut e = to_string("the archive tried to write outside itself (");
            push_str(&mut e, paths[i].as_str());
            push_str(&mut e, ")");
            return Err(e);
        }
        i += 1;
    }
    Ok(())
}

/// How much a copy has written so far.
pub struct CopyBudget {
    pub files: usize,
    pub bytes: u64,
}

impl CopyBudget {
    pub fn new() -> (r: Self)
        ensures
            r.files == 0 && r.bytes == 0,
    {
        CopyBudget { files: 0, bytes: 0 }
    }

    /// One more file of `len` bytes: refused once the plugin is larger, or has more
    /// files, than a plugin should.
    pub fn add_file(&mut self, len: u64) -> (r: Result<(), String>)
        requires
            old(self).files <= MAX_FILES,
            old(self).bytes <= MAX_BYTES,
        ensures
            old(self).bytes + len > MAX_BYTES ==> (r matches Err(e) && e@ == "this plugin is larger than a plugin should be"@),
            old(self).bytes + len <= MAX_BYTES && old(self).files + 1 > MAX_FILES
                ==> (r matches Err(e) && e@ == "this plugin has more files than a plugin should have"@),
            old(self).bytes + len <= MAX_BYTES && old(self).files + 1 <= MAX_FILES ==> r is Ok,
            r is Ok ==> final(self).files == old(self).files + 1 && final(self).bytes == old(self).bytes + len,
    {
        if len > MAX_BYTES - self.bytes {
            return Err(to_string("this plugin is larger than a plugin should be"));
        }
        self.bytes = self.bytes + len;
        self.files = self.files + 1;
        if self.files > MAX_FILES {
            return Err(to_string("this plugin has more files than a plugin should have"));
        }
        Ok(())
    }
}

} // verus!
