//! Which installed plugins the user has approved, and for which files.
//!
//! Approving a plugin is recording the fingerprint of its folder as the user read it: a
//! plugin whose files have changed since is asked about again, because approving code is
//! not approving whatever replaces it later. A folder that cannot be read is never
//! approved, neither when approving nor when asking. Fingerprinting the folder and
//! writing the settings are the caller's.

use vstd::prelude::*;
use crate::overlays::{has_key, key_index, key_pos, keyed_map, keys_distinct, lemma_key_index, lemma_keyed_push, lemma_keyed_update};
use crate::text::to_string;

verus! {

broadcast use vstd::seq_lib::group_seq_properties;

/// The approvals: plugin id to the fingerprint of the folder that was approved.
pub struct PluginTrust {
    approvals: Vec<(String, String)>,
}

impl View for PluginTrust {
    type V = Map<Seq<char>, Seq<char>>;

    closed spec fn view(&self) -> Map<Seq<char>, Seq<char>> {
        keyed_map(self.approvals@, |s: String| s@)
    }
}

/// Is plugin `id` approved, its folder's fingerprint now being `current` (nothing when the
/// folder could not be read)?
pub open spec fn approved_spec(trust: Map<Seq<char>, Seq<char>>, id: Seq<char>, current: Option<Seq<char>>) -> bool {
    trust.contains_key(id) && current == Some(trust[id])
}

proof fn lemma_keyed_remove(s: Seq<(String, String)>, i: int)
    requires
        keys_distinct(s),
        0 <= i < s.len(),
    ensures
        keys_distinct(s.remove(i)),
        keyed_map(s.remove(i), |v: String| v@) == keyed_map(s, |v: String| v@).remove(s[i].0@),
{
    let f = |v: String| v@;
    let t = s.remove(i);
    let gone = s[i].0@;
    assert forall|a: int, b: int| 0 <= a < t.len() && 0 <= b < t.len() && #[trigger] t[a].0@ == #[trigger] t[b].0@ implies a == b by {
        let sa = if a < i { a } else { a + 1 };
        let sb = if b < i { b } else { b + 1 };
        assert(t[a] == s[sa] && t[b] == s[sb]);
    }
    assert forall|l: Seq<char>| #![auto] has_key(t, l) == (has_key(s, l) && l != gone) by {
        if has_key(t, l) {
            let a = choose|a: int| 0 <= a < t.len() && #[trigger] t[a].0@ == l;
            let sa = if a < i { a } else { a + 1 };
            assert(t[a] == s[sa]);
            assert(s[sa].0@ == l);
            assert(sa != i);
        }
        if has_key(s, l) && l != gone {
            let a = choose|a: int| 0 <= a < s.len() && #[trigger] s[a].0@ == l;
            assert(a != i);
            let ta = if a < i { a } else { a - 1 };
            assert(t[ta] == s[a]);
            assert(t[ta].0@ == l);
        }
    }
    assert forall|l: Seq<char>| has_key(t, l) implies #[trigger] t[key_index(t, l)].1 == s[key_index(s, l)].1 by {
        let a = key_index(t, l);
        let b = key_index(s, l);
        assert(t[a].0@ == l);
        assert(s[b].0@ == l);
        let sa = if a < i { a } else { a + 1 };
        assert(t[a] == s[sa]);
        assert(s[sa].0@ == l);
    }
    assert(keyed_map(t, f) =~= keyed_map(s, f).remove(gone));
}

impl PluginTrust {
    pub closed spec fn wf(&self) -> bool {
        keys_distinct(self.approvals@)
    }

    /// No approvals.
    pub fn new() -> (r: Self)
        ensures
            r.wf(),
            r@ == Map::<Seq<char>, Seq<char>>::empty(),
    {
        let r = PluginTrust { approvals: Vec::new() };
        assert(r@ =~= Map::<Seq<char>, Seq<char>>::empty());
        r
    }

    /// Does the user's list hold an answer for this plugin at all?
    pub fn knows(&self, id: &str) -> (r: bool)
        requires
            self.wf(),
        ensures
            r == self@.contains_key(id@),
    {
        key_pos(&self.approvals, id).is_some()
    }

    /// Is plugin `id` approved, its folder's fingerprint now being `current`?
    pub fn approved(&self, id: &str, current: Option<&str>) -> (r: bool)
        requires
            self.wf(),
        ensures
            r == approved_spec(self@, id@, match current { Some(c) => Some(c@), None => None }),
    {
        match key_pos(&self.approvals, id) {
            Some(i) => {
                proof {
                    lemma_key_index(self.approvals@, i as int);
                }
                match current {
                    Some(c) => self.approvals[i].1 == to_string(c),
                    None => false,
                }
            },
            None => false,
        }
    }

    /// Approve plugin `id` as its folder now stands (`fingerprint`, nothing when it could
    /// not be read). Says whether anything was recorded.
    pub fn approve(&mut self, id: &str, fingerprint: Option<&str>) -> (recorded: bool)
        requires
            old(self).wf(),
        ensures
            final(self).wf(),
            recorded == fingerprint is Some,
            match fingerprint {
                Some(f) => final(self)@ == old(self)@.insert(id@, f@),
                None => final(self)@ == old(self)@,
            },
    {
        let f = match fingerprint {
            Some(f) => f,
            None => return false,
        };
        let ghost g = |s: String| s@;
        match key_pos(&self.approvals, id) {
            Some(i) => {
                let ghost before = self.approvals@;
                let name = self.approvals[i].0.clone();
                self.approvals.set(i, (name, to_string(f)));
                proof {
                    lemma_keyed_update(before, i as int, self.approvals@[i as int], g);
                }
            },
            None => {
                let ghost before = self.approvals@;
                self.approvals.push((to_string(id), to_string(f)));
                proof {
                    lemma_keyed_push(before, self.approvals@.last(), g);
                }
            },
        }
        true
    }

    /// Take the approval of plugin `id` back.
    pub fn withdraw(&mut self, id: &str)
        requires
            old(self).wf(),
        ensures
            final(self).wf(),
            final(self)@ == old(self)@.remove(id@),
    {
        match key_pos(&self.approvals, id) {
            Some(i) => {
                let ghost before = self.approvals@;
                let _ = self.approvals.remove(i);
                proof {
                    lemma_keyed_remove(before, i as int);
                }
            },
            None => {
                assert(self@ =~= self@.remove(id@));
            },
        }
    }

    /// The approvals as (id, fingerprint) pairs, each id once, for writing to the
    /// settings.
    pub fn pairs(&self) -> (r: Vec<(String, String)>)
        requires
            self.wf(),
        ensures
            keys_distinct(r@),
            keyed_map(r@, |s: String| s@) == self@,
    {
        let mut out: Vec<(String, String)> = Vec::new();
        let mut i: usize = 0;
        while i < self.approvals.len()
            invariant
                i <= self.approvals@.len(),
                keys_distinct(self.approvals@),
                out@.len() == i,
                forall|j: int| 0 <= j < i ==> (#[trigger] out@[j]).0@ == self.approvals@[j].0@ && out@[j].1@ == self.approvals@[j].1@,
            decreases self.approvals.len() - i,
        {
            out.push((self.approvals[i].0.clone(), self.approvals[i].1.clone()));
            i += 1;
        }
        proof {
            let s = self.approvals@;
            assert forall|a: int, b: int| 0 <= a < out@.len() && 0 <= b < out@.len() && #[trigger] out@[a].0@ == #[trigger] out@[b].0@ implies a == b by {
                assert(s[a].0@ == s[b].0@);
            }
            assert forall|l: Seq<char>| #![auto] has_key(out@, l) == has_key(s, l) by {
                if has_key(out@, l) {
                    let a = choose|a: int| 0 <= a < out@.len() && #[trigger] out@[a].0@ == l;
                    assert(s[a].0@ == l);
                }
                if has_key(s, l) {
                    let a = choose|a: int| 0 <= a < s.len() && #[trigger] s[a].0@ == l;
                    assert(out@[a].0@ == l);
                }
            }
            assert forall|l: Seq<char>| has_key(out@, l) implies #[trigger] out@[key_index(out@, l)].1@ == s[key_index(s, l)].1@ by {
                let a = key_index(out@, l);
                let b = key_index(s, l);
                assert(out@[a].0@ == l);
                assert(s[a].0@ == l);
                assert(s[b].0@ == l);
            }
            assert(keyed_map(out@, |s: String| s@) =~= keyed_map(s, |s: String| s@));
        }
        out
    }
}

/// The approvals read back from the settings, in their order: a later pair for an id
/// replaces an earlier one.
pub open spec fn trust_from_spec(pairs: Seq<(String, String)>) -> Map<Seq<char>, Seq<char>>
    decreases pairs.len(),
{
    if pairs.len() == 0 {
        Map::empty()
    } else {
        trust_from_spec(pairs.drop_last()).insert(pairs.last().0@, pairs.last().1@)
    }
}

pub fn trust_from(pairs: &Vec<(String, String)>) -> (r: PluginTrust)
    ensures
        r.wf(),
        r@ == trust_from_spec(pairs@),
{
    let mut t = PluginTrust::new();
    let mut i: usize = 0;
    while i < pairs.len()
        invariant
            i <= pairs@.len(),
            t.wf(),
            t@ == trust_from_spec(pairs@.take(i as int)),
        decreases pairs.len() - i,
    {
        proof {
            assert(pairs@.take(i + 1).drop_last() =~= pairs@.take(i as int));
        }
        let _ = t.approve(pairs[i].0.as_str(), Some(pairs[i].1.as_str()));
        i += 1;
    }
    assert(pairs@.take(pairs@.len() as int) =~= pairs@);
    t
}

/// Plugins installed before approvals existed, and already on the desktop, are approved
/// once as they stand; anything with an answer already is left alone.
pub fn approved_by_migration(trust: &PluginTrust, id: &str, on_desktop: bool) -> (r: bool)
    requires
        trust.wf(),
    ensures
        r == (!trust@.contains_key(id@) && on_desktop),
{
    !trust.knows(id) && on_desktop
}

/// An approval holds for the files that were approved, and only for them: asked again
/// with the folder as it was, the plugin is approved; with anything else, it is not.
pub proof fn an_approval_holds_while_the_files_are_the_same(
    trust: Map<Seq<char>, Seq<char>>,
    id: Seq<char>,
    fingerprint: Seq<char>,
    current: Option<Seq<char>>,
)
    ensures
        approved_spec(trust.insert(id, fingerprint), id, current) == (current == Some(fingerprint)),
{
}

/// A withdrawn plugin is not approved, whatever its folder holds.
pub proof fn a_withdrawn_plugin_is_not_approved(trust: Map<Seq<char>, Seq<char>>, id: Seq<char>, current: Option<Seq<char>>)
    ensures
        !approved_spec(trust.remove(id), id, current),
{
}

/// Approvals are per plugin: approving or withdrawing one changes no other's answer.
pub proof fn approvals_are_per_plugin(
    trust: Map<Seq<char>, Seq<char>>,
    id: Seq<char>,
    other: Seq<char>,
    fingerprint: Seq<char>,
    current: Option<Seq<char>>,
)
    requires
        id != other,
    ensures
        approved_spec(trust.insert(id, fingerprint), other, current) == approved_spec(trust, other, current),
        approved_spec(trust.remove(id), other, current) == approved_spec(trust, other, current),
{
}

} // verus!
