//! What running a row the launcher found does.
//!
//! Launching is the caller's; what gets launched, and what the launcher says about it,
//! is decided here.

use vstd::prelude::*;
use crate::folders::{field, WidgetRecord};
use crate::launcher::{hit_view, opt_string, record_key_path, HitView};
use crate::palette::PaletteHit;
use crate::plugins::{path_key, InstalledPlugin};
use crate::text::{chars_eq, chars_of, to_string, trim, trim_spec};

verus! {

/// What running a chosen row does: the path to launch, if any, and what the launcher
/// says about it.
pub struct RunPlan {
    pub launch: Option<String>,
    pub note: String,
}

/// The record a floatie row stands for: the first with that id.
pub open spec fn record_with_id(records: Seq<WidgetRecord>, id: Seq<char>) -> Option<int> {
    if exists|i: int| 0 <= i < records.len() && (#[trigger] records[i]).id@ == id {
        Some(choose|i: int| 0 <= i < records.len() && (#[trigger] records[i]).id@ == id
            && forall|j: int| 0 <= j < i ==> records[j].id@ != id)
    } else {
        None
    }
}

/// What a floatie row launches: the path its record keeps where its kind keeps one, when
/// that is not blank.
pub open spec fn floatie_target(installed: Seq<InstalledPlugin>, records: Seq<WidgetRecord>, id: Seq<char>) -> Option<Seq<char>> {
    match record_with_id(records, id) {
        Some(i) => match record_key_path(installed, records[i]) {
            Some(p) => if trim_spec(p).len() > 0 { Some(p) } else { None },
            None => None,
        },
        None => None,
    }
}

/// Running a row: an app, a file or a folder opens its path (refused when there is
/// none); a floatie launches what its record points at, or says it already lives on the
/// desktop; any other kind is refused.
pub open spec fn run_plan_spec(installed: Seq<InstalledPlugin>, records: Seq<WidgetRecord>, hit: HitView) -> Result<(Option<Seq<char>>, Seq<char>), Seq<char>> {
    let path = match hit.5 { Some(p) => p, None => ""@ };
    if hit.0 == "app"@ || hit.0 == "file"@ || hit.0 == "folder"@ {
        if trim_spec(path).len() == 0 {
            Err("nothing to open"@)
        } else {
            Ok((Some(path), "opened "@ + path))
        }
    } else if hit.0 == "floatie"@ {
        let id = match hit.4 { Some(i) => i, None => ""@ };
        match floatie_target(installed, records, id) {
            Some(t) => Ok((Some(t), "launched "@ + t)),
            None => Ok((None, hit.1 + " lives on your desktop"@)),
        }
    } else {
        Err("nothing here knows how to run a '"@ + hit.0 + "'"@)
    }
}

fn record_index(records: &Vec<WidgetRecord>, id: &String) -> (r: Option<usize>)
    ensures
        r matches Some(i) ==> i < records@.len() && record_with_id(records@, id@) == Some(i as int),
        r is None <==> record_with_id(records@, id@) is None,
{
    let mut i: usize = 0;
    while i < records.len()
        invariant
            i <= records@.len(),
            forall|j: int| 0 <= j < i ==> records@[j].id@ != id@,
        decreases records.len() - i,
    {
        if records[i].id == *id {
            proof {
                let w = choose|w: int| 0 <= w < records@.len() && (#[trigger] records@[w]).id@ == id@
                    && forall|j: int| 0 <= j < w ==> records@[j].id@ != id@;
                assert(records@[i as int].id@ == id@);
                assert(w == i) by {
                    if w > i {
                        assert(records@[i as int].id@ != id@);
                    }
                }
            }
            return Some(i);
        }
        i += 1;
    }
    None
}

fn is_one_of3(k: &String, a: &str, b: &str, c: &str) -> (r: bool)
    ensures
        r == (k@ == a@ || k@ == b@ || k@ == c@),
{
    let v = chars_of(k.as_str());
    chars_eq(&v, &chars_of(a)) || chars_eq(&v, &chars_of(b)) || chars_eq(&v, &chars_of(c))
}

pub fn run_plan(installed: &[InstalledPlugin], records: &Vec<WidgetRecord>, hit: &PaletteHit) -> (r: Result<RunPlan, String>)
    ensures
        match r {
            Ok(p) => run_plan_spec(installed@, records@, hit_view(*hit))
                == Ok::<(Option<Seq<char>>, Seq<char>), Seq<char>>((opt_string(p.launch), p.note@)),
            Err(e) => run_plan_spec(installed@, records@, hit_view(*hit)) == Err::<(Option<Seq<char>>, Seq<char>), Seq<char>>(e@),
        },
{
    proof {
        reveal_strlit("");
    }
    let path = match &hit.path {
        Some(p) => p.clone(),
        None => String::new(),
    };
    if is_one_of3(&hit.kind, "app", "file", "folder") {
        if trim(path.as_str()).len() == 0 {
            return Err(to_string("nothing to open"));
        }
        let note = crate::text::concat("opened ", path.as_str());
        return Ok(RunPlan { launch: Some(path), note });
    }
    if chars_eq(&chars_of(hit.kind.as_str()), &chars_of("floatie")) {
        let id = match &hit.id {
            Some(i) => i.clone(),
            None => String::new(),
        };
        let target = match record_index(records, &id) {
            Some(i) => {
                let r = &records[i];
                match path_key(installed, r.kind.as_str()) {
                    Some(k) => match field(&r.text, k.as_str()) {
                        Some(p) => if trim(p.as_str()).len() > 0 { Some(p) } else { None },
                        None => None,
                    },
                    None => None,
                }
            },
            None => None,
        };
        proof {
            let idv = match &hit.id { Some(i) => i@, None => ""@ };
            assert(id@ == idv);
            match &target {
                Some(t) => assert(floatie_target(installed@, records@, idv) == Some(t@)),
                None => assert(floatie_target(installed@, records@, idv) is None),
            }
            assert(hit_view(*hit).0 == "floatie"@);
            assert(!(hit_view(*hit).0 == "app"@ || hit_view(*hit).0 == "file"@ || hit_view(*hit).0 == "folder"@));
        }
        return match target {
            Some(t) => {
                let note = crate::text::concat("launched ", t.as_str());
                Ok(RunPlan { launch: Some(t), note })
            },
            None => Ok(RunPlan { launch: None, note: crate::text::concat(hit.title.as_str(), " lives on your desktop") }),
        };
    }
    let mut e = crate::text::concat("nothing here knows how to run a '", hit.kind.as_str());
    crate::text::push_str(&mut e, "'");
    Err(e)
}

} // verus!
