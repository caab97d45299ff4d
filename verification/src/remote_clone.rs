//! `knit clone`: how a project export's repositories are named and based
//! locally, and which imported bundle becomes the active one.
use vstd::prelude::*;

use crate::text::{append_str, chars_of, is_blank, slugify, slugify_seq, str_eq, string_from_chars, trim_seq};

verus! {

/// A metadata string counts only when it is not blank.
pub open spec fn meta_value(v: Option<Seq<char>>) -> Option<Seq<char>> {
    match v {
        Some(s) if trim_seq(s).len() > 0 => Some(s),
        _ => None,
    }
}

pub open spec fn opt_str(o: Option<&str>) -> Option<Seq<char>> {
    match o {
        Some(s) => Some(s@),
        None => None,
    }
}

/// The local id of an exported repository: its recorded local id, else its
/// `localId` metadata when not blank, else the slug of its name.
pub fn export_repo_local_id(local_id: Option<&str>, meta_local_id: Option<&str>, name: &str) -> (out: String)
    ensures
        out@ == match local_id {
            Some(l) => l@,
            None => match meta_value(opt_str(meta_local_id)) {
                Some(m) => m,
                None => slugify_seq(name@),
            },
        },
{
    match local_id {
        Some(l) => string_from_chars(&chars_of(l)),
        None => match meta_local_id {
            Some(m) if !is_blank(m) => string_from_chars(&chars_of(m)),
            _ => slugify(name),
        },
    }
}

/// The base branch of an exported repository: its default branch when not
/// blank, else `main`.
pub fn export_base_branch(default_branch: Option<&str>) -> (out: String)
    ensures
        out@ == match meta_value(opt_str(default_branch)) {
            Some(b) => b,
            None => "main"@,
        },
{
    match default_branch {
        Some(b) if !is_blank(b) => string_from_chars(&chars_of(b)),
        _ => string_from_chars(&chars_of("main")),
    }
}

/// An imported bundle: its id and recorded state.
#[derive(Debug, Clone)]
pub struct ImportedBundle {
    pub id: String,
    pub state: Option<String>,
}

/// An imported bundle counts as open when its state says so or is missing.
pub open spec fn imported_open(b: ImportedBundle) -> bool {
    match b.state {
        Some(s) => s@ == "open"@,
        None => true,
    }
}

/// The bundle a clone makes active: the one asked for (by its slug), which
/// must have been imported; else the first open one, else the first; none
/// when nothing was imported.
pub fn select_active_bundle(bundles: &Vec<ImportedBundle>, requested: Option<&str>) -> (r: Result<Option<String>, String>)
    ensures
        requested matches Some(q) ==> (if exists|k: int| 0 <= k < bundles@.len() && bundles@[k].id@ == slugify_seq(q@) {
            r matches Ok(Some(id)) && id@ == slugify_seq(q@)
        } else {
            r matches Err(e) && e@ == "Remote export has no bundle named `"@ + slugify_seq(q@) + "`."@
        }),
        requested is None && (exists|k: int| 0 <= k < bundles@.len() && imported_open(bundles@[k])) ==> exists|k: int|
            0 <= k < bundles@.len() && imported_open(bundles@[k]) && (forall|j: int|
                0 <= j < k ==> !imported_open(#[trigger] bundles@[j])) && (r matches Ok(Some(id)) && id@
                == bundles@[k].id@),
        requested is None && !(exists|k: int| 0 <= k < bundles@.len() && imported_open(bundles@[k])) ==> (if bundles@.len() > 0 {
            r matches Ok(Some(id)) && id@ == bundles@[0].id@
        } else {
            r matches Ok(None)
        }),
{
    match requested {
        Some(q) => {
            let wanted = slugify(q);
            let mut i: usize = 0;
            while i < bundles.len()
                invariant
                    i <= bundles@.len(),
                    requested == Some(q),
                    wanted@ == slugify_seq(q@),
                    forall|j: int| 0 <= j < i ==> bundles@[j].id@ != wanted@,
                decreases bundles.len() - i,
            {
                if str_eq(bundles[i].id.as_str(), wanted.as_str()) {
                    proof {
                        assert(bundles@[i as int].id@ == slugify_seq(q@));
                    }
                    return Ok(Some(wanted));
                }
                i += 1;
            }
            let mut v = chars_of("Remote export has no bundle named `");
            append_str(&mut v, wanted.as_str());
            append_str(&mut v, "`.");
            Err(string_from_chars(&v))
        },
        None => {
            let mut i: usize = 0;
            while i < bundles.len()
                invariant
                    i <= bundles@.len(),
                    requested is None,
                    forall|j: int| 0 <= j < i ==> !imported_open(#[trigger] bundles@[j]),
                decreases bundles.len() - i,
            {
                let open = match &bundles[i].state {
                    Some(s) => str_eq(s.as_str(), "open"),
                    None => true,
                };
                if open {
                    proof {
                        assert(imported_open(bundles@[i as int]));
                    }
                    let id = bundles[i].id.clone();
                    proof {
                        assert(0 <= i < bundles@.len() && imported_open(bundles@[i as int]) && (forall|j: int|
                            0 <= j < i ==> !imported_open(#[trigger] bundles@[j])) && id@ == bundles@[i as int].id@);
                    }
                    return Ok(Some(id));
                }
                i += 1;
            }
            if bundles.len() > 0 {
                Ok(Some(bundles[0].id.clone()))
            } else {
                Ok(None)
            }
        },
    }
}

} // verus!
